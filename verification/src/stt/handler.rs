//! The plain `/stt` socket: a per-connection machine in [`Mode::Plain`].
use vstd::prelude::*;

use crate::pcm::{decode_spec, is_quiet, quiet};
use crate::stt::service::{
    initial_model, model_wf, next_step, run_text, Mode, Stage, StreamAction, StreamEvent,
    StreamModel, StreamProcessor, QUIET_PER_MILLE,
};

verus! {

/// Whether `audio` is silence for the plain socket: empty, or with a mean level below 1.5 %
/// of full scale.
pub fn is_silence_internal(audio: &[i16]) -> (r: bool)
    ensures
        r == is_quiet(audio@, QUIET_PER_MILLE as int),
{
    quiet(audio, QUIET_PER_MILLE)
}

/// The audio and transcript state of one plain-socket connection.
pub struct SocketSession {
    machine: StreamProcessor,
}

impl View for SocketSession {
    type V = StreamModel;

    closed spec fn view(&self) -> StreamModel {
        self.machine@
    }
}

impl SocketSession {
    /// A session that has heard nothing.
    pub fn new() -> (s: Self)
        ensures
            s@ == initial_model(Mode::Plain),
    {
        SocketSession { machine: StreamProcessor::with_mode(Mode::Plain) }
    }

    /// Whether the session waits for a transcript.
    pub fn is_awaiting_transcript(&self) -> (r: bool)
        ensures
            r == (self@.stage != Stage::Idle),
    {
        self.machine.is_awaiting_transcript()
    }

    /// The audio of the sentence in progress.
    pub fn samples(&self) -> (s: &[i16])
        ensures
            s@ == self@.buffer,
    {
        self.machine.samples()
    }

    /// Takes in a chunk of 16-bit little-endian PCM.
    pub fn receive_audio(&mut self, bytes: &[u8]) -> (a: StreamAction)
        requires
            old(self)@.stage == Stage::Idle,
            model_wf(old(self)@),
        ensures
            (final(self)@, a@) == next_step(old(self)@, StreamEvent::Chunk(decode_spec(bytes@))),
            model_wf(final(self)@),
    {
        self.machine.process_audio(bytes)
    }

    /// Continues with the segments of the transcription asked for.
    pub fn resume(&mut self, run: Option<Vec<Option<String>>>) -> (a: StreamAction)
        requires
            old(self)@.stage != Stage::Idle,
            model_wf(old(self)@),
        ensures
            (final(self)@, a@) == next_step(old(self)@, StreamEvent::Transcript(run_text(run))),
            model_wf(final(self)@),
    {
        self.machine.resume(run)
    }

    /// Answers `finalize`.
    pub fn finalize(&mut self) -> (a: StreamAction)
        requires
            old(self)@.stage == Stage::Idle,
            model_wf(old(self)@),
        ensures
            (final(self)@, a@) == next_step(old(self)@, StreamEvent::Finalize),
            model_wf(final(self)@),
    {
        self.machine.finalize()
    }

    /// Answers `reset`.
    pub fn reset(&mut self) -> (a: StreamAction)
        requires
            old(self)@.stage == Stage::Idle,
            model_wf(old(self)@),
        ensures
            (final(self)@, a@) == next_step(old(self)@, StreamEvent::Reset),
            model_wf(final(self)@),
    {
        self.machine.reset()
    }
}

} // verus!
