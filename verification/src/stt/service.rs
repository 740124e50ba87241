//! The streaming transcription state machine.
//!
//! Audio arrives as 16-bit PCM chunks. The machine keeps the audio of the sentence in
//! progress and, whenever another 500 ms have arrived, asks for a transcription. A partial
//! result carries the newly transcribed words and the whole transcript so far, and goes out
//! whenever there are new words. A quiet tail closes the sentence with a final result, and
//! the client can ask for the final result (`finalize`) or drop everything (`reset`) at any
//! time. Transcription itself is outside work: the machine names the samples to transcribe
//! and resumes with the text of the segments that came back.
//!
//! Two connection kinds run this machine. The streaming socket ([`StreamProcessor`])
//! transcribes the most recent 30 s when they are not quiet and closes a sentence after a
//! quiet 1.2 s with a transcription of the whole sentence. The plain socket
//! ([`crate::stt::handler::SocketSession`]) transcribes the whole sentence when its last
//! 250 ms are not quiet and closes a sentence after a quiet second with its last transcript.
use vstd::prelude::*;

use crate::pcm::{decode_into, decode_spec, is_quiet, quiet, quiet_range};
use crate::text::{is_white_space, lemma_trim_bare, lemma_trim_empty, trim, trim_str};
use vstd::string::StringExecFns;

verus! {

broadcast use vstd::string::group_string_axioms;

/// Samples per second of the incoming audio.
pub const SAMPLE_RATE: usize = 16000;

/// New samples (500 ms) after which another partial transcription is due.
pub const PARTIAL_STEP: usize = 8000;

/// Length (30 s) of the most recent audio that a streaming transcription covers.
pub const WINDOW_LEN: usize = 480000;

/// Length (250 ms) of the recent audio that must not be quiet for a plain-socket
/// transcription.
pub const RECENT_LEN: usize = 4000;

/// Length (1.2 s) of the quiet tail that closes a sentence on the streaming socket.
pub const FINAL_QUIET_LEN: usize = 19200;

/// Length (1 s) of the quiet tail that closes a sentence on the plain socket.
pub const SENTENCE_QUIET_LEN: usize = 16000;

/// Buffer length (60 s) beyond which old audio is dropped.
pub const BUFFER_LIMIT: usize = 960000;

/// Samples (30 s) dropped from the front when the buffer exceeds its limit.
pub const DRAIN_LEN: usize = 480000;

/// Quiet threshold, in thousandths of full scale (0.015).
pub const QUIET_PER_MILLE: u16 = 15;

/// Whether `audio` is silence: empty, or with a mean level below 1.5 % of full scale.
pub fn is_silence(audio: &[i16]) -> (r: bool)
    ensures
        r == is_quiet(audio@, QUIET_PER_MILLE as int),
{
    quiet(audio, QUIET_PER_MILLE)
}

/// What to hand the decoder for `audio`: nothing when it is silence, else the thread count
/// and the language (the one given, or `auto`).
pub fn decode_plan<'a>(audio: &[i16], threads: i32, language: Option<&'a str>) -> (plan: Option<(i32, &'a str)>)
    ensures
        match plan {
            None => is_quiet(audio@, QUIET_PER_MILLE as int),
            Some((t, l)) => {
                &&& !is_quiet(audio@, QUIET_PER_MILLE as int)
                &&& t == threads
                &&& l@ == match language {
                    Some(g) => g@,
                    None => "auto"@,
                }
            },
        },
{
    if is_silence(audio) {
        None
    } else {
        Some(
            (
                threads,
                match language {
                    Some(g) => g,
                    None => "auto",
                },
            ),
        )
    }
}

/// A message for the client.
#[derive(Debug, PartialEq, Eq)]
pub enum TranscriptionResult {
    /// Newly transcribed words (`text`) and the whole transcript so far (`full_text`).
    Partial { text: String, full_text: String },
    /// The transcript of a finished sentence.
    Final(String),
    /// Everything was dropped.
    Reset,
}

/// What a [`TranscriptionResult`] says: for a partial, the new words, then the whole
/// transcript.
pub enum ResultView {
    Partial(Seq<char>, Seq<char>),
    Final(Seq<char>),
    Reset,
}

impl View for TranscriptionResult {
    type V = ResultView;

    open spec fn view(&self) -> ResultView {
        match self {
            TranscriptionResult::Partial { text, full_text } => ResultView::Partial(
                text@,
                full_text@,
            ),
            TranscriptionResult::Final(t) => ResultView::Final(t@),
            TranscriptionResult::Reset => ResultView::Reset,
        }
    }
}

/// The results held in `v`.
pub open spec fn results_view(v: Seq<TranscriptionResult>) -> Seq<ResultView> {
    v.map_values(|r: TranscriptionResult| r@)
}

/// The text of an optional string.
pub open spec fn opt_text(o: Option<String>) -> Option<Seq<char>> {
    match o {
        Some(s) => Some(s@),
        None => None,
    }
}

/// The texts of the segments of a transcription run.
pub open spec fn segments_text(segments: Seq<Option<String>>) -> Seq<Option<Seq<char>>> {
    segments.map_values(|o: Option<String>| opt_text(o))
}

/// The texts of a run: `None` when decoding failed.
pub open spec fn run_text(run: Option<Vec<Option<String>>>) -> Option<Seq<Option<Seq<char>>>> {
    match run {
        Some(v) => Some(segments_text(v@)),
        None => None,
    }
}

/// The text of the segments that decoded, one after another.
pub open spec fn joined(segments: Seq<Option<Seq<char>>>) -> Seq<char>
    decreases segments.len(),
{
    if segments.len() == 0 {
        Seq::empty()
    } else {
        joined(segments.drop_last()) + match segments.last() {
            Some(t) => t,
            None => Seq::empty(),
        }
    }
}

/// The transcript of a run: nothing when decoding failed, else the trimmed text of the
/// segments, or nothing when that is empty.
pub open spec fn transcript_of(run: Option<Seq<Option<Seq<char>>>>) -> Option<Seq<char>> {
    match run {
        None => None,
        Some(segments) => {
            let t = trim(joined(segments));
            if t.len() == 0 {
                None
            } else {
                Some(t)
            }
        },
    }
}

fn join_segments(segments: &Vec<Option<String>>, from: usize) -> (text: String)
    requires
        from <= segments@.len(),
    ensures
        text@ == joined(segments_text(segments@).skip(from as int)),
{
    let ghost texts = segments_text(segments@).skip(from as int);
    let mut text = String::new();
    let n = segments.len();
    let mut i: usize = from;
    while i < n
        invariant
            n == segments@.len(),
            from <= i <= n,
            texts == segments_text(segments@).skip(from as int),
            text@ == joined(texts.take(i - from)),
        decreases n - i,
    {
        assert(texts.take(i - from + 1).drop_last() =~= texts.take(i - from));
        match &segments[i] {
            Some(seg) => {
                text.append(seg.as_str());
            },
            None => {},
        }
        i = i + 1;
    }
    assert(texts.take(n - from) =~= texts);
    text
}

/// The transcript of a decoding run, from the text of each segment (`None` for a segment
/// whose text is not valid UTF-8); `run` is `None` when decoding failed.
pub fn transcript_from_segments(run: Option<Vec<Option<String>>>) -> (r: Option<String>)
    ensures
        opt_text(r) == transcript_of(run_text(run)),
{
    match run {
        None => None,
        Some(segments) => {
            let text = join_segments(&segments, 0);
            assert(segments_text(segments@).skip(0) =~= segments_text(segments@));
            let t = trim_str(text.as_str());
            if t.as_str().is_empty() {
                None
            } else {
                Some(t)
            }
        },
    }
}

/// Where the model file of the given name lies: `models/<name>`.
pub fn model_path(model: &str) -> (path: String)
    ensures
        path@ == "models/"@ + model@,
{
    let mut path = "models/".to_string();
    path.append(model);
    path
}

/// Which connection kind a machine serves.
#[derive(Debug, PartialEq, Eq, Structural, Clone, Copy)]
pub enum Mode {
    /// The streaming socket: 30 s window, quiet 1.2 s tail, transcribed final result.
    Streaming,
    /// The plain socket: whole sentence, recent 250 ms, quiet 1 s tail, last transcript as
    /// final result.
    Plain,
}

/// Where a machine stands within the handling of one message.
#[derive(Debug, PartialEq, Eq, Structural, Clone, Copy)]
pub enum Stage {
    /// Waiting for the next message.
    Idle,
    /// Waiting for the transcript of the samples named.
    AwaitingPartial,
    /// Waiting for the transcript of the whole sentence.
    AwaitingFinal,
}

/// What the caller does next.
#[derive(Debug, PartialEq, Eq)]
pub enum StreamAction {
    /// Transcribe samples `start..end` of the buffer and resume with the segments.
    Transcribe { start: usize, end: usize },
    /// The message is handled: send these results, in order.
    Emit(Vec<TranscriptionResult>),
}

/// What a [`StreamAction`] asks for.
pub enum ActionView {
    Transcribe(int, int),
    Emit(Seq<ResultView>),
}

impl View for StreamAction {
    type V = ActionView;

    open spec fn view(&self) -> ActionView {
        match self {
            StreamAction::Transcribe { start, end } => ActionView::Transcribe(
                *start as int,
                *end as int,
            ),
            StreamAction::Emit(v) => ActionView::Emit(results_view(v@)),
        }
    }
}

/// The state of a machine as values.
pub struct StreamModel {
    pub mode: Mode,
    /// The audio of the sentence in progress.
    pub buffer: Seq<i16>,
    /// The buffer length at the last partial check.
    pub processed: int,
    /// How much of the buffer the last partial transcription covered.
    pub transcribed: int,
    /// The whole transcript of the last partial result, empty when there is none.
    pub last_text: Seq<char>,
    pub stage: Stage,
    /// The samples named for a partial transcription.
    pub window_start: int,
    pub window_end: int,
    /// Results gathered for the message in hand.
    pub results: Seq<ResultView>,
}

/// The state that every machine keeps.
pub open spec fn model_wf(m: StreamModel) -> bool {
    &&& 0 <= m.processed <= m.buffer.len()
    &&& 0 <= m.transcribed <= m.buffer.len()
    &&& m.stage == Stage::AwaitingPartial ==> 0 <= m.window_start < m.window_end
        == m.buffer.len()
}

/// A new machine: nothing heard, nothing said.
pub open spec fn initial_model(mode: Mode) -> StreamModel {
    StreamModel {
        mode,
        buffer: Seq::empty(),
        processed: 0,
        transcribed: 0,
        last_text: Seq::empty(),
        stage: Stage::Idle,
        window_start: 0,
        window_end: 0,
        results: Seq::empty(),
    }
}

/// The samples that a partial transcription covers: the last 30 s on the streaming socket,
/// the whole sentence on the plain one.
pub open spec fn partial_window(mode: Mode, len: int) -> (int, int) {
    match mode {
        Mode::Streaming => (
            if len > WINDOW_LEN {
                len - WINDOW_LEN
            } else {
                0
            },
            len,
        ),
        Mode::Plain => (0, len),
    }
}

/// Where the audio starts that must not be quiet for a partial transcription.
pub open spec fn gate_start(mode: Mode, len: int) -> int {
    match mode {
        Mode::Streaming => partial_window(mode, len).0,
        Mode::Plain => if len > RECENT_LEN {
            len - RECENT_LEN
        } else {
            0
        },
    }
}

/// Length of the quiet tail that closes a sentence.
pub open spec fn tail_len(mode: Mode) -> int {
    match mode {
        Mode::Streaming => FINAL_QUIET_LEN as int,
        Mode::Plain => SENTENCE_QUIET_LEN as int,
    }
}

/// The sentence is over: no audio, no transcript.
pub open spec fn reset_model(m: StreamModel) -> StreamModel {
    StreamModel {
        buffer: Seq::empty(),
        processed: 0,
        transcribed: 0,
        last_text: Seq::empty(),
        window_start: 0,
        window_end: 0,
        ..m
    }
}

/// The sentence closes; `text` goes out as the final result unless it is empty.
pub open spec fn close_sentence(m: StreamModel, text: Seq<char>) -> StreamModel {
    reset_model(
        StreamModel {
            results: if text.len() > 0 {
                m.results.push(ResultView::Final(text))
            } else {
                m.results
            },
            ..m
        },
    )
}

/// Last step of a message: drop the oldest 30 s when the buffer holds more than 60 s, then
/// hand out the gathered results.
pub open spec fn limit_step(m: StreamModel) -> (StreamModel, ActionView) {
    let len = m.buffer.len() as int;
    let m1 = if len > BUFFER_LIMIT {
        StreamModel {
            buffer: m.buffer.subrange(DRAIN_LEN as int, len),
            processed: len - DRAIN_LEN,
            transcribed: if m.transcribed > DRAIN_LEN {
                m.transcribed - DRAIN_LEN
            } else {
                0
            },
            ..m
        }
    } else {
        m
    };
    (StreamModel { stage: Stage::Idle, results: Seq::empty(), ..m1 }, ActionView::Emit(m.results))
}

/// A quiet tail ends the sentence. With a transcript, a final result follows: on the
/// streaming socket the transcript of the whole sentence, which is asked for unless the
/// sentence is quiet; on the plain socket the last transcript.
pub open spec fn final_step(m: StreamModel) -> (StreamModel, ActionView) {
    let len = m.buffer.len() as int;
    let tail = tail_len(m.mode);
    if len >= tail && is_quiet(m.buffer.subrange(len - tail, len), QUIET_PER_MILLE as int) {
        if m.last_text.len() > 0 && m.mode == Mode::Streaming && !is_quiet(
            m.buffer,
            QUIET_PER_MILLE as int,
        ) {
            (StreamModel { stage: Stage::AwaitingFinal, ..m }, ActionView::Transcribe(0, len))
        } else {
            limit_step(close_sentence(m, m.last_text))
        }
    } else {
        limit_step(m)
    }
}

/// Once 500 ms arrived since the last check, the partial window is transcribed unless the
/// audio that gates it is quiet.
pub open spec fn partial_step(m: StreamModel) -> (StreamModel, ActionView) {
    let len = m.buffer.len() as int;
    if len - m.processed >= PARTIAL_STEP {
        let m1 = StreamModel { processed: len, ..m };
        let (s, e) = partial_window(m.mode, len);
        if !is_quiet(m.buffer.subrange(gate_start(m.mode, len), len), QUIET_PER_MILLE as int) {
            (
                StreamModel { stage: Stage::AwaitingPartial, window_start: s, window_end: e, ..m1 },
                ActionView::Transcribe(s, e),
            )
        } else {
            final_step(m1)
        }
    } else {
        final_step(m)
    }
}

/// A chunk of samples arrives.
pub open spec fn chunk_step(m: StreamModel, samples: Seq<i16>) -> (StreamModel, ActionView) {
    partial_step(StreamModel { buffer: m.buffer + samples, ..m })
}

/// The first segment holding new words: the share of the window transcribed before, in
/// segments, `done * segments / window`.
pub open spec fn split_index(transcribed: int, count: int, start: int, end: int) -> int {
    let done = if transcribed > start {
        transcribed - start
    } else {
        0
    };
    let k = if end - start <= 0 {
        0
    } else {
        done * count / (end - start)
    };
    // within the window, as it always is, `done <= end - start` keeps `k <= count`
    if k > count {
        count
    } else {
        k
    }
}

/// The partial transcript comes back. The new words are the trimmed text of the segments
/// from [`split_index`] on; a partial result goes out when there are new words, and its
/// whole transcript is remembered.
pub open spec fn apply_partial(m: StreamModel, run: Option<Seq<Option<Seq<char>>>>) -> StreamModel {
    let m1 = StreamModel { transcribed: m.window_end, ..m };
    match run {
        None => m1,
        Some(segments) => {
            let full = trim(joined(segments));
            let k = split_index(m.transcribed, segments.len() as int, m.window_start, m.window_end);
            let fresh = trim(joined(segments.skip(k)));
            if fresh.len() > 0 {
                StreamModel {
                    results: m1.results.push(ResultView::Partial(fresh, full)),
                    last_text: full,
                    ..m1
                }
            } else {
                m1
            }
        },
    }
}

proof fn lemma_joined_split(segments: Seq<Option<Seq<char>>>, k: int)
    requires
        0 <= k <= segments.len(),
    ensures
        joined(segments) == joined(segments.take(k)) + joined(segments.skip(k)),
    decreases segments.len(),
{
    if k == segments.len() {
        assert(segments.take(k) =~= segments);
        assert(segments.skip(k) =~= Seq::<Option<Seq<char>>>::empty());
        assert(joined(segments) + Seq::<char>::empty() =~= joined(segments));
    } else {
        let d = segments.drop_last();
        lemma_joined_split(d, k);
        assert(d.take(k) =~= segments.take(k));
        assert(segments.skip(k).drop_last() =~= d.skip(k));
        assert(segments.skip(k).last() == segments.last());
        let tail = match segments.last() {
            Some(t) => t,
            None => Seq::<char>::empty(),
        };
        assert(joined(segments.take(k)) + joined(d.skip(k)) + tail =~= joined(segments.take(k)) + (
        joined(d.skip(k)) + tail));
    }
}

/// New words come from the whole transcript: when they are not empty, neither is it.
pub proof fn lemma_fresh_in_full(segments: Seq<Option<Seq<char>>>, k: int)
    requires
        0 <= k <= segments.len(),
    ensures
        trim(joined(segments.skip(k))).len() > 0 ==> trim(joined(segments)).len() > 0,
{
    let fresh = joined(segments.skip(k));
    let whole = joined(segments);
    lemma_joined_split(segments, k);
    lemma_trim_empty(fresh);
    lemma_trim_empty(whole);
    if trim(fresh).len() > 0 {
        let i = choose|i: int| 0 <= i < fresh.len() && !is_white_space(#[trigger] fresh[i]);
        let p = joined(segments.take(k)).len();
        assert(whole[p + i] == fresh[i]);
    }
}

/// The transcript asked for comes back. After a partial one the sentence may still end;
/// a final one closes the sentence with it, or with the last transcript when it is empty.
pub open spec fn resume_step(m: StreamModel, run: Option<Seq<Option<Seq<char>>>>) -> (
    StreamModel,
    ActionView,
) {
    match m.stage {
        Stage::AwaitingPartial => final_step(apply_partial(StreamModel { stage: Stage::Idle, ..m }, run)),
        Stage::AwaitingFinal => limit_step(
            close_sentence(
                m,
                match transcript_of(run) {
                    Some(t) => t,
                    None => m.last_text,
                },
            ),
        ),
        Stage::Idle => (m, ActionView::Emit(Seq::empty())),
    }
}

/// The client asks for the final result: the whole sentence is transcribed unless it is
/// quiet, and the sentence closes.
pub open spec fn finalize_step(m: StreamModel) -> (StreamModel, ActionView) {
    let len = m.buffer.len() as int;
    if !is_quiet(m.buffer, QUIET_PER_MILLE as int) {
        (StreamModel { stage: Stage::AwaitingFinal, ..m }, ActionView::Transcribe(0, len))
    } else {
        limit_step(close_sentence(m, m.last_text))
    }
}

/// The client asks to drop everything: the sentence is cleared and the reset confirmed.
pub open spec fn reset_step(m: StreamModel) -> (StreamModel, ActionView) {
    limit_step(StreamModel { results: m.results.push(ResultView::Reset), ..reset_model(m) })
}

/// What reaches a machine.
pub enum StreamEvent {
    /// Samples of a binary message.
    Chunk(Seq<i16>),
    /// The segments of the transcription asked for.
    Transcript(Option<Seq<Option<Seq<char>>>>),
    /// The text message `finalize`.
    Finalize,
    /// The text message `reset`.
    Reset,
}

/// How a machine answers an event: chunks, `finalize` and `reset` while idle, transcripts
/// while waiting for one; any other event changes nothing.
pub open spec fn next_step(m: StreamModel, e: StreamEvent) -> (StreamModel, ActionView) {
    match e {
        StreamEvent::Chunk(samples) => if m.stage == Stage::Idle {
            chunk_step(m, samples)
        } else {
            (m, ActionView::Emit(Seq::empty()))
        },
        StreamEvent::Transcript(run) => if m.stage != Stage::Idle {
            resume_step(m, run)
        } else {
            (m, ActionView::Emit(Seq::empty()))
        },
        StreamEvent::Finalize => if m.stage == Stage::Idle {
            finalize_step(m)
        } else {
            (m, ActionView::Emit(Seq::empty()))
        },
        StreamEvent::Reset => if m.stage == Stage::Idle {
            reset_step(m)
        } else {
            (m, ActionView::Emit(Seq::empty()))
        },
    }
}

/// The machine of the streaming socket.
pub struct StreamProcessor {
    mode: Mode,
    audio_buffer: Vec<i16>,
    last_processed_len: usize,
    last_transcribed_len: usize,
    last_transcribed_text: String,
    stage: Stage,
    window_start: usize,
    window_end: usize,
    results: Vec<TranscriptionResult>,
}

impl View for StreamProcessor {
    type V = StreamModel;

    closed spec fn view(&self) -> StreamModel {
        StreamModel {
            mode: self.mode,
            buffer: self.audio_buffer@,
            processed: self.last_processed_len as int,
            transcribed: self.last_transcribed_len as int,
            last_text: self.last_transcribed_text@,
            stage: self.stage,
            window_start: self.window_start as int,
            window_end: self.window_end as int,
            results: results_view(self.results@),
        }
    }
}

impl StreamProcessor {
    /// A machine for the given connection kind that has heard nothing.
    pub fn with_mode(mode: Mode) -> (p: Self)
        ensures
            p@ == initial_model(mode),
    {
        let audio_buffer: Vec<i16> = match mode {
            Mode::Streaming => Vec::with_capacity(WINDOW_LEN),
            Mode::Plain => Vec::new(),
        };
        let p = StreamProcessor {
            mode,
            audio_buffer,
            last_processed_len: 0,
            last_transcribed_len: 0,
            last_transcribed_text: String::new(),
            stage: Stage::Idle,
            window_start: 0,
            window_end: 0,
            results: Vec::new(),
        };
        assert(p@.results =~= Seq::<ResultView>::empty());
        p
    }

    /// A streaming-socket machine that has heard nothing.
    pub fn new() -> (p: Self)
        ensures
            p@ == initial_model(Mode::Streaming),
    {
        Self::with_mode(Mode::Streaming)
    }

    /// Whether the machine waits for a transcript.
    pub fn is_awaiting_transcript(&self) -> (r: bool)
        ensures
            r == (self@.stage != Stage::Idle),
    {
        !matches!(self.stage, Stage::Idle)
    }

    /// The audio of the sentence in progress.
    pub fn samples(&self) -> (s: &[i16])
        ensures
            s@ == self@.buffer,
    {
        self.audio_buffer.as_slice()
    }

    fn push_result(&mut self, r: TranscriptionResult)
        ensures
            final(self)@ == (StreamModel { results: old(self)@.results.push(r@), ..old(self)@ }),
    {
        self.results.push(r);
        assert(results_view(self.results@) =~= old(self)@.results.push(r@));
    }

    fn clear_sentence(&mut self)
        ensures
            final(self)@ == reset_model(old(self)@),
    {
        self.last_processed_len = 0;
        self.last_transcribed_len = 0;
        self.window_start = 0;
        self.window_end = 0;
        self.audio_buffer.clear();
        self.last_transcribed_text = String::new();
    }

    fn close(&mut self, text: String)
        ensures
            final(self)@ == close_sentence(old(self)@, text@),
    {
        if !text.as_str().is_empty() {
            self.push_result(TranscriptionResult::Final(text));
        }
        self.clear_sentence();
    }

    fn limit(&mut self) -> (a: StreamAction)
        requires
            model_wf(old(self)@),
        ensures
            (final(self)@, a@) == limit_step(old(self)@),
            model_wf(final(self)@),
    {
        let len = self.audio_buffer.len();
        if len > BUFFER_LIMIT {
            let tail = self.audio_buffer.split_off(DRAIN_LEN);
            self.audio_buffer = tail;
            self.last_processed_len = len - DRAIN_LEN;
            self.last_transcribed_len = if self.last_transcribed_len > DRAIN_LEN {
                self.last_transcribed_len - DRAIN_LEN
            } else {
                0
            };
        }
        self.stage = Stage::Idle;
        let mut results: Vec<TranscriptionResult> = Vec::new();
        std::mem::swap(&mut results, &mut self.results);
        assert(results_view(self.results@) =~= Seq::<ResultView>::empty());
        StreamAction::Emit(results)
    }

    fn final_check(&mut self) -> (a: StreamAction)
        requires
            model_wf(old(self)@),
            old(self)@.stage == Stage::Idle,
        ensures
            (final(self)@, a@) == final_step(old(self)@),
            model_wf(final(self)@),
    {
        let len = self.audio_buffer.len();
        let tail: usize = match self.mode {
            Mode::Streaming => FINAL_QUIET_LEN,
            Mode::Plain => SENTENCE_QUIET_LEN,
        };
        if len >= tail && quiet_range(&self.audio_buffer, len - tail, len, QUIET_PER_MILLE) {
            if !self.last_transcribed_text.as_str().is_empty() && matches!(self.mode, Mode::Streaming)
                && !quiet(&self.audio_buffer, QUIET_PER_MILLE) {
                self.stage = Stage::AwaitingFinal;
                return StreamAction::Transcribe { start: 0, end: len };
            }
            let text = self.last_transcribed_text.clone();
            self.close(text);
        }
        self.limit()
    }

    fn partial_check(&mut self) -> (a: StreamAction)
        requires
            model_wf(old(self)@),
            old(self)@.stage == Stage::Idle,
        ensures
            (final(self)@, a@) == partial_step(old(self)@),
            model_wf(final(self)@),
    {
        let len = self.audio_buffer.len();
        if len - self.last_processed_len >= PARTIAL_STEP {
            self.last_processed_len = len;
            let (start, gate) = match self.mode {
                Mode::Streaming => {
                    let s = if len > WINDOW_LEN {
                        len - WINDOW_LEN
                    } else {
                        0
                    };
                    (s, s)
                },
                Mode::Plain => (
                    0,
                    if len > RECENT_LEN {
                        len - RECENT_LEN
                    } else {
                        0
                    },
                ),
            };
            if !quiet_range(&self.audio_buffer, gate, len, QUIET_PER_MILLE) {
                self.stage = Stage::AwaitingPartial;
                self.window_start = start;
                self.window_end = len;
                return StreamAction::Transcribe { start, end: len };
            }
        }
        self.final_check()
    }

    fn take_partial(&mut self, run: Option<Vec<Option<String>>>)
        requires
            model_wf(old(self)@),
            old(self)@.stage == Stage::AwaitingPartial,
        ensures
            final(self)@ == apply_partial(
                StreamModel { stage: Stage::Idle, ..old(self)@ },
                run_text(run),
            ),
            model_wf(final(self)@),
    {
        self.stage = Stage::Idle;
        let s = self.window_start;
        let e = self.window_end;
        let prior = self.last_transcribed_len;
        self.last_transcribed_len = e;
        match run {
            None => {},
            Some(segments) => {
                let n = segments.len();
                let done: usize = if prior > s {
                    prior - s
                } else {
                    0
                };
                let width = e - s;
                proof {
                    assert(done <= width);
                    assert((done as int) * (n as int) / (width as int) <= n) by (nonlinear_arith)
                        requires
                            done <= width,
                            width > 0,
                            n >= 0,
                    {
                        assert((done as int) * (n as int) <= (width as int) * (n as int));
                        assert((width as int) * (n as int) / (width as int) == n);
                    }
                    assert((done as int) * (n as int) <= u128::MAX) by (nonlinear_arith)
                        requires
                            done <= usize::MAX,
                            n <= usize::MAX,
                    ;
                }
                let k = ((done as u128) * (n as u128) / (width as u128)) as usize;
                let full_joined = join_segments(&segments, 0);
                assert(segments_text(segments@).skip(0) =~= segments_text(segments@));
                let full = trim_str(full_joined.as_str());
                let fresh_joined = join_segments(&segments, k);
                let fresh = trim_str(fresh_joined.as_str());
                if !fresh.as_str().is_empty() {
                    let copy = full.clone();
                    self.push_result(TranscriptionResult::Partial { text: fresh, full_text: copy });
                    self.last_transcribed_text = full;
                }
            },
        }
    }

    fn finish_final(&mut self, run: Option<Vec<Option<String>>>) -> (a: StreamAction)
        requires
            model_wf(old(self)@),
            old(self)@.stage != Stage::AwaitingPartial,
        ensures
            (final(self)@, a@) == limit_step(
                close_sentence(
                    old(self)@,
                    match transcript_of(run_text(run)) {
                        Some(t) => t,
                        None => old(self)@.last_text,
                    },
                ),
            ),
            model_wf(final(self)@),
    {
        let text = match transcript_from_segments(run) {
            Some(t) => t,
            None => self.last_transcribed_text.clone(),
        };
        self.close(text);
        self.limit()
    }

    /// Takes in a chunk of 16-bit little-endian PCM and handles it as far as it can without
    /// a transcript.
    pub fn process_audio(&mut self, bytes: &[u8]) -> (a: StreamAction)
        requires
            old(self)@.stage == Stage::Idle,
            model_wf(old(self)@),
        ensures
            (final(self)@, a@) == next_step(old(self)@, StreamEvent::Chunk(decode_spec(bytes@))),
            model_wf(final(self)@),
    {
        decode_into(bytes, &mut self.audio_buffer);
        self.partial_check()
    }

    /// Continues with the segments of the transcription asked for (`None` when decoding
    /// failed; a segment is `None` when its text is not valid UTF-8).
    pub fn resume(&mut self, run: Option<Vec<Option<String>>>) -> (a: StreamAction)
        requires
            old(self)@.stage != Stage::Idle,
            model_wf(old(self)@),
        ensures
            (final(self)@, a@) == next_step(old(self)@, StreamEvent::Transcript(run_text(run))),
            model_wf(final(self)@),
    {
        if matches!(self.stage, Stage::AwaitingPartial) {
            self.take_partial(run);
            self.final_check()
        } else {
            self.finish_final(run)
        }
    }

    /// Answers `finalize`: asks for the transcript of the sentence unless it is quiet, and
    /// closes it.
    pub fn finalize(&mut self) -> (a: StreamAction)
        requires
            old(self)@.stage == Stage::Idle,
            model_wf(old(self)@),
        ensures
            (final(self)@, a@) == next_step(old(self)@, StreamEvent::Finalize),
            model_wf(final(self)@),
    {
        if !quiet(&self.audio_buffer, QUIET_PER_MILLE) {
            self.stage = Stage::AwaitingFinal;
            return StreamAction::Transcribe { start: 0, end: self.audio_buffer.len() };
        }
        let text = self.last_transcribed_text.clone();
        self.close(text);
        self.limit()
    }

    /// Answers `reset`: drops the sentence and confirms.
    pub fn reset(&mut self) -> (a: StreamAction)
        requires
            old(self)@.stage == Stage::Idle,
            model_wf(old(self)@),
        ensures
            (final(self)@, a@) == next_step(old(self)@, StreamEvent::Reset),
            model_wf(final(self)@),
    {
        self.clear_sentence();
        self.push_result(TranscriptionResult::Reset);
        self.limit()
    }
}


/// The results that an action hands out.
pub open spec fn emitted(a: ActionView) -> Seq<ResultView> {
    match a {
        ActionView::Emit(r) => r,
        ActionView::Transcribe(_, _) => Seq::empty(),
    }
}

/// The state after a sequence of events and the results handed out on the way.
pub open spec fn run_events(m: StreamModel, events: Seq<StreamEvent>) -> (StreamModel, Seq<ResultView>)
    decreases events.len(),
{
    if events.len() == 0 {
        (m, Seq::empty())
    } else {
        let (m1, a) = next_step(m, events[0]);
        let (m2, r) = run_events(m1, events.drop_first());
        (m2, emitted(a) + r)
    }
}

/// The whole transcript of the last partial result, when nothing closed the sentence since.
pub open spec fn last_partial(h: Seq<ResultView>) -> Seq<char> {
    if h.len() == 0 {
        Seq::empty()
    } else {
        match h.last() {
            ResultView::Partial(_, full) => full,
            _ => Seq::empty(),
        }
    }
}

/// What every result keeps: a partial result has new words and a non-empty transcript, a
/// final result is not empty.
pub open spec fn result_ok(r: ResultView) -> bool {
    match r {
        ResultView::Partial(fresh, full) => fresh.len() > 0 && full.len() > 0,
        ResultView::Final(t) => t.len() > 0,
        ResultView::Reset => true,
    }
}

/// Every result of `h` keeps [`result_ok`].
pub open spec fn well_told(h: Seq<ResultView>) -> bool {
    forall|i: int| 0 <= i < h.len() ==> #[trigger] result_ok(h[i])
}

/// The machine remembers the transcript of the last partial result of the history `h`
/// followed by its pending results, and that history is well told.
pub open spec fn told(m: StreamModel, h: Seq<ResultView>) -> bool {
    &&& well_told(h + m.results)
    &&& m.last_text == last_partial(h + m.results)
}

proof fn lemma_push(h: Seq<ResultView>, x: ResultView)
    ensures
        well_told(h.push(x)) == (well_told(h) && result_ok(x)),
        last_partial(h.push(x)) == match x {
            ResultView::Partial(_, full) => full,
            _ => Seq::<char>::empty(),
        },
{
    let g = h.push(x);
    assert forall|i: int| 0 <= i < h.len() implies g[i] == h[i] by {}
    if well_told(g) {
        assert forall|i: int| 0 <= i < h.len() implies #[trigger] result_ok(h[i]) by {
            assert(result_ok(g[i]));
        }
        assert(result_ok(g[h.len() as int]));
    }
}

proof fn lemma_told_push(m: StreamModel, h: Seq<ResultView>, x: ResultView, last: Seq<char>)
    requires
        told(m, h),
        result_ok(x),
        last == match x {
            ResultView::Partial(_, full) => full,
            _ => Seq::<char>::empty(),
        },
    ensures
        told(StreamModel { results: m.results.push(x), last_text: last, ..m }, h),
{
    lemma_push(h + m.results, x);
    assert(h + m.results.push(x) =~= (h + m.results).push(x));
}

proof fn lemma_told_limit(m: StreamModel, h: Seq<ResultView>)
    requires
        told(m, h),
    ensures
        told(limit_step(m).0, h + emitted(limit_step(m).1)),
        limit_step(m).0.last_text == m.last_text,
{
    assert(h + m.results + Seq::<ResultView>::empty() =~= h + m.results);
}

proof fn lemma_told_close(m: StreamModel, h: Seq<ResultView>, t: Seq<char>)
    requires
        told(m, h),
        t.len() > 0 || m.last_text.len() == 0,
    ensures
        told(close_sentence(m, t), h),
{
    let c = close_sentence(m, t);
    if t.len() > 0 {
        lemma_told_push(m, h, ResultView::Final(t), Seq::empty());
        let x = StreamModel { results: m.results.push(ResultView::Final(t)), last_text: Seq::empty(), ..m };
        assert(told(x, h));
        assert(c.results == x.results);
        assert(well_told(h + c.results));
        assert(c.last_text =~= Seq::<char>::empty());
        assert(last_partial(h + x.results) == Seq::<char>::empty());
    } else {
        assert(c.results == m.results);
        assert(c.last_text =~= Seq::<char>::empty());
        assert(m.last_text =~= Seq::<char>::empty());
    }
}

proof fn lemma_told_partial(m: StreamModel, h: Seq<ResultView>, run: Option<Seq<Option<Seq<char>>>>)
    requires
        told(m, h),
    ensures
        told(apply_partial(m, run), h),
{
    let m1 = StreamModel { transcribed: m.window_end, ..m };
    match run {
        None => {},
        Some(segments) => {
            let full = trim(joined(segments));
            let k = split_index(m.transcribed, segments.len() as int, m.window_start, m.window_end);
            let fresh = trim(joined(segments.skip(k)));
            if fresh.len() > 0 {
                lemma_fresh_in_full(segments, k);
                lemma_told_push(m1, h, ResultView::Partial(fresh, full), full);
            }
        },
    }
}

proof fn lemma_told_final_step(m: StreamModel, h: Seq<ResultView>)
    requires
        told(m, h),
    ensures
        told(final_step(m).0, h + emitted(final_step(m).1)),
{
    let len = m.buffer.len() as int;
    let tail = tail_len(m.mode);
    if len >= tail && is_quiet(m.buffer.subrange(len - tail, len), QUIET_PER_MILLE as int) {
        if m.last_text.len() > 0 && m.mode == Mode::Streaming && !is_quiet(
            m.buffer,
            QUIET_PER_MILLE as int,
        ) {
            assert(h + Seq::<ResultView>::empty() =~= h);
        } else {
            lemma_told_close(m, h, m.last_text);
            lemma_told_limit(close_sentence(m, m.last_text), h);
        }
    } else {
        lemma_told_limit(m, h);
    }
}

/// Every event keeps the history well told and the remembered transcript that of the last
/// partial result: a partial result goes out only with new words and a non-empty transcript,
/// a final result is never empty, and a chunk that reports nothing leaves the remembered
/// transcript as it was.
pub proof fn lemma_step_tells_well(m: StreamModel, e: StreamEvent, h: Seq<ResultView>)
    requires
        told(m, h),
    ensures
        told(next_step(m, e).0, h + emitted(next_step(m, e).1)),
{
    assert(h + Seq::<ResultView>::empty() =~= h);
    match e {
        StreamEvent::Chunk(samples) => {
            if m.stage == Stage::Idle {
                let m0 = StreamModel { buffer: m.buffer + samples, ..m };
                let len = m0.buffer.len() as int;
                if len - m0.processed >= PARTIAL_STEP {
                    let m1 = StreamModel { processed: len, ..m0 };
                    if is_quiet(m0.buffer.subrange(gate_start(m.mode, len), len), QUIET_PER_MILLE as int) {
                        lemma_told_final_step(m1, h);
                    }
                } else {
                    lemma_told_final_step(m0, h);
                }
            }
        },
        StreamEvent::Transcript(run) => {
            if m.stage == Stage::AwaitingPartial {
                let m1 = StreamModel { stage: Stage::Idle, ..m };
                lemma_told_partial(m1, h, run);
                lemma_told_final_step(apply_partial(m1, run), h);
            } else if m.stage == Stage::AwaitingFinal {
                let t = match transcript_of(run) {
                    Some(t) => t,
                    None => m.last_text,
                };
                lemma_told_close(m, h, t);
                lemma_told_limit(close_sentence(m, t), h);
            }
        },
        StreamEvent::Finalize => {
            if m.stage == Stage::Idle && is_quiet(m.buffer, QUIET_PER_MILLE as int) {
                lemma_told_close(m, h, m.last_text);
                lemma_told_limit(close_sentence(m, m.last_text), h);
            }
        },
        StreamEvent::Reset => {
            if m.stage == Stage::Idle {
                let r = reset_model(m);
                assert(told(StreamModel { last_text: m.last_text, ..r }, h));
                lemma_push(h + m.results, ResultView::Reset);
                assert(h + m.results.push(ResultView::Reset) =~= (h + m.results).push(ResultView::Reset));
                lemma_told_limit(StreamModel { results: m.results.push(ResultView::Reset), ..r }, h);
            }
        },
    }
}

/// Any sequence of events keeps the history well told.
pub proof fn lemma_run_tells_well(m: StreamModel, events: Seq<StreamEvent>, h: Seq<ResultView>)
    requires
        told(m, h),
    ensures
        told(run_events(m, events).0, h + run_events(m, events).1),
    decreases events.len(),
{
    if events.len() > 0 {
        let (m1, a) = next_step(m, events[0]);
        lemma_step_tells_well(m, events[0], h);
        lemma_run_tells_well(m1, events.drop_first(), h + emitted(a));
        let (m2, r) = run_events(m1, events.drop_first());
        assert(h + emitted(a) + r =~= h + (emitted(a) + r));
    } else {
        assert(h + Seq::<ResultView>::empty() =~= h);
    }
}

/// From a new machine, whatever the events: every partial result has new words and a
/// non-empty transcript, no final result is empty, and the machine remembers the whole
/// transcript of the last partial result since the last final result or reset.
pub proof fn lemma_results_well_formed(mode: Mode, events: Seq<StreamEvent>)
    ensures
        ({
            let (m, r) = run_events(initial_model(mode), events);
            &&& forall|i: int| 0 <= i < r.len() ==> #[trigger] result_ok(r[i])
            &&& m.last_text == last_partial(r + m.results)
        }),
{
    let m = initial_model(mode);
    let e = Seq::<ResultView>::empty();
    assert(e + m.results =~= e);
    lemma_run_tells_well(m, events, e);
    let (m2, r) = run_events(m, events);
    assert(e + r =~= r);
    assert forall|i: int| 0 <= i < r.len() implies #[trigger] result_ok(r[i]) by {
        assert((r + m2.results)[i] == r[i]);
    }
}


/// Whether the machine takes `e` in its stage: a transcript while waiting for one,
/// anything else at rest.
pub open spec fn accepts(m: StreamModel, e: StreamEvent) -> bool {
    (e is Transcript) == (m.stage != Stage::Idle)
}

/// The buffer of a machine at rest holds at most 60 s, and at most 90 s while it waits.
pub open spec fn bounded(m: StreamModel) -> bool {
    &&& m.buffer.len() <= BUFFER_LIMIT + DRAIN_LEN
    &&& m.stage == Stage::Idle ==> m.buffer.len() <= BUFFER_LIMIT
}

/// Results wait only for a final transcript: a machine at rest, or waiting for a partial
/// transcript, holds none.
pub open spec fn settled(m: StreamModel) -> bool {
    m.stage != Stage::AwaitingFinal ==> m.results.len() == 0
}

/// Binary messages of at most 30 s of audio (960000 bytes).
pub open spec fn small_chunks(events: Seq<StreamEvent>) -> bool {
    forall|i: int|
        0 <= i < events.len() ==> match #[trigger] events[i] {
            StreamEvent::Chunk(samples) => samples.len() <= DRAIN_LEN,
            _ => true,
        }
}

proof fn lemma_final_step_shape(m: StreamModel)
    requires
        model_wf(m),
        m.stage == Stage::Idle,
        m.buffer.len() <= BUFFER_LIMIT + DRAIN_LEN,
    ensures
        model_wf(final_step(m).0),
        bounded(final_step(m).0),
        settled(final_step(m).0),
        final_step(m).1 is Transcribe ==> final_step(m).0.stage == Stage::AwaitingFinal,
        final_step(m).1 is Emit ==> final_step(m).0.stage == Stage::Idle,
{
}

/// Every event keeps a machine well formed and its buffer bounded, when chunks hold at most
/// 30 s; a message asks for at most two transcriptions, the second one of the whole sentence.
pub proof fn lemma_step_keeps_bounds(m: StreamModel, e: StreamEvent)
    requires
        model_wf(m),
        bounded(m),
        settled(m),
        e matches StreamEvent::Chunk(samples) ==> samples.len() <= DRAIN_LEN,
    ensures
        model_wf(next_step(m, e).0),
        bounded(next_step(m, e).0),
        settled(next_step(m, e).0),
        accepts(m, e) ==> (next_step(m, e).1 is Transcribe <==> next_step(m, e).0.stage
            != Stage::Idle),
        m.stage == Stage::AwaitingFinal && e is Transcript ==> next_step(m, e).1 is Emit,
        m.stage == Stage::AwaitingPartial && e is Transcript && next_step(m, e).1 is Transcribe
            ==> next_step(m, e).0.stage == Stage::AwaitingFinal,
{
    match e {
        StreamEvent::Chunk(samples) => {
            if m.stage == Stage::Idle {
                let m0 = StreamModel { buffer: m.buffer + samples, ..m };
                let len = m0.buffer.len() as int;
                if len - m0.processed >= PARTIAL_STEP {
                    lemma_final_step_shape(StreamModel { processed: len, ..m0 });
                } else {
                    lemma_final_step_shape(m0);
                }
            }
        },
        StreamEvent::Transcript(run) => {
            if m.stage == Stage::AwaitingPartial {
                let m1 = apply_partial(StreamModel { stage: Stage::Idle, ..m }, run);
                lemma_final_step_shape(m1);
            }
        },
        _ => {},
    }
}

/// Any sequence of events whose binary messages hold at most 30 s each keeps a machine well
/// formed and settled, and its buffer at most 60 s whenever it is at rest.
pub proof fn lemma_run_keeps_bounds(m: StreamModel, events: Seq<StreamEvent>)
    requires
        model_wf(m),
        bounded(m),
        settled(m),
        small_chunks(events),
    ensures
        model_wf(run_events(m, events).0),
        bounded(run_events(m, events).0),
        settled(run_events(m, events).0),
    decreases events.len(),
{
    if events.len() > 0 {
        let _ = events[0];
        lemma_step_keeps_bounds(m, events[0]);
        let rest = events.drop_first();
        assert forall|i: int| 0 <= i < rest.len() implies match #[trigger] rest[i] {
            StreamEvent::Chunk(samples) => samples.len() <= DRAIN_LEN,
            _ => true,
        } by {
            let _ = events[i + 1];
        }
        lemma_run_keeps_bounds(next_step(m, events[0]).0, rest);
    }
}

/// What a chunk asks to transcribe: on the streaming socket at most the last 30 s, on the
/// plain one the whole sentence, in both cases audio that ends with the chunk and is not
/// quiet where it is checked, and only once 500 ms arrived since the last check; a final
/// transcription covers the whole sentence.
pub proof fn lemma_chunk_requests(m: StreamModel, samples: Seq<i16>)
    requires
        model_wf(m),
        m.stage == Stage::Idle,
    ensures
        ({
            let heard = m.buffer + samples;
            let (m1, a) = chunk_step(m, samples);
            a matches ActionView::Transcribe(s, e) ==> {
                &&& 0 <= s < e == heard.len()
                &&& m1.stage == Stage::AwaitingPartial ==> {
                    &&& e - m.processed >= PARTIAL_STEP
                    &&& m.mode == Mode::Streaming ==> e - s <= WINDOW_LEN && !is_quiet(
                        heard.subrange(s, e),
                        QUIET_PER_MILLE as int,
                    )
                    &&& m.mode == Mode::Plain ==> s == 0 && !is_quiet(
                        heard.subrange(gate_start(Mode::Plain, e), e),
                        QUIET_PER_MILLE as int,
                    )
                }
                &&& m1.stage == Stage::AwaitingFinal ==> s == 0 && !is_quiet(
                    heard,
                    QUIET_PER_MILLE as int,
                )
            }
        }),
{
    let m0 = StreamModel { buffer: m.buffer + samples, ..m };
    let len = m0.buffer.len() as int;
    if len - m0.processed >= PARTIAL_STEP {
        lemma_final_step_shape_any(StreamModel { processed: len, ..m0 });
    } else {
        lemma_final_step_shape_any(m0);
    }
}

proof fn lemma_final_step_shape_any(m: StreamModel)
    ensures
        final_step(m).1 matches ActionView::Transcribe(s, e) ==> s == 0 && e == m.buffer.len()
            && final_step(m).0.stage == Stage::AwaitingFinal && !is_quiet(
            m.buffer,
            QUIET_PER_MILLE as int,
        ),
        final_step(m).1 is Emit ==> final_step(m).0.stage == Stage::Idle,
{
}

/// A transcript is never empty, neither starts nor ends with white space, and is a stretch
/// of the text of the segments.
pub proof fn lemma_transcript_bare(segments: Seq<Option<Seq<char>>>)
    ensures
        transcript_of(Some(segments)) matches Some(t) ==> {
            &&& t.len() > 0
            &&& !is_white_space(t[0])
            &&& !is_white_space(t.last())
            &&& exists|i: int|
                0 <= i <= joined(segments).len() - t.len() && t == #[trigger] joined(
                    segments,
                ).subrange(i, i + t.len())
        },
{
    lemma_trim_bare(joined(segments));
}


/// Handles the rest of a message after the action `a`: each transcription asked for is
/// answered by the next of `runs`. The state at the end and the results handed out.
pub open spec fn finish_message(
    m: StreamModel,
    a: ActionView,
    runs: Seq<Option<Seq<Option<Seq<char>>>>>,
) -> (StreamModel, Seq<ResultView>)
    decreases runs.len(),
{
    match a {
        ActionView::Emit(r) => (m, r),
        ActionView::Transcribe(_, _) => if runs.len() == 0 {
            (m, Seq::empty())
        } else {
            let (m1, a1) = resume_step(m, runs[0]);
            finish_message(m1, a1, runs.drop_first())
        },
    }
}

/// Whether the audio ends with the quiet tail that closes a sentence.
pub open spec fn quiet_tail(mode: Mode, heard: Seq<i16>) -> bool {
    heard.len() >= tail_len(mode) && is_quiet(
        heard.subrange(heard.len() - tail_len(mode), heard.len() as int),
        QUIET_PER_MILLE as int,
    )
}

proof fn lemma_final_step_renews(m: StreamModel, runs: Seq<Option<Seq<Option<Seq<char>>>>>)
    requires
        m.stage == Stage::Idle,
        quiet_tail(m.mode, m.buffer),
        runs.len() >= 1,
    ensures
        finish_message(final_step(m).0, final_step(m).1, runs).0 == initial_model(m.mode),
{
    let (m1, a) = final_step(m);
    if a is Transcribe {
        let t = match transcript_of(runs[0]) {
            Some(t) => t,
            None => m1.last_text,
        };
        let c = close_sentence(m1, t);
        assert(c.buffer.len() == 0);
        let (m2, a2) = resume_step(m1, runs[0]);
        assert(m2 =~= initial_model(m.mode));
        assert(finish_message(m2, a2, runs.drop_first()).0 == m2);
    } else {
        assert(m1 =~= initial_model(m.mode));
    }
}

/// A chunk that ends with the quiet tail closes the sentence, with or without a final
/// result: once its transcriptions are answered, the machine is a new one of its kind and
/// answers every later event as a new one would.
pub proof fn lemma_quiet_tail_renews(
    m: StreamModel,
    samples: Seq<i16>,
    runs: Seq<Option<Seq<Option<Seq<char>>>>>,
)
    requires
        m.stage == Stage::Idle,
        quiet_tail(m.mode, m.buffer + samples),
        runs.len() >= 2,
    ensures
        ({
            let (m1, a) = chunk_step(m, samples);
            let renewed = finish_message(m1, a, runs).0;
            &&& renewed == initial_model(m.mode)
            &&& forall|events: Seq<StreamEvent>|
                #[trigger] run_events(renewed, events) == run_events(initial_model(m.mode), events)
        }),
{
    let m0 = StreamModel { buffer: m.buffer + samples, ..m };
    let len = m0.buffer.len() as int;
    if len - m0.processed >= PARTIAL_STEP {
        let m1 = StreamModel { processed: len, ..m0 };
        let (s, e) = partial_window(m.mode, len);
        if !is_quiet(m0.buffer.subrange(gate_start(m.mode, len), len), QUIET_PER_MILLE as int) {
            let w = StreamModel { stage: Stage::AwaitingPartial, window_start: s, window_end: e, ..m1 };
            let p = apply_partial(StreamModel { stage: Stage::Idle, ..w }, runs[0]);
            lemma_final_step_renews(p, runs.drop_first());
            assert(finish_message(w, ActionView::Transcribe(s, e), runs) == finish_message(
                final_step(p).0,
                final_step(p).1,
                runs.drop_first(),
            ));
        } else {
            lemma_final_step_renews(m1, runs);
        }
    } else {
        lemma_final_step_renews(m0, runs);
    }
}

/// `finalize` closes the sentence: once its transcription is answered, the machine is a new
/// one of its kind.
pub proof fn lemma_finalize_renews(m: StreamModel, runs: Seq<Option<Seq<Option<Seq<char>>>>>)
    requires
        m.stage == Stage::Idle,
        runs.len() >= 1,
    ensures
        finish_message(finalize_step(m).0, finalize_step(m).1, runs).0 == initial_model(m.mode),
{
    let (m1, a) = finalize_step(m);
    if a is Transcribe {
        let (m2, a2) = resume_step(m1, runs[0]);
        assert(m2 =~= initial_model(m.mode));
        assert(finish_message(m2, a2, runs.drop_first()).0 == m2);
    } else {
        assert(m1 =~= initial_model(m.mode));
    }
}

/// `finalize` at rest asks, unless the sentence is quiet, for the transcription of the whole
/// sentence, from its first sample to its last, and keeps the audio while it waits; the
/// transcript that comes back, or the last one when none does, goes out as the final result.
/// A quiet sentence closes at once, with the last transcript as its final result.
pub proof fn lemma_finalize_whole_sentence(m: StreamModel, run: Option<Seq<Option<Seq<char>>>>)
    requires
        m.stage == Stage::Idle,
    ensures
        ({
            let (m1, a) = next_step(m, StreamEvent::Finalize);
            let (m2, a2) = next_step(m1, StreamEvent::Transcript(run));
            let t = match transcript_of(run) {
                Some(t) => t,
                None => m.last_text,
            };
            &&& !is_quiet(m.buffer, QUIET_PER_MILLE as int) ==> {
                &&& a == ActionView::Transcribe(0, m.buffer.len() as int)
                &&& m1.buffer == m.buffer
                &&& m1.stage == Stage::AwaitingFinal
                &&& a2 == ActionView::Emit(
                    if t.len() > 0 {
                        m.results.push(ResultView::Final(t))
                    } else {
                        m.results
                    },
                )
            }
            &&& is_quiet(m.buffer, QUIET_PER_MILLE as int) ==> a == ActionView::Emit(
                if m.last_text.len() > 0 {
                    m.results.push(ResultView::Final(m.last_text))
                } else {
                    m.results
                },
            )
        }),
{
}

/// Every partial check marks the whole buffer as checked, whether the audio that gates it is
/// quiet or not: after a chunk that brings the buffer 500 ms past the last check, the next
/// check waits for 500 ms more of the buffer as it is then, in every outcome.
pub proof fn lemma_check_marks_processed(m: StreamModel, samples: Seq<i16>)
    requires
        model_wf(m),
        m.stage == Stage::Idle,
    ensures
        (m.buffer + samples).len() - m.processed >= PARTIAL_STEP ==> chunk_step(m, samples).0.processed
            == chunk_step(m, samples).0.buffer.len(),
{
}

/// `reset` leaves a new machine of the same kind behind.
pub proof fn lemma_reset_renews(m: StreamModel)
    ensures
        reset_step(m).0 == initial_model(m.mode),
{
    assert(reset_step(m).0 =~= initial_model(m.mode));
}

/// From a new machine, whatever the events, as long as each binary message holds at most
/// 30 s: after every message the buffer holds at most 60 s.
pub proof fn lemma_new_machine_bounded(mode: Mode, events: Seq<StreamEvent>)
    requires
        small_chunks(events),
    ensures
        ({
            let m = run_events(initial_model(mode), events).0;
            &&& model_wf(m)
            &&& m.stage == Stage::Idle ==> m.buffer.len() <= BUFFER_LIMIT
        }),
{
    lemma_run_keeps_bounds(initial_model(mode), events);
}

} // verus!
