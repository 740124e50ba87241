//! The `/tts` endpoint: when a synthesis request is refused, and the WAV file it replies with.
use vstd::prelude::*;

use crate::pcm::{encode_pcm16, encode_spec};

verus! {

/// Why a synthesis request gets no audio.
#[derive(Debug, PartialEq, Eq, Structural, Clone, Copy)]
pub enum TtsRejection {
    /// The request has no text.
    TextRequired,
    /// Synthesis produced no audio.
    GenerationFailed,
}

impl TtsRejection {
    /// The HTTP status of the refusal: 400 for a request without text, 500 when synthesis
    /// produced nothing.
    pub fn status_code(&self) -> (code: u16)
        ensures
            code == match self {
                TtsRejection::TextRequired => 400u16,
                TtsRejection::GenerationFailed => 500u16,
            },
    {
        match self {
            TtsRejection::TextRequired => 400,
            TtsRejection::GenerationFailed => 500,
        }
    }

    /// The body of the refusal.
    pub fn message(&self) -> (m: &'static str)
        ensures
            m@ == match self {
                TtsRejection::TextRequired => "Text is required"@,
                TtsRejection::GenerationFailed => "Failed to generate audio"@,
            },
    {
        match self {
            TtsRejection::TextRequired => "Text is required",
            TtsRejection::GenerationFailed => "Failed to generate audio",
        }
    }
}

/// A synthesis request: the text and, optionally, the voice.
pub struct TtsQuery {
    pub text: String,
    pub voice: Option<String>,
}

/// A request is refused before synthesis exactly when its text is empty.
pub fn check_text(text: &str) -> (r: Result<(), TtsRejection>)
    ensures
        r == if text@.len() == 0 {
            Err::<(), TtsRejection>(TtsRejection::TextRequired)
        } else {
            Ok(())
        },
{
    if text.is_empty() {
        Err(TtsRejection::TextRequired)
    } else {
        Ok(())
    }
}

/// Synthesized audio is refused exactly when it is empty.
pub fn check_audio(audio: &[i16]) -> (r: Result<(), TtsRejection>)
    ensures
        r == if audio@.len() == 0 {
            Err::<(), TtsRejection>(TtsRejection::GenerationFailed)
        } else {
            Ok(())
        },
{
    if audio.len() == 0 {
        Err(TtsRejection::GenerationFailed)
    } else {
        Ok(())
    }
}

impl TtsQuery {
    /// Checks the request before synthesis: refused exactly when the text is empty.
    pub fn check(&self) -> (r: Result<(), TtsRejection>)
        ensures
            r == if self.text@.len() == 0 {
                Err::<(), TtsRejection>(TtsRejection::TextRequired)
            } else {
                Ok(())
            },
    {
        check_text(self.text.as_str())
    }
}


/// `x` as four little-endian bytes.
pub open spec fn le32(x: int) -> Seq<u8> {
    seq![(x % 256) as u8, (x / 256 % 256) as u8, (x / 65536 % 256) as u8, (x / 16777216 % 256) as u8]
}

/// `x` as two little-endian bytes.
pub open spec fn le16(x: int) -> Seq<u8> {
    seq![(x % 256) as u8, (x / 256 % 256) as u8]
}

/// A WAV file of mono 16-bit PCM at `rate` samples per second holding `samples`: the RIFF
/// header, the `fmt ` chunk and the `data` chunk.
pub open spec fn wav_spec(samples: Seq<i16>, rate: int) -> Seq<u8> {
    let data = 2 * samples.len() as int;
    seq![82u8, 73, 70, 70] + le32(36 + data) + seq![87u8, 65, 86, 69] + seq![102u8, 109, 116, 32]
        + le32(16) + le16(1) + le16(1) + le32(rate) + le32(2 * rate) + le16(2) + le16(16) + seq![
        100u8,
        97,
        116,
        97,
    ] + le32(data) + encode_spec(samples)
}

fn push_le32(v: &mut Vec<u8>, x: u32)
    ensures
        final(v)@ == old(v)@ + le32(x as int),
{
    v.push((x % 256) as u8);
    v.push((x / 256 % 256) as u8);
    v.push((x / 65536 % 256) as u8);
    v.push((x / 16777216 % 256) as u8);
    assert(final(v)@ =~= old(v)@ + le32(x as int)) by {
        assert(v@ =~= old(v)@ + le32(x as int));
    }
}

fn push_le16(v: &mut Vec<u8>, x: u16)
    ensures
        final(v)@ == old(v)@ + le16(x as int),
{
    v.push((x % 256) as u8);
    v.push((x / 256 % 256) as u8);
    assert(v@ =~= old(v)@ + le16(x as int));
}

fn push_bytes(v: &mut Vec<u8>, a: u8, b: u8, c: u8, d: u8)
    ensures
        final(v)@ == old(v)@ + seq![a, b, c, d],
{
    v.push(a);
    v.push(b);
    v.push(c);
    v.push(d);
    assert(v@ =~= old(v)@ + seq![a, b, c, d]);
}

/// The WAV file for synthesized samples at `rate` samples per second.
pub fn wav_body(samples: &[i16], rate: u32) -> (wav: Vec<u8>)
    requires
        36 + 2 * samples@.len() <= u32::MAX,
        2 * rate <= u32::MAX,
    ensures
        wav@ == wav_spec(samples@, rate as int),
{
    let data = (2 * samples.len()) as u32;
    let mut v: Vec<u8> = Vec::new();
    push_bytes(&mut v, 82, 73, 70, 70);
    push_le32(&mut v, 36 + data);
    push_bytes(&mut v, 87, 65, 86, 69);
    push_bytes(&mut v, 102, 109, 116, 32);
    push_le32(&mut v, 16);
    push_le16(&mut v, 1);
    push_le16(&mut v, 1);
    push_le32(&mut v, rate);
    push_le32(&mut v, 2 * rate);
    push_le16(&mut v, 2);
    push_le16(&mut v, 16);
    push_bytes(&mut v, 100, 97, 116, 97);
    push_le32(&mut v, data);
    let mut pcm = encode_pcm16(samples);
    v.append(&mut pcm);
    assert(v@ =~= wav_spec(samples@, rate as int));
    v
}

/// Whether [`wav_body`] takes this many samples at this rate.
pub fn wav_fits(sample_count: usize, rate: u32) -> (r: bool)
    ensures
        r == (36 + 2 * sample_count <= u32::MAX && 2 * rate <= u32::MAX),
{
    sample_count <= (0xFFFF_FFFF - 36) / 2 && rate <= 0x7FFF_FFFF
}

} // verus!
