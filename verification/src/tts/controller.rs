//! The synthesis endpoint: its defaults and the PCM body of its reply.
use vstd::prelude::*;

use crate::pcm::{encode_pcm16, encode_spec};

verus! {

/// Sample rate of synthesized audio, announced with the reply.
pub const SYNTH_SAMPLE_RATE: u32 = 24000;

/// The speaker used when a request names none.
pub fn default_sid() -> (sid: i32)
    ensures
        sid == 0,
{
    0
}

/// The synthesis endpoint.
pub struct TtsController;

impl TtsController {
    /// The reply body for synthesized samples: 16-bit little-endian PCM.
    pub fn pcm_body(samples: &[i16]) -> (body: Vec<u8>)
        ensures
            body@ == encode_spec(samples@),
    {
        encode_pcm16(samples)
    }
}

} // verus!
