//! 16-bit little-endian PCM: the wire format of audio in both directions,
//! and the energy measure by which quiet audio is recognised.
use vstd::prelude::*;

verus! {

/// Full scale of a 16-bit sample: a sample `x` stands for the level `x / FULL_SCALE`.
pub const FULL_SCALE: u64 = 32768;

/// The sample that the byte pair `(lo, hi)` encodes (`i16::from_le_bytes`).
pub open spec fn sample_from_le(lo: u8, hi: u8) -> int {
    let u = lo as int + 256 * hi as int;
    if u >= 32768 {
        u - 65536
    } else {
        u
    }
}

/// The samples that `bytes` encodes: one per complete pair, a trailing odd byte ignored.
pub open spec fn decode_spec(bytes: Seq<u8>) -> Seq<i16> {
    Seq::new(bytes.len() / 2, |i: int| sample_from_le(bytes[2 * i], bytes[2 * i + 1]) as i16)
}

/// The two's complement bit pattern of `x` as an unsigned 16-bit value.
pub open spec fn unsigned_of(x: i16) -> int {
    if x < 0 {
        x + 65536
    } else {
        x as int
    }
}

/// The little-endian bytes of `samples` (`i16::to_le_bytes`, one sample after another).
pub open spec fn encode_spec(samples: Seq<i16>) -> Seq<u8> {
    Seq::new(
        2 * samples.len(),
        |j: int|
            if j % 2 == 0 {
                (unsigned_of(samples[j / 2]) % 256) as u8
            } else {
                (unsigned_of(samples[j / 2]) / 256) as u8
            },
    )
}

fn sample_of(lo: u8, hi: u8) -> (x: i16)
    ensures
        x == sample_from_le(lo, hi),
{
    let u: u32 = lo as u32 + 256 * hi as u32;
    if u >= 32768 {
        (u as i32 - 65536) as i16
    } else {
        u as i16
    }
}

/// Appends to `out` the samples that `bytes` encodes.
pub fn decode_into(bytes: &[u8], out: &mut Vec<i16>)
    ensures
        final(out)@ == old(out)@ + decode_spec(bytes@),
{
    let n = bytes.len() / 2;
    let ghost start = out@;
    let mut i: usize = 0;
    while i < n
        invariant
            n == bytes@.len() / 2,
            bytes@.len() == bytes.len(),
            i <= n,
            out@ == start + decode_spec(bytes@).take(i as int),
        decreases n - i,
    {
        assert(2 * i + 1 < bytes.len());
        let x = sample_of(bytes[2 * i], bytes[2 * i + 1]);
        out.push(x);
        assert(decode_spec(bytes@).take(i + 1) =~= decode_spec(bytes@).take(i as int).push(x));
        i = i + 1;
    }
    assert(decode_spec(bytes@).take(n as int) =~= decode_spec(bytes@));
}

/// The samples that `bytes` encodes.
pub fn decode_pcm16(bytes: &[u8]) -> (samples: Vec<i16>)
    ensures
        samples@ == decode_spec(bytes@),
{
    let mut samples: Vec<i16> = Vec::new();
    decode_into(bytes, &mut samples);
    assert(samples@ =~= decode_spec(bytes@));
    samples
}

/// The little-endian bytes of `samples`.
pub fn encode_pcm16(samples: &[i16]) -> (bytes: Vec<u8>)
    ensures
        bytes@ == encode_spec(samples@),
{
    let mut bytes: Vec<u8> = Vec::new();
    let n = samples.len();
    let mut i: usize = 0;
    while i < n
        invariant
            n == samples@.len(),
            i <= n,
            bytes@ == encode_spec(samples@).take(2 * i as int),
        decreases n - i,
    {
        let x = samples[i];
        let u: u32 = if x < 0 {
            (x as i32 + 65536) as u32
        } else {
            x as u32
        };
        let lo = (u % 256) as u8;
        let hi = (u / 256) as u8;
        bytes.push(lo);
        bytes.push(hi);
        proof {
            let e = encode_spec(samples@);
            assert((2 * i) % 2 == 0 && (2 * i) / 2 == i);
            assert((2 * i + 1) % 2 == 1 && (2 * i + 1) / 2 == i);
            assert(e[2 * i as int] == lo);
            assert(e[2 * i + 1] == hi);
            assert(e.take(2 * i + 2) =~= e.take(2 * i as int).push(lo).push(hi));
        }
        i = i + 1;
    }
    assert(encode_spec(samples@).take(2 * n as int) =~= encode_spec(samples@));
    bytes
}

/// Decoding what was encoded gives back the samples.
pub proof fn lemma_decode_encode(samples: Seq<i16>)
    ensures
        decode_spec(encode_spec(samples)) == samples,
{
    let e = encode_spec(samples);
    let d = decode_spec(e);
    assert(d.len() == samples.len());
    assert forall|i: int| 0 <= i < samples.len() implies d[i] == samples[i] by {
        assert((2 * i) % 2 == 0 && (2 * i) / 2 == i);
        assert((2 * i + 1) % 2 == 1 && (2 * i + 1) / 2 == i);
        let u = unsigned_of(samples[i]);
        assert(e[2 * i] as int == u % 256);
        assert(e[2 * i + 1] as int == u / 256);
        assert(u % 256 + 256 * (u / 256) == u);
    }
    assert(d =~= samples);
}

/// The absolute value of a sample.
pub open spec fn magnitude(x: i16) -> int {
    if x < 0 {
        -x
    } else {
        x as int
    }
}

/// The sum of the magnitudes of `s`.
pub open spec fn magnitude_sum(s: Seq<i16>) -> int
    decreases s.len(),
{
    if s.len() == 0 {
        0
    } else {
        magnitude_sum(s.drop_last()) + magnitude(s.last())
    }
}

/// Audio is quiet when its mean level, `magnitude_sum / (len * FULL_SCALE)`, lies below
/// `per_mille / 1000`; audio without samples is quiet.
pub open spec fn is_quiet(s: Seq<i16>, per_mille: int) -> bool {
    s.len() == 0 || magnitude_sum(s) * 1000 < per_mille * FULL_SCALE * s.len()
}

/// Decides whether `samples[start..end]` is quiet at the level `per_mille / 1000`.
pub fn quiet_range(samples: &[i16], start: usize, end: usize, per_mille: u16) -> (r: bool)
    requires
        start <= end <= samples@.len(),
    ensures
        r == is_quiet(samples@.subrange(start as int, end as int), per_mille as int),
{
    if start == end {
        return true;
    }
    let ghost s = samples@;
    let mut sum: u128 = 0;
    let mut i = start;
    assert(s.subrange(start as int, start as int) =~= Seq::<i16>::empty());
    while i < end
        invariant
            start <= i <= end <= s.len(),
            s == samples@,
            sum == magnitude_sum(s.subrange(start as int, i as int)),
            sum <= 32768 * (i - start),
        decreases end - i,
    {
        let x = samples[i];
        let m: u128 = if x < 0 {
            (0 - x as i32) as u128
        } else {
            x as u128
        };
        assert(s.subrange(start as int, i + 1).drop_last() =~= s.subrange(start as int, i as int));
        sum = sum + m;
        i = i + 1;
    }
    let len: u128 = (end - start) as u128;
    assert(sum * 1000 <= 32768000 * len) by (nonlinear_arith)
        requires
            sum <= 32768 * len,
    ;
    assert((per_mille as u128) * 32768 * len <= 65535 * 32768 * 0x1_0000_0000_0000_0000) by (
    nonlinear_arith)
        requires
            per_mille <= 65535,
            len <= 0x1_0000_0000_0000_0000,
    ;
    sum * 1000 < (per_mille as u128) * 32768 * len
}

/// Decides whether all of `samples` is quiet at the level `per_mille / 1000`.
pub fn quiet(samples: &[i16], per_mille: u16) -> (r: bool)
    ensures
        r == is_quiet(samples@, per_mille as int),
{
    assert(samples@.subrange(0, samples@.len() as int) =~= samples@);
    quiet_range(samples, 0, samples.len(), per_mille)
}


/// Encoding what was decoded gives back the bytes, when they come in whole pairs.
pub proof fn lemma_encode_decode(bytes: Seq<u8>)
    requires
        bytes.len() % 2 == 0,
    ensures
        encode_spec(decode_spec(bytes)) == bytes,
{
    let d = decode_spec(bytes);
    let e = encode_spec(d);
    assert(e.len() == bytes.len());
    assert forall|j: int| 0 <= j < bytes.len() implies e[j] == bytes[j] by {
        let i = j / 2;
        assert(0 <= i < d.len());
        let lo = bytes[2 * i];
        let hi = bytes[2 * i + 1];
        let x = d[i];
        assert(x as int == sample_from_le(lo, hi));
        assert(unsigned_of(x) == lo as int + 256 * hi as int);
        assert((lo as int + 256 * hi as int) % 256 == lo as int);
        assert((lo as int + 256 * hi as int) / 256 == hi as int);
        if j % 2 == 0 {
            assert(j == 2 * i);
        } else {
            assert(j == 2 * i + 1);
        }
    }
    assert(e =~= bytes);
}

} // verus!
