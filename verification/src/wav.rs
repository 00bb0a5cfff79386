//! PCM encoding for the WAV sink collaborator.
//!
//! The sink itself does file output and lives outside the verified
//! library; what it needs computed — the asymmetric 16-bit sample scaling
//! and the canonical 44-byte RIFF/WAVE PCM header — is here, with exact
//! contracts.

use vstd::prelude::*;
use crate::fixed::{FP_ONE, div_trunc, div_i128, lemma_div_trunc_bounds};

verus! {

/// Clamp an unbounded integer onto the `i16` range.
pub open spec fn sat16(x: int) -> int {
    if x > i16::MAX {
        i16::MAX as int
    } else if x < i16::MIN {
        i16::MIN as int
    } else {
        x
    }
}

/// The signed 16-bit PCM value of a sample: scaled by half the positive
/// or negative 16-bit full scale, truncated, and saturated.
pub open spec fn pcm16_spec(s: int) -> int {
    if s >= 0 {
        sat16(div_trunc(s * 32767, 2 * (FP_ONE as int)))
    } else {
        sat16(div_trunc(s * 32768, 2 * (FP_ONE as int)))
    }
}

/// Encode one sample as signed 16-bit PCM.
pub fn pcm16_of_sample(s: i64) -> (r: i16)
    ensures
        r as int == pcm16_spec(s as int),
{
    let scale: i128 = if s >= 0 {
        32767
    } else {
        32768
    };
    proof {
        crate::fixed::lemma_mul_abs_bound(s as int, scale as int, 0x8000_0000_0000_0000, 32768);
        lemma_div_trunc_bounds(s as int * scale as int, 2 * (FP_ONE as int));
    }
    let wide: i128 = (s as i128) * scale;
    let q: i128 = div_i128(wide, 2 * (FP_ONE as i128));
    if q > i16::MAX as i128 {
        i16::MAX
    } else if q < i16::MIN as i128 {
        i16::MIN
    } else {
        q as i16
    }
}

/// The little-endian bytes of a 16-bit value.
pub open spec fn le16_spec(v: int) -> Seq<u8> {
    seq![(v % 256) as u8, ((v / 256) % 256) as u8]
}

/// The little-endian bytes of a 32-bit value.
pub open spec fn le32_spec(v: int) -> Seq<u8> {
    seq![
        (v % 256) as u8,
        ((v / 256) % 256) as u8,
        ((v / 65536) % 256) as u8,
        ((v / 16777216) % 256) as u8,
    ]
}

/// The canonical 44-byte RIFF/WAVE header for 16-bit stereo PCM holding
/// `frames` stereo frames at the given sample rate.
pub open spec fn wav_header_spec(frames: int, sample_rate: int) -> Seq<u8> {
    seq![0x52u8, 0x49u8, 0x46u8, 0x46u8].add(le32_spec(36 + frames * 4)).add(
        seq![0x57u8, 0x41u8, 0x56u8, 0x45u8, 0x66u8, 0x6du8, 0x74u8, 0x20u8],
    ).add(le32_spec(16)).add(le16_spec(1)).add(le16_spec(2)).add(le32_spec(sample_rate)).add(
        le32_spec(sample_rate * 4),
    ).add(le16_spec(4)).add(le16_spec(16)).add(seq![0x64u8, 0x61u8, 0x74u8, 0x61u8]).add(
        le32_spec(frames * 4),
    )
}

/// Append the little-endian bytes of a 16-bit value.
fn push_le16(out: &mut Vec<u8>, v: u16)
    ensures
        final(out)@ == old(out)@.add(le16_spec(v as int)),
{
    out.push((v % 256) as u8);
    out.push(((v / 256) % 256) as u8);
    proof {
        assert(final(out)@ =~= old(out)@.add(le16_spec(v as int)));
    }
}

/// Append the little-endian bytes of a 32-bit value.
fn push_le32(out: &mut Vec<u8>, v: u32)
    ensures
        final(out)@ == old(out)@.add(le32_spec(v as int)),
{
    out.push((v % 256) as u8);
    out.push(((v / 256) % 256) as u8);
    out.push(((v / 65536) % 256) as u8);
    out.push(((v / 16777216) % 256) as u8);
    proof {
        assert(final(out)@ =~= old(out)@.add(le32_spec(v as int)));
    }
}

/// Build the canonical 44-byte RIFF/WAVE PCM header.
pub fn wav_header(frames: u32, sample_rate: u32) -> (r: Vec<u8>)
    requires
        frames <= 0x3fff_fff0,
        sample_rate <= 0x3fff_fff0,
    ensures
        r@ == wav_header_spec(frames as int, sample_rate as int),
        r@.len() == 44,
{
    let mut out: Vec<u8> = Vec::new();
    out.push(0x52);
    out.push(0x49);
    out.push(0x46);
    out.push(0x46);
    push_le32(&mut out, 36 + frames * 4);
    out.push(0x57);
    out.push(0x41);
    out.push(0x56);
    out.push(0x45);
    out.push(0x66);
    out.push(0x6d);
    out.push(0x74);
    out.push(0x20);
    push_le32(&mut out, 16);
    push_le16(&mut out, 1);
    push_le16(&mut out, 2);
    push_le32(&mut out, sample_rate);
    push_le32(&mut out, sample_rate * 4);
    push_le16(&mut out, 4);
    push_le16(&mut out, 16);
    out.push(0x64);
    out.push(0x61);
    out.push(0x74);
    out.push(0x61);
    push_le32(&mut out, frames * 4);
    proof {
        assert(out@ =~= wav_header_spec(frames as int, sample_rate as int));
    }
    out
}

} // verus!
