//! WAV encoding of PCM audio.
//!
//! Produces a RIFF/WAVE container: a `fmt ` chunk describing mono
//! 16-bit little-endian PCM at the given sample rate, then a `data`
//! chunk holding the samples.  The container bytes are specified
//! exactly; the base64 step is delegated to the `base64` crate.

use vstd::prelude::*;
use base64::Engine;

verus! {

/// The two little-endian bytes of a 16-bit value.
pub open spec fn le_bytes16(x: int) -> Seq<u8>
    recommends
        0 <= x < 0x10000,
{
    seq![(x % 256) as u8, ((x / 256) % 256) as u8]
}

/// The four little-endian bytes of a 32-bit value.
pub open spec fn le_bytes32(x: int) -> Seq<u8>
    recommends
        0 <= x < 0x1_0000_0000,
{
    seq![
        (x % 256) as u8,
        ((x / 256) % 256) as u8,
        ((x / 65536) % 256) as u8,
        ((x / 16777216) % 256) as u8,
    ]
}

/// The bit pattern of a signed 16-bit sample, as an unsigned value.
pub open spec fn i16_bits(x: i16) -> int {
    if x >= 0 {
        x as int
    } else {
        x as int + 0x10000
    }
}

/// The 44-byte RIFF/WAVE header for `n` mono 16-bit samples at
/// `sample_rate`: `RIFF` size `WAVE`, a `fmt ` chunk (PCM, mono,
/// 16-bit, byte rate and block align derived), and the `data` chunk
/// header.
pub open spec fn wav_header(sample_rate: u32, n: int) -> Seq<u8> {
    seq![82u8, 73u8, 70u8, 70u8]  // "RIFF"
     + le_bytes32(36 + 2 * n) + seq![87u8, 65u8, 86u8, 69u8]  // "WAVE"
     + seq![102u8, 109u8, 116u8, 32u8]  // "fmt "
     + le_bytes32(16)  // fmt chunk size
     + le_bytes16(1)  // PCM
     + le_bytes16(1)  // mono
     + le_bytes32(sample_rate as int) + le_bytes32(2 * sample_rate as int)  // byte rate
     + le_bytes16(2)  // block align
     + le_bytes16(16)  // bits per sample
     + seq![100u8, 97u8, 116u8, 97u8]  // "data"
     + le_bytes32(2 * n)
}

/// The PCM payload: each sample as two little-endian bytes.
pub open spec fn pcm_bytes(samples: Seq<i16>) -> Seq<u8>
    decreases samples.len(),
{
    if samples.len() == 0 {
        Seq::<u8>::empty()
    } else {
        pcm_bytes(samples.drop_last()) + le_bytes16(i16_bits(samples.last()))
    }
}

/// The complete WAV container for the given samples.
pub open spec fn wav_bytes(samples: Seq<i16>, sample_rate: u32) -> Seq<u8> {
    wav_header(sample_rate, samples.len() as int) + pcm_bytes(samples)
}

/// Greatest sample count whose `data` chunk size still fits the
/// 32-bit RIFF size field.
pub const MAX_WAV_SAMPLES: usize = 2147483629;

/// Greatest sample rate whose derived byte rate still fits 32 bits.
pub const MAX_WAV_SAMPLE_RATE: u32 = 2147483647;

proof fn lemma_pcm_len(samples: Seq<i16>)
    ensures
        pcm_bytes(samples).len() == 2 * samples.len(),
    decreases samples.len(),
{
    if samples.len() > 0 {
        lemma_pcm_len(samples.drop_last());
    }
}

/// The container layout: 44 header bytes plus two bytes per sample;
/// the header starts with `RIFF`, carries the sample rate at offset
/// 24 and the data size, twice the sample count, at offset 40.
pub proof fn lemma_wav_layout(samples: Seq<i16>, sample_rate: u32)
    ensures
        wav_bytes(samples, sample_rate).len() == 44 + 2 * samples.len(),
        wav_bytes(samples, sample_rate).subrange(0, 4) == seq![82u8, 73u8, 70u8, 70u8],
        wav_bytes(samples, sample_rate).subrange(24, 28) == le_bytes32(sample_rate as int),
        wav_bytes(samples, sample_rate).subrange(40, 44) == le_bytes32(2 * samples.len() as int),
{
    lemma_pcm_len(samples);
    let b = wav_bytes(samples, sample_rate);
    assert(wav_header(sample_rate, samples.len() as int).len() == 44);
    assert(b.subrange(0, 4) =~= seq![82u8, 73u8, 70u8, 70u8]);
    assert(b.subrange(24, 28) =~= le_bytes32(sample_rate as int));
    assert(b.subrange(40, 44) =~= le_bytes32(2 * samples.len() as int));
}

fn push_le16(out: &mut Vec<u8>, x: u16)
    ensures
        final(out)@ == old(out)@ + le_bytes16(x as int),
{
    out.push((x % 256) as u8);
    out.push(((x / 256) % 256) as u8);
    assert(final(out)@ =~= old(out)@ + le_bytes16(x as int));
}

fn push_le32(out: &mut Vec<u8>, x: u32)
    ensures
        final(out)@ == old(out)@ + le_bytes32(x as int),
{
    out.push((x % 256) as u8);
    out.push(((x / 256) % 256) as u8);
    out.push(((x / 65536) % 256) as u8);
    out.push(((x / 16777216) % 256) as u8);
    assert(final(out)@ =~= old(out)@ + le_bytes32(x as int));
}

fn sample_bits(x: i16) -> (r: u16)
    ensures
        r as int == i16_bits(x),
{
    if x >= 0 {
        x as u16
    } else {
        let v: i32 = x as i32 + 0x10000;
        v as u16
    }
}

/// Encode mono 16-bit PCM as a RIFF/WAVE container.
pub fn encode_wav(samples: &Vec<i16>, sample_rate: u32) -> (out: Vec<u8>)
    requires
        samples@.len() <= MAX_WAV_SAMPLES,
        sample_rate <= MAX_WAV_SAMPLE_RATE,
    ensures
        out@ == wav_bytes(samples@, sample_rate),
        out@.len() == 44 + 2 * samples@.len(),
{
    let n = samples.len();
    let data_size: u32 = (n as u32) * 2;
    let mut out: Vec<u8> = Vec::new();
    out.push(82);  // 'R'
    out.push(73);  // 'I'
    out.push(70);  // 'F'
    out.push(70);  // 'F'
    push_le32(&mut out, 36 + data_size);
    out.push(87);  // 'W'
    out.push(65);  // 'A'
    out.push(86);  // 'V'
    out.push(69);  // 'E'
    out.push(102);  // 'f'
    out.push(109);  // 'm'
    out.push(116);  // 't'
    out.push(32);  // ' '
    push_le32(&mut out, 16);
    push_le16(&mut out, 1);
    push_le16(&mut out, 1);
    push_le32(&mut out, sample_rate);
    push_le32(&mut out, sample_rate * 2);
    push_le16(&mut out, 2);
    push_le16(&mut out, 16);
    out.push(100);  // 'd'
    out.push(97);  // 'a'
    out.push(116);  // 't'
    out.push(97);  // 'a'
    push_le32(&mut out, data_size);
    assert(2 * sample_rate as int == sample_rate as int * 2);
    assert(out@ =~= wav_header(sample_rate, samples@.len() as int));

    let mut i: usize = 0;
    proof {
        assert(pcm_bytes(samples@.take(0)) =~= Seq::<u8>::empty());
        assert(out@ =~= wav_header(sample_rate, samples@.len() as int) + pcm_bytes(
            samples@.take(0),
        ));
    }
    while i < n
        invariant
            i <= n,
            n == samples@.len(),
            out@ == wav_header(sample_rate, samples@.len() as int) + pcm_bytes(
                samples@.take(i as int),
            ),
        decreases n - i,
    {
        let bits = sample_bits(samples[i]);
        push_le16(&mut out, bits);
        proof {
            let t = samples@.take(i + 1);
            assert(t.drop_last() =~= samples@.take(i as int));
            assert(t.last() == samples@[i as int]);
            assert(pcm_bytes(t) == pcm_bytes(samples@.take(i as int)) + le_bytes16(
                i16_bits(samples@[i as int]),
            ));
            assert(out@ =~= wav_header(sample_rate, samples@.len() as int) + pcm_bytes(t));
        }
        i += 1;
    }
    proof {
        assert(samples@.take(n as int) =~= samples@);
        lemma_pcm_len(samples@);
    }
    out
}

/// What the `base64` crate's standard engine returns for a byte
/// sequence.
pub uninterp spec fn base64_of(bytes: Seq<u8>) -> Seq<char>;

/// Relies on base64's STANDARD engine (`encode`): standard alphabet
/// with padding, so the output is four characters for every started
/// group of three input bytes.
#[verifier::external_body]
fn base64_encode(bytes: &Vec<u8>) -> (encoded: String)
    ensures
        encoded@ == base64_of(bytes@),
        encoded@.len() == 4 * ((bytes@.len() + 2) / 3),
{
    base64::engine::general_purpose::STANDARD.encode(bytes.as_slice())
}

/// Encode mono 16-bit PCM as a WAV container and return it
/// base64-encoded with the standard alphabet and padding.
pub fn encode_wav_base64(samples: &Vec<i16>, sample_rate: u32) -> (encoded: String)
    requires
        samples@.len() <= MAX_WAV_SAMPLES,
        sample_rate <= MAX_WAV_SAMPLE_RATE,
    ensures
        encoded@ == base64_of(wav_bytes(samples@, sample_rate)),
        encoded@.len() == 4 * ((44 + 2 * samples@.len() + 2) / 3),
        encoded@.len() > 0,
{
    let bytes = encode_wav(samples, sample_rate);
    base64_encode(&bytes)
}

/// Audio duration in whole milliseconds: `n` samples at
/// `sample_rate` samples per second.
pub fn duration_ms(n: u64, sample_rate: u32) -> (ms: u64)
    requires
        sample_rate > 0,
        n <= 0xFFFF_FFFF_FFFFu64,
    ensures
        ms == n * 1000 / (sample_rate as int),
{
    proof {
        assert(n * 1000 <= 0xFFFF_FFFF_FFFFu64 * 1000) by (nonlinear_arith)
            requires
                n <= 0xFFFF_FFFF_FFFFu64,
        ;
    }
    n * 1000 / (sample_rate as u64)
}

} // verus!
