//! Chunked synthesis assembly.
//!
//! The synthesizer renders each text chunk to PCM; this module
//! concatenates the chunk buffers in order and inserts the silence
//! that belongs to each non-terminal chunk's boundary: a run of zero
//! samples whose length is the chunk's pause duration at the stream's
//! sample rate.

use vstd::prelude::*;
use crate::chunker::{pause_of, pause_sample_count};

verus! {

/// `n` zero samples.
pub open spec fn zeros(n: int) -> Seq<i16> {
    Seq::new(n as nat, |j: int| 0i16)
}

/// The views of a vector of PCM buffers.
pub open spec fn audio_views(a: Seq<Vec<i16>>) -> Seq<Seq<i16>> {
    a.map_values(|v: Vec<i16>| v@)
}

/// The assembled PCM from chunk `i` on: each chunk's audio, followed
/// by its pause silence when another chunk follows.  The final
/// chunk's trailing pause is suppressed.
pub open spec fn assembled_from(
    chunks: Seq<Seq<char>>,
    audio: Seq<Seq<i16>>,
    sample_rate: u32,
    i: int,
) -> Seq<i16>
    recommends
        audio.len() == chunks.len(),
        0 <= i,
    decreases chunks.len() - i,
{
    if i < 0 || i >= chunks.len() {
        Seq::<i16>::empty()
    } else if i == chunks.len() - 1 {
        audio[i]
    } else {
        audio[i] + zeros(pause_sample_count(pause_of(chunks[i]), sample_rate) as int)
            + assembled_from(chunks, audio, sample_rate, i + 1)
    }
}

/// The complete assembled PCM for a chunked utterance.
pub open spec fn assembled(chunks: Seq<Seq<char>>, audio: Seq<Seq<i16>>, sample_rate: u32) -> Seq<
    i16,
> {
    assembled_from(chunks, audio, sample_rate, 0)
}

fn extend_samples(out: &mut Vec<i16>, src: &Vec<i16>)
    requires
        old(out)@.len() + src@.len() <= usize::MAX,
    ensures
        final(out)@ == old(out)@ + src@,
{
    let mut j: usize = 0;
    while j < src.len()
        invariant
            j <= src@.len(),
            out@ == old(out)@ + src@.take(j as int),
        decreases src@.len() - j,
    {
        out.push(src[j]);
        proof {
            assert(src@.take(j + 1) =~= src@.take(j as int).push(src@[j as int]));
            assert(out@ =~= old(out)@ + src@.take(j + 1));
        }
        j += 1;
    }
    assert(src@.take(src@.len() as int) =~= src@);
}

fn extend_zeros(out: &mut Vec<i16>, count: usize)
    requires
        old(out)@.len() + count <= usize::MAX,
    ensures
        final(out)@ == old(out)@ + zeros(count as int),
{
    let mut j: usize = 0;
    while j < count
        invariant
            j <= count,
            out@ == old(out)@ + zeros(j as int),
        decreases count - j,
    {
        out.push(0i16);
        proof {
            assert(out@ =~= old(out)@ + zeros(j + 1));
        }
        j += 1;
    }
}

/// Concatenate the chunk buffers in order, inserting after each
/// non-terminal chunk the silence of its boundary's pause at
/// `sample_rate`.
pub fn assemble_with_pauses(
    chunk_texts: &Vec<String>,
    chunk_audio: &Vec<Vec<i16>>,
    sample_rate: u32,
) -> (out: Vec<i16>)
    requires
        chunk_audio@.len() == chunk_texts@.len(),
        assembled(
            crate::chunker::chunk_views(chunk_texts@),
            audio_views(chunk_audio@),
            sample_rate,
        ).len() <= usize::MAX,
    ensures
        out@ == assembled(
            crate::chunker::chunk_views(chunk_texts@),
            audio_views(chunk_audio@),
            sample_rate,
        ),
{
    let ghost cviews = crate::chunker::chunk_views(chunk_texts@);
    let ghost aviews = audio_views(chunk_audio@);
    let ghost total = assembled(cviews, aviews, sample_rate);
    let n = chunk_texts.len();
    let mut out: Vec<i16> = Vec::new();
    let mut i: usize = 0;
    while i < n
        invariant
            i <= n,
            n == cviews.len(),
            n == aviews.len(),
            cviews == crate::chunker::chunk_views(chunk_texts@),
            aviews == audio_views(chunk_audio@),
            total == assembled(cviews, aviews, sample_rate),
            total.len() <= usize::MAX,
            out@ + assembled_from(cviews, aviews, sample_rate, i as int) == total,
        decreases n - i,
    {
        let ghost rest = assembled_from(cviews, aviews, sample_rate, i as int);
        proof {
            assert(out@.len() + rest.len() == total.len());
        }
        if i == n - 1 {
            proof {
                assert(rest == aviews[i as int]);
                assert(chunk_audio@[i as int]@ == aviews[i as int]);
            }
            extend_samples(&mut out, &chunk_audio[i]);
            proof {
                assert(assembled_from(cviews, aviews, sample_rate, i + 1)
                    =~= Seq::<i16>::empty());
                assert(out@ + assembled_from(cviews, aviews, sample_rate, i + 1) =~= total);
            }
        } else {
            proof {
                assert(rest == aviews[i as int] + zeros(
                    pause_sample_count(pause_of(cviews[i as int]), sample_rate) as int,
                ) + assembled_from(cviews, aviews, sample_rate, i + 1));
                assert(chunk_audio@[i as int]@ == aviews[i as int]);
            }
            extend_samples(&mut out, &chunk_audio[i]);
            let pause_ms = crate::chunker::get_pause_duration(&chunk_texts[i]);
            proof {
                assert(chunk_texts@[i as int]@ == cviews[i as int]);
            }
            let count64 = crate::chunker::pause_samples(pause_ms, sample_rate);
            proof {
                assert(zeros(count64 as int).len() == count64);
                assert(out@.len() + count64 <= total.len());
            }
            let count = count64 as usize;
            extend_zeros(&mut out, count);
            proof {
                assert(out@ + assembled_from(cviews, aviews, sample_rate, i + 1) =~= total);
            }
        }
        i += 1;
    }
    proof {
        assert(assembled_from(cviews, aviews, sample_rate, n as int) =~= Seq::<i16>::empty());
        assert(out@ =~= total);
    }
    out
}

} // verus!
