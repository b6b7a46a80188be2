//! Streaming session driver state.
//!
//! A streamed synthesis session moves through `Opening →
//! Synthesizing → Streaming → (Complete | Errored | Cancelled)`.
//! The hop accumulator buffers produced PCM and hands it out in
//! fixed-size hops; every emitted chunk is exactly one hop long, so
//! the total sample count reported at the end equals the sum of the
//! emitted chunk lengths.

use vstd::prelude::*;
use crate::pipeline::zeros;

verus! {

/// The states of one streaming connection.
#[derive(Debug, Clone, Copy, PartialEq, Eq, Structural)]
pub enum StreamState {
    Opening,
    Synthesizing,
    Streaming,
    Complete,
    Errored,
    Cancelled,
}

/// The events a streaming connection reacts to.
#[derive(Debug, Clone, Copy, PartialEq, Eq, Structural)]
pub enum StreamEvent {
    /// Upgrade handshake finished and the first status was sent.
    UpgradeComplete,
    /// The first audio sub-buffer arrived from the producer.
    FirstAudio,
    /// The producer finished without error.
    ProducerExhausted,
    /// The producer reported an error.
    ProducerError,
    /// The peer closed the socket.
    PeerClosed,
}

/// A state in which the connection is finished.
pub open spec fn is_terminal(s: StreamState) -> bool {
    s == StreamState::Complete || s == StreamState::Errored || s == StreamState::Cancelled
}

/// The state after handling `event` in `state`.
pub open spec fn next_state_spec(state: StreamState, event: StreamEvent) -> StreamState {
    if is_terminal(state) {
        state
    } else {
        match event {
            StreamEvent::ProducerError => StreamState::Errored,
            StreamEvent::PeerClosed => StreamState::Cancelled,
            StreamEvent::UpgradeComplete => if state == StreamState::Opening {
                StreamState::Synthesizing
            } else {
                state
            },
            StreamEvent::FirstAudio => if state == StreamState::Synthesizing {
                StreamState::Streaming
            } else {
                state
            },
            StreamEvent::ProducerExhausted => if state == StreamState::Streaming {
                StreamState::Complete
            } else {
                state
            },
        }
    }
}

/// Advance the session state machine by one event.  Terminal states
/// absorb every event.
pub fn next_state(state: StreamState, event: StreamEvent) -> (next: StreamState)
    ensures
        next == next_state_spec(state, event),
        is_terminal(state) ==> next == state,
{
    if state == StreamState::Complete || state == StreamState::Errored || state
        == StreamState::Cancelled {
        return state;
    }
    match event {
        StreamEvent::ProducerError => StreamState::Errored,
        StreamEvent::PeerClosed => StreamState::Cancelled,
        StreamEvent::UpgradeComplete => if state == StreamState::Opening {
            StreamState::Synthesizing
        } else {
            state
        },
        StreamEvent::FirstAudio => if state == StreamState::Synthesizing {
            StreamState::Streaming
        } else {
            state
        },
        StreamEvent::ProducerExhausted => if state == StreamState::Streaming {
            StreamState::Complete
        } else {
            state
        },
    }
}

/// Total length of a log of emitted chunks.
pub open spec fn total_len(log: Seq<Seq<i16>>) -> int
    decreases log.len(),
{
    if log.len() == 0 {
        0
    } else {
        total_len(log.drop_last()) + log.last().len()
    }
}

/// Buffers produced PCM and hands it out hop by hop.  `emitted_log`
/// is the ghost record of every chunk handed out, in order.
pub struct HopAccumulator {
    pub hop_size: usize,
    pub buffer: Vec<i16>,
    pub samples_received: u64,
    pub samples_emitted: u64,
    pub chunks_emitted: u64,
    pub emitted_log: Ghost<Seq<Seq<i16>>>,
}

impl HopAccumulator {
    /// Well-formedness: every emitted chunk is one hop long, and the
    /// emitted sample count is the sum of the emitted chunk lengths.
    pub open spec fn wf(self) -> bool {
        &&& self.hop_size > 0
        &&& self.samples_emitted == self.chunks_emitted * self.hop_size
        &&& self.samples_emitted == total_len(self.emitted_log@)
        &&& forall|i: int|
            0 <= i < self.emitted_log@.len() ==> (#[trigger] self.emitted_log@[i]).len()
                == self.hop_size
        &&& self.chunks_emitted == self.emitted_log@.len()
        &&& self.samples_received == self.samples_emitted + self.buffer@.len()
    }

    /// A fresh accumulator for hops of `hop_size` samples.
    pub fn new(hop_size: usize) -> (acc: HopAccumulator)
        requires
            hop_size > 0,
        ensures
            acc.wf(),
            acc.hop_size == hop_size,
            acc.buffer@ == Seq::<i16>::empty(),
            acc.samples_received == 0,
            acc.samples_emitted == 0,
            acc.chunks_emitted == 0,
            acc.emitted_log@ == Seq::<Seq<i16>>::empty(),
    {
        HopAccumulator {
            hop_size,
            buffer: Vec::new(),
            samples_received: 0,
            samples_emitted: 0,
            chunks_emitted: 0,
            emitted_log: Ghost(Seq::empty()),
        }
    }

    /// Append a produced sub-buffer to the pending samples.
    pub fn push(&mut self, samples: &Vec<i16>)
        requires
            old(self).wf(),
            old(self).samples_received + samples@.len() <= u64::MAX,
            old(self).buffer@.len() + samples@.len() <= usize::MAX,
        ensures
            final(self).wf(),
            final(self).buffer@ == old(self).buffer@ + samples@,
            final(self).samples_received == old(self).samples_received + samples@.len(),
            final(self).samples_emitted == old(self).samples_emitted,
            final(self).chunks_emitted == old(self).chunks_emitted,
            final(self).emitted_log == old(self).emitted_log,
            final(self).hop_size == old(self).hop_size,
    {
        let mut j: usize = 0;
        while j < samples.len()
            invariant
                j <= samples@.len(),
                self.buffer@ == old(self).buffer@ + samples@.take(j as int),
                old(self).buffer@.len() + samples@.len() <= usize::MAX,
                self.hop_size == old(self).hop_size,
                self.samples_received == old(self).samples_received,
                self.samples_emitted == old(self).samples_emitted,
                self.chunks_emitted == old(self).chunks_emitted,
                self.emitted_log == old(self).emitted_log,
            decreases samples@.len() - j,
        {
            self.buffer.push(samples[j]);
            proof {
                assert(self.buffer@ =~= old(self).buffer@ + samples@.take(j + 1));
            }
            j += 1;
        }
        assert(samples@.take(samples@.len() as int) =~= samples@);
        self.samples_received = self.samples_received + (samples.len() as u64);
    }

    /// Hand out the next full hop, oldest samples first, or nothing
    /// if less than one hop is pending.
    pub fn next_hop(&mut self) -> (hop: Option<Vec<i16>>)
        requires
            old(self).wf(),
        ensures
            final(self).wf(),
            final(self).hop_size == old(self).hop_size,
            final(self).samples_received == old(self).samples_received,
            old(self).buffer@.len() >= old(self).hop_size ==> (hop matches Some(h)
                && h@ == old(self).buffer@.take(old(self).hop_size as int)
                && final(self).buffer@ == old(self).buffer@.skip(old(self).hop_size as int)
                && final(self).samples_emitted == old(self).samples_emitted + old(self).hop_size
                && final(self).chunks_emitted == old(self).chunks_emitted + 1
                && final(self).emitted_log@ == old(self).emitted_log@.push(h@)),
            old(self).buffer@.len() < old(self).hop_size ==> (hop is None
                && *final(self) == *old(self)),
    {
        if self.buffer.len() < self.hop_size {
            return None;
        }
        let hop = self.hop_size;
        let mut h: Vec<i16> = Vec::new();
        let mut j: usize = 0;
        while j < hop
            invariant
                j <= hop <= self.buffer@.len(),
                h@ == self.buffer@.take(j as int),
                self == old(self),
            decreases hop - j,
        {
            h.push(self.buffer[j]);
            proof {
                assert(h@ =~= self.buffer@.take(j + 1));
            }
            j += 1;
        }
        let mut rest: Vec<i16> = Vec::new();
        let mut k: usize = hop;
        while k < self.buffer.len()
            invariant
                hop <= k <= self.buffer@.len(),
                rest@ == self.buffer@.subrange(hop as int, k as int),
                self == old(self),
                hop == self.hop_size,
            decreases self.buffer@.len() - k,
        {
            rest.push(self.buffer[k]);
            proof {
                assert(rest@ =~= self.buffer@.subrange(hop as int, k + 1));
            }
            k += 1;
        }
        proof {
            assert(rest@ =~= self.buffer@.skip(hop as int));
            assert(old(self).samples_emitted + hop <= old(self).samples_received <= u64::MAX);
        }
        proof {
            let c = old(self).chunks_emitted;
            let hs = old(self).hop_size as u64;
            assert(c <= c * hs) by (nonlinear_arith)
                requires
                    hs >= 1 && c >= 0,
            ;
        }
        self.buffer = rest;
        self.samples_emitted = self.samples_emitted + (hop as u64);
        self.chunks_emitted = self.chunks_emitted + 1;
        let ghost new_log = self.emitted_log@.push(h@);
        proof {
            self.emitted_log = Ghost(new_log);
            assert(new_log.drop_last() =~= old(self).emitted_log@);
            assert(total_len(new_log) == total_len(old(self).emitted_log@) + hop);
            let c = old(self).chunks_emitted;
            let hs = old(self).hop_size;
            assert((c + 1) * hs == c * hs + hs) by (nonlinear_arith);
        }
        Some(h)
    }

    /// Close out the stream after the producer is exhausted: when at
    /// least half a hop is pending, zero-pad it to a full hop and
    /// emit it; otherwise discard the remainder.
    pub fn finish(&mut self) -> (last: Option<Vec<i16>>)
        requires
            old(self).wf(),
            old(self).buffer@.len() < old(self).hop_size,
            old(self).samples_emitted + old(self).hop_size <= u64::MAX,
        ensures
            final(self).wf(),
            final(self).hop_size == old(self).hop_size,
            final(self).buffer@ == Seq::<i16>::empty(),
            old(self).buffer@.len() >= old(self).hop_size / 2 ==> (last matches Some(h)
                && h@ == old(self).buffer@ + zeros(old(self).hop_size - old(self).buffer@.len())
                && final(self).samples_emitted == old(self).samples_emitted + old(self).hop_size
                && final(self).chunks_emitted == old(self).chunks_emitted + 1
                && final(self).emitted_log@ == old(self).emitted_log@.push(h@)),
            old(self).buffer@.len() < old(self).hop_size / 2 ==> (last is None
                && final(self).samples_emitted == old(self).samples_emitted
                && final(self).chunks_emitted == old(self).chunks_emitted),
    {
        let pending = self.buffer.len();
        if pending >= self.hop_size / 2 {
            let hop = self.hop_size;
            let mut h: Vec<i16> = Vec::new();
            let mut j: usize = 0;
            while j < pending
                invariant
                    j <= pending,
                    pending == self.buffer@.len(),
                    h@ == self.buffer@.take(j as int),
                    self == old(self),
                decreases pending - j,
            {
                h.push(self.buffer[j]);
                proof {
                    assert(h@ =~= self.buffer@.take(j + 1));
                }
                j += 1;
            }
            proof {
                assert(self.buffer@.take(pending as int) =~= self.buffer@);
            }
            let mut k: usize = pending;
            while k < hop
                invariant
                    pending <= k <= hop,
                    h@ == self.buffer@ + zeros(k - pending),
                    self == old(self),
                    hop == self.hop_size,
                    pending == self.buffer@.len(),
                decreases hop - k,
            {
                h.push(0i16);
                proof {
                    assert(h@ =~= self.buffer@ + zeros(k + 1 - pending));
                }
                k += 1;
            }
            proof {
                let c = old(self).chunks_emitted;
                let hs = old(self).hop_size as u64;
                assert(c <= c * hs) by (nonlinear_arith)
                    requires
                        hs >= 1 && c >= 0,
                ;
            }
            self.buffer = Vec::new();
            self.samples_emitted = self.samples_emitted + (hop as u64);
            self.chunks_emitted = self.chunks_emitted + 1;
            self.samples_received = self.samples_emitted;
            let ghost new_log = self.emitted_log@.push(h@);
            proof {
                self.emitted_log = Ghost(new_log);
                assert(new_log.drop_last() =~= old(self).emitted_log@);
                assert(total_len(new_log) == total_len(old(self).emitted_log@) + hop);
                let c = old(self).chunks_emitted;
                let hs = old(self).hop_size;
                assert((c + 1) * hs == c * hs + hs) by (nonlinear_arith);
                assert(self.buffer@ =~= Seq::<i16>::empty());
            }
            Some(h)
        } else {
            self.buffer = Vec::new();
            self.samples_received = self.samples_emitted;
            proof {
                assert(self.buffer@ =~= Seq::<i16>::empty());
            }
            None
        }
    }
}

/// Stream accounting law: in every well-formed session the sum of
/// the emitted chunk lengths equals the emitted sample count, which
/// the final metadata reports as `total_samples`, and every chunk is
/// exactly one hop long.
pub proof fn lemma_stream_accounting(acc: HopAccumulator)
    requires
        acc.wf(),
    ensures
        total_len(acc.emitted_log@) == acc.samples_emitted,
        acc.samples_emitted == acc.chunks_emitted * acc.hop_size,
{
}

} // verus!
