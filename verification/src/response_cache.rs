//! Rendered-utterance response cache.
//!
//! Maps a request `(text, language, voice)` to the encoded WAV
//! (base64), sample rate and duration of a finished synthesis.
//! Entries live in most-recent-first order, bounded by a capacity
//! and a per-entry time-to-live.  A lookup compares the stored
//! request tuple itself, so a hit always carries the audio rendered
//! for exactly that request.

use vstd::prelude::*;

verus! {

/// Bound on cached responses.
pub const RESPONSE_CACHE_CAPACITY: usize = 500;

/// Response time-to-live, in milliseconds.
pub const RESPONSE_CACHE_TTL_MS: u64 = 3600000;

/// One rendered utterance with the request it answers.
#[derive(Debug)]
pub struct CachedUtterance {
    pub text: String,
    pub language: Option<String>,
    pub voice: Option<String>,
    pub audio_base64: String,
    pub sample_rate: u32,
    pub duration_ms: u64,
    pub cached_at_ms: u64,
}

/// The view of a request key.
pub type UtteranceKey = (Seq<char>, Option<Seq<char>>, Option<Seq<char>>);

/// The view of an option of a string.
pub open spec fn opt_view(o: Option<String>) -> Option<Seq<char>> {
    match o {
        Some(s) => Some(s@),
        None => None,
    }
}

/// The key an entry answers.
pub open spec fn entry_key(e: CachedUtterance) -> UtteranceKey {
    (e.text@, opt_view(e.language), opt_view(e.voice))
}

/// Some entry answers the key.
pub open spec fn has_utterance(s: Seq<CachedUtterance>, k: UtteranceKey) -> bool {
    exists|i: int| 0 <= i < s.len() && entry_key(#[trigger] s[i]) == k
}

/// The index of the entry answering the key.
pub open spec fn utterance_index(s: Seq<CachedUtterance>, k: UtteranceKey) -> int {
    choose|i: int| 0 <= i < s.len() && entry_key(#[trigger] s[i]) == k
}

/// Bounded most-recent-first response cache with a TTL; at most one
/// entry per request key.
pub struct ResponseCache {
    pub entries: Vec<CachedUtterance>,
    pub capacity: usize,
    pub ttl_ms: u64,
}

impl ResponseCache {
    /// Well-formedness: within capacity and one entry per key.
    pub open spec fn wf(&self) -> bool {
        &&& self.capacity >= 1
        &&& self.entries@.len() <= self.capacity
        &&& forall|i: int, j: int|
            0 <= i < j < self.entries@.len() ==> entry_key(#[trigger] self.entries@[i])
                != entry_key(#[trigger] self.entries@[j])
    }

    /// An entry is fresh at `now` while its age is within the TTL.
    pub open spec fn fresh_at(&self, e: CachedUtterance, now: u64) -> bool {
        now <= e.cached_at_ms + self.ttl_ms
    }

    /// What a lookup of `k` yields at `now`: the stored audio,
    /// sample rate and duration while the entry is fresh, nothing
    /// otherwise.
    pub open spec fn spec_get(&self, k: UtteranceKey, now: u64) -> Option<(Seq<char>, u32, u64)> {
        if has_utterance(self.entries@, k) && self.fresh_at(
            self.entries@[utterance_index(self.entries@, k)],
            now,
        ) {
            let e = self.entries@[utterance_index(self.entries@, k)];
            Some((e.audio_base64@, e.sample_rate, e.duration_ms))
        } else {
            None
        }
    }

    /// A fresh cache with the given capacity and TTL.
    pub fn new(capacity: usize, ttl_ms: u64) -> (cache: ResponseCache)
        requires
            capacity >= 1,
        ensures
            cache.wf(),
            cache.entries@.len() == 0,
            cache.capacity == capacity,
            cache.ttl_ms == ttl_ms,
    {
        ResponseCache { entries: Vec::new(), capacity, ttl_ms }
    }

    fn key_matches(e: &CachedUtterance, text: &String, language: &Option<String>, voice: &Option<
        String,
    >) -> (m: bool)
        ensures
            m == (entry_key(*e) == ((text@, opt_view(*language), opt_view(*voice)))),
    {
        let tm = e.text.eq(text);
        let lm = match (&e.language, language) {
            (None, None) => true,
            (Some(a), Some(b)) => a.eq(b),
            _ => false,
        };
        let vm = match (&e.voice, voice) {
            (None, None) => true,
            (Some(a), Some(b)) => a.eq(b),
            _ => false,
        };
        tm && lm && vm
    }

    /// Look up the response cached for this request: a hit only
    /// while the entry is within the TTL.
    pub fn get(&self, text: &String, language: &Option<String>, voice: &Option<String>, now: u64)
        -> (response: Option<(String, u32, u64)>)
        requires
            self.wf(),
        ensures
            response is Some <==> self.spec_get((text@, opt_view(*language), opt_view(*voice)), now)
                is Some,
            response matches Some(r) ==> self.spec_get(
                (text@, opt_view(*language), opt_view(*voice)),
                now,
            ) == Some((r.0@, r.1, r.2)),
    {
        let ghost k = (text@, opt_view(*language), opt_view(*voice));
        let n = self.entries.len();
        let mut i: usize = 0;
        while i < n
            invariant
                i <= n,
                n == self.entries@.len(),
                self.wf(),
                k == (text@, opt_view(*language), opt_view(*voice)),
                forall|j: int| 0 <= j < i ==> entry_key(#[trigger] self.entries@[j]) != k,
            decreases n - i,
        {
            let e = &self.entries[i];
            if Self::key_matches(e, text, language, voice) {
                proof {
                    assert(entry_key(self.entries@[i as int]) == k);
                    assert(utterance_index(self.entries@, k) == i as int) by {
                        let m = utterance_index(self.entries@, k);
                        if m != i as int {
                            assert(entry_key(self.entries@[m]) == k);
                        }
                    }
                }
                let fresh = now <= e.cached_at_ms || now - e.cached_at_ms <= self.ttl_ms;
                if fresh {
                    return Some((e.audio_base64.clone(), e.sample_rate, e.duration_ms));
                } else {
                    return None;
                }
            }
            i += 1;
        }
        proof {
            assert(!has_utterance(self.entries@, k));
        }
        None
    }

    /// Store the response for this request: any previous entry for
    /// the key is dropped, the new entry goes in front, and the
    /// oldest entry falls out when the cache would exceed its
    /// capacity.
    pub fn put(
        &mut self,
        text: String,
        language: Option<String>,
        voice: Option<String>,
        audio_base64: String,
        sample_rate: u32,
        duration_ms: u64,
        now: u64,
    )
        requires
            old(self).wf(),
        ensures
            final(self).wf(),
            final(self).capacity == old(self).capacity,
            final(self).ttl_ms == old(self).ttl_ms,
            final(self).entries@.len() > 0,
            entry_key(final(self).entries@[0]) == ((text@, opt_view(language), opt_view(voice))),
            final(self).entries@[0].audio_base64@ == audio_base64@,
            final(self).entries@[0].sample_rate == sample_rate,
            final(self).entries@[0].duration_ms == duration_ms,
            final(self).entries@[0].cached_at_ms == now,
            final(self).spec_get((text@, opt_view(language), opt_view(voice)), now) == Some(
                (audio_base64@, sample_rate, duration_ms),
            ),
    {
        let ghost k = (text@, opt_view(language), opt_view(voice));
        let n = self.entries.len();
        let mut i: usize = 0;
        let mut dup: bool = false;
        let mut dup_idx: usize = 0;
        while i < n
            invariant
                i <= n,
                n == self.entries@.len(),
                k == (text@, opt_view(language), opt_view(voice)),
                !dup ==> forall|j: int| 0 <= j < i ==> entry_key(#[trigger] self.entries@[j]) != k,
                dup ==> (dup_idx < n && entry_key(self.entries@[dup_idx as int]) == k),
                self == old(self),
            decreases n - i,
        {
            if Self::key_matches(&self.entries[i], &text, &language, &voice) {
                dup = true;
                dup_idx = i;
                i = n;
            } else {
                i += 1;
            }
        }
        let ghost e0 = self.entries@;
        if dup {
            self.entries.remove(dup_idx);
        }
        let ghost e1 = self.entries@;
        proof {
            if dup {
                assert(e1 == e0.remove(dup_idx as int));
            } else {
                assert(e1 == e0);
                assert(!has_utterance(e0, k));
            }
        }
        let dropped_last = self.entries.len() >= self.capacity;
        if dropped_last {
            let keep = self.entries.len() - 1;
            self.entries.truncate(keep);
            proof {
                assert(self.entries@ =~= e1.drop_last());
            }
        }
        let ghost e2 = self.entries@;
        let fresh = CachedUtterance {
            text,
            language,
            voice,
            audio_base64,
            sample_rate,
            duration_ms,
            cached_at_ms: now,
        };
        self.entries.insert(0, fresh);
        proof {
            let ef = self.entries@;
            assert(entry_key(ef[0]) == k);
            assert(forall|j: int| 1 <= j < ef.len() ==> ef[j] == e2[j - 1]);
            assert forall|j: int| 1 <= j < ef.len() implies entry_key(#[trigger] ef[j]) != k by {
                if dup {
                    let d = dup_idx as int;
                    if j - 1 < d {
                        assert(e1[j - 1] == e0[j - 1]);
                    }
                    assert(old(self).wf());
                } else {
                    assert(!has_utterance(e0, k));
                }
            }
            assert(utterance_index(ef, k) == 0) by {
                let m = utterance_index(ef, k);
                assert(entry_key(ef[0]) == k);
                if m != 0 {
                    assert(entry_key(ef[m]) == k);
                }
            }
            assert(final(self).wf()) by {
                assert forall|p: int, q: int| 0 <= p < q < ef.len() implies entry_key(
                    #[trigger] ef[p],
                ) != entry_key(#[trigger] ef[q]) by {
                    if p == 0 {
                        assert(entry_key(ef[q]) != k);
                    } else {
                        assert(ef[p] == e2[p - 1] && ef[q] == e2[q - 1]);
                        let pp = if dup && p - 1 >= dup_idx as int {
                            p
                        } else {
                            p - 1
                        };
                        let qq = if dup && q - 1 >= dup_idx as int {
                            q
                        } else {
                            q - 1
                        };
                        assert(e2[p - 1] == e0[pp] && e2[q - 1] == e0[qq]);
                    }
                }
            }
        }
    }
}

/// Cache correctness: a second identical request within the TTL
/// window is answered with the same audio, sample rate and duration
/// that the first one stored.
pub proof fn lemma_response_round_trip(cache: ResponseCache, k: UtteranceKey, now1: u64, now2: u64)
    requires
        cache.wf(),
        cache.entries@.len() > 0,
        entry_key(cache.entries@[0]) == k,
        cache.entries@[0].cached_at_ms == now1,
        now1 <= now2 <= now1 + cache.ttl_ms,
    ensures
        cache.spec_get(k, now2) == Some(
            (
                cache.entries@[0].audio_base64@,
                cache.entries@[0].sample_rate,
                cache.entries@[0].duration_ms,
            ),
        ),
{
    assert(has_utterance(cache.entries@, k));
    assert(utterance_index(cache.entries@, k) == 0) by {
        let m = utterance_index(cache.entries@, k);
        assert(entry_key(cache.entries@[0]) == k);
        if m != 0 {
            assert(entry_key(cache.entries@[m]) == k);
        }
    }
}

} // verus!
