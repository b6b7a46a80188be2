//! Synthesizer cache.
//!
//! Maps a model-config path to a loaded synthesizer handle and its
//! native sample rate, bounded by a capacity with last-access
//! eviction.  The handle itself is an opaque id here: the caller
//! owns the loaded models and keeps a handed-out handle alive even
//! after its entry is evicted, so eviction never invalidates a
//! reference a consumer already holds.

use vstd::prelude::*;

verus! {

/// Default bound on loaded synthesizers.
pub const SYNTH_CACHE_CAPACITY: usize = 15;

/// One cached synthesizer: config path, opaque handle id, native
/// sample rate, last access time.
#[derive(Debug)]
pub struct SynthCacheEntry {
    pub config_path: String,
    pub handle_id: u64,
    pub sample_rate: u32,
    pub last_accessed_ms: u64,
}

/// The view of a cache entry.
pub type SynthEntryView = (Seq<char>, u64, u32, u64);

pub open spec fn synth_entry_view(e: SynthCacheEntry) -> SynthEntryView {
    (e.config_path@, e.handle_id, e.sample_rate, e.last_accessed_ms)
}

pub open spec fn synth_views(s: Seq<SynthCacheEntry>) -> Seq<SynthEntryView> {
    s.map_values(|e: SynthCacheEntry| synth_entry_view(e))
}

/// Some entry holds the path.
pub open spec fn has_path(s: Seq<SynthCacheEntry>, p: Seq<char>) -> bool {
    exists|i: int| 0 <= i < s.len() && (#[trigger] s[i]).config_path@ == p
}

/// The index of the entry holding the path.
pub open spec fn path_index(s: Seq<SynthCacheEntry>, p: Seq<char>) -> int {
    choose|i: int| 0 <= i < s.len() && (#[trigger] s[i]).config_path@ == p
}

/// `m` is the eviction victim: the first entry whose last access
/// time is minimal.
pub open spec fn is_lru_victim(s: Seq<SynthCacheEntry>, m: int) -> bool {
    &&& 0 <= m < s.len()
    &&& forall|j: int| 0 <= j < s.len() ==> (#[trigger] s[j]).last_accessed_ms >= s[m].last_accessed_ms
    &&& forall|j: int| 0 <= j < m ==> (#[trigger] s[j]).last_accessed_ms > s[m].last_accessed_ms
}

/// The bounded synthesizer cache.
pub struct SynthCache {
    pub entries: Vec<SynthCacheEntry>,
    pub max_size: usize,
}

impl SynthCache {
    /// Well-formedness: within the bound, one entry per path.
    pub open spec fn wf(&self) -> bool {
        &&& self.max_size >= 1
        &&& self.entries@.len() <= self.max_size
        &&& forall|i: int, j: int|
            0 <= i < j < self.entries@.len() ==> (#[trigger] self.entries@[i]).config_path@ != (
            #[trigger] self.entries@[j]).config_path@
    }

    /// A fresh cache bounded by `max_size` models.
    pub fn new(max_size: usize) -> (cache: SynthCache)
        requires
            max_size >= 1,
        ensures
            cache.wf(),
            cache.entries@.len() == 0,
            cache.max_size == max_size,
    {
        SynthCache { entries: Vec::new(), max_size }
    }

    /// Look up the handle and sample rate for a config path,
    /// refreshing its last access time on a hit.
    #[verifier::loop_isolation(false)]
    pub fn lookup(&mut self, config_path: &String, now: u64) -> (found: Option<(u64, u32)>)
        requires
            old(self).wf(),
        ensures
            final(self).wf(),
            final(self).max_size == old(self).max_size,
            has_path(old(self).entries@, config_path@) ==> ({
                let i = path_index(old(self).entries@, config_path@);
                let e = old(self).entries@[i];
                &&& (found matches Some(r) && r.0 == e.handle_id && r.1 == e.sample_rate)
                &&& final(self).entries@.len() == old(self).entries@.len()
                &&& final(self).entries@[i].config_path@ == e.config_path@
                &&& final(self).entries@[i].handle_id == e.handle_id
                &&& final(self).entries@[i].sample_rate == e.sample_rate
                &&& final(self).entries@[i].last_accessed_ms == now
                &&& forall|j: int|
                    0 <= j < old(self).entries@.len() && j != i ==> final(self).entries@[j] == old(
                        self,
                    ).entries@[j]
            }),
            !has_path(old(self).entries@, config_path@) ==> (found is None && final(self).entries@
                == old(self).entries@),
    {
        let n = self.entries.len();
        let mut i: usize = 0;
        while i < n
            invariant
                i <= n,
                n == self.entries@.len(),
                self == old(self),
                forall|j: int| 0 <= j < i ==> (#[trigger] self.entries@[j]).config_path@ != config_path@,
            decreases n - i,
        {
            if self.entries[i].config_path.eq(config_path) {
                let ghost e0 = self.entries@;
                proof {
                    assert(has_path(e0, config_path@));
                    assert(path_index(e0, config_path@) == i as int) by {
                        let m = path_index(e0, config_path@);
                        if m != i as int {
                            assert(e0[m].config_path@ == config_path@);
                        }
                    }
                }
                let e = &self.entries[i];
                let handle_id = e.handle_id;
                let sample_rate = e.sample_rate;
                let updated = SynthCacheEntry {
                    config_path: e.config_path.clone(),
                    handle_id,
                    sample_rate,
                    last_accessed_ms: now,
                };
                self.entries.set(i, updated);
                return Some((handle_id, sample_rate));
            }
            i += 1;
        }
        proof {
            assert(!has_path(self.entries@, config_path@));
        }
        None
    }

    /// Insert a freshly loaded synthesizer.  An entry for the same
    /// path is replaced in place.  A full cache evicts exactly one
    /// entry, the one with the smallest last access time, and
    /// returns its handle id so the caller can release the model;
    /// a handle already handed out stays valid regardless.
    #[verifier::loop_isolation(false)]
    pub fn insert(&mut self, config_path: String, handle_id: u64, sample_rate: u32, now: u64) -> (
    evicted: Option<u64>)
        requires
            old(self).wf(),
        ensures
            final(self).wf(),
            final(self).max_size == old(self).max_size,
            has_path(final(self).entries@, config_path@),
            ({
                let e0 = old(self).entries@;
                let fresh = SynthCacheEntry {
                    config_path: config_path,
                    handle_id: handle_id,
                    sample_rate: sample_rate,
                    last_accessed_ms: now,
                };
                &&& has_path(e0, config_path@) ==> (final(self).entries@ == e0.update(
                    path_index(e0, config_path@),
                    fresh,
                ) && evicted == Some(e0[path_index(e0, config_path@)].handle_id))
                &&& (!has_path(e0, config_path@) && e0.len() < old(self).max_size)
                    ==> (final(self).entries@ == e0.push(fresh) && evicted is None)
                &&& (!has_path(e0, config_path@) && e0.len() >= old(self).max_size)
                    ==> (exists|m: int|
                    is_lru_victim(e0, m) && final(self).entries@ == e0.remove(m).push(fresh)
                        && evicted == Some(e0[m].handle_id))
            }),
    {
        let ghost e0 = self.entries@;
        let n = self.entries.len();
        let mut i: usize = 0;
        while i < n
            invariant
                i <= n,
                n == self.entries@.len(),
                self == old(self),
                forall|j: int| 0 <= j < i ==> (#[trigger] self.entries@[j]).config_path@ != config_path@,
            decreases n - i,
        {
            if self.entries[i].config_path.eq(&config_path) {
                proof {
                    assert(has_path(e0, config_path@));
                    assert(path_index(e0, config_path@) == i as int) by {
                        let m = path_index(e0, config_path@);
                        if m != i as int {
                            assert(e0[m].config_path@ == config_path@);
                        }
                    }
                }
                let old_handle = self.entries[i].handle_id;
                let fresh = SynthCacheEntry {
                    config_path,
                    handle_id,
                    sample_rate,
                    last_accessed_ms: now,
                };
                self.entries.set(i, fresh);
                proof {
                    assert forall|p: int, q: int|
                        0 <= p < q < self.entries@.len() implies (#[trigger] self.entries@[p]).config_path@
                        != (#[trigger] self.entries@[q]).config_path@ by {
                        assert(e0[p].config_path@ != e0[q].config_path@);
                    }
                    assert(has_path(self.entries@, self.entries@[i as int].config_path@));
                }
                return Some(old_handle);
            }
            i += 1;
        }
        proof {
            assert(!has_path(e0, config_path@));
        }
        if n < self.max_size {
            let fresh = SynthCacheEntry { config_path, handle_id, sample_rate, last_accessed_ms: now };
            proof {
                assert(forall|j: int|
                    0 <= j < e0.len() ==> (#[trigger] e0[j]).config_path@ != fresh.config_path@);
            }
            self.entries.push(fresh);
            proof {
                assert(has_path(self.entries@, self.entries@.last().config_path@));
            }
            None
        } else {
            // single pass for the first entry with minimal last access
            let mut m: usize = 0;
            let mut k: usize = 1;
            while k < n
                invariant
                    m < k <= n,
                    n == self.entries@.len(),
                    self == old(self),
                    forall|j: int|
                        0 <= j < k ==> (#[trigger] self.entries@[j]).last_accessed_ms
                            >= self.entries@[m as int].last_accessed_ms,
                    forall|j: int|
                        0 <= j < m ==> (#[trigger] self.entries@[j]).last_accessed_ms
                            > self.entries@[m as int].last_accessed_ms,
                decreases n - k,
            {
                if self.entries[k].last_accessed_ms < self.entries[m].last_accessed_ms {
                    m = k;
                }
                k += 1;
            }
            proof {
                assert(is_lru_victim(e0, m as int));
            }
            let victim_handle = self.entries[m].handle_id;
            self.entries.remove(m);
            let fresh = SynthCacheEntry { config_path, handle_id, sample_rate, last_accessed_ms: now };
            proof {
                let e1 = self.entries@;
                assert(e1 == e0.remove(m as int));
                assert forall|j: int| 0 <= j < e1.len() implies (#[trigger] e1[j]).config_path@
                    != fresh.config_path@ by {
                    if j < m as int {
                        assert(e1[j] == e0[j]);
                    } else {
                        assert(e1[j] == e0[j + 1]);
                    }
                }
                assert forall|p: int, q: int| 0 <= p < q < e1.len() implies (#[trigger] e1[p]).config_path@
                    != (#[trigger] e1[q]).config_path@ by {
                    let pp = if p < m as int { p } else { p + 1 };
                    let qq = if q < m as int { q } else { q + 1 };
                    assert(e1[p] == e0[pp] && e1[q] == e0[qq]);
                }
            }
            self.entries.push(fresh);
            proof {
                assert(has_path(self.entries@, self.entries@.last().config_path@));
            }
            Some(victim_handle)
        }
    }
}

} // verus!
