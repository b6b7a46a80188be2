//! Request and synthesis metrics.
//!
//! Counters saturate instead of wrapping.  Latency percentiles are
//! computed over a window of the most recent samples, capped at
//! `SAMPLE_WINDOW` entries.

use vstd::prelude::*;
use vstd::relations::{sorted_by, total_ordering};

verus! {

/// Size of the retained latency-sample window.
pub const SAMPLE_WINDOW: usize = 1000;

/// The ordering used for latency samples.
pub open spec fn u64_leq() -> spec_fn(u64, u64) -> bool {
    |a: u64, b: u64| a <= b
}

/// A sequence of `u64` in ascending order.
pub open spec fn sorted_u64(s: Seq<u64>) -> bool {
    forall|i: int, j: int| 0 <= i < j < s.len() ==> s[i] <= s[j]
}

/// The index selected for the `p`-th percentile of `len` samples.
pub open spec fn percentile_index(len: int, p: int) -> int {
    let idx = len * p / 100;
    if idx > len - 1 {
        len - 1
    } else {
        idx
    }
}

/// The `p`-th percentile of a sample window: the element of the
/// sorted window at `percentile_index`; 0 when the window is empty.
pub open spec fn percentile_spec(samples: Seq<u64>, p: int) -> u64 {
    if samples.len() == 0 {
        0u64
    } else {
        samples.sort_by(u64_leq())[percentile_index(samples.len() as int, p)]
    }
}

/// Two ascending sequences with the same elements are the same
/// sequence.
proof fn lemma_sorted_unique(a: Seq<u64>, b: Seq<u64>)
    requires
        sorted_u64(a),
        sorted_u64(b),
        a.to_multiset() == b.to_multiset(),
    ensures
        a == b,
    decreases a.len(),
{
    a.to_multiset_ensures();
    b.to_multiset_ensures();
    if a.len() == 0 {
        assert(b.len() == 0);
        assert(a =~= b);
    } else {
        assert(b.len() == a.len());
        assert(a.contains(a[0]));
        assert(a.to_multiset().count(a[0]) > 0);
        assert(b.to_multiset().count(a[0]) > 0);
        assert(b.contains(a[0]));
        let j = choose|j: int| 0 <= j < b.len() && b[j] == a[0];
        assert(b[0] <= b[j] || j == 0);
        assert(b.contains(b[0]));
        assert(b.to_multiset().count(b[0]) > 0);
        assert(a.to_multiset().count(b[0]) > 0);
        assert(a.contains(b[0]));
        let i = choose|i: int| 0 <= i < a.len() && a[i] == b[0];
        assert(a[0] <= a[i] || i == 0);
        assert(a[0] == b[0]);
        let at = a.drop_first();
        let bt = b.drop_first();
        assert(a.remove(0) =~= at);
        assert(b.remove(0) =~= bt);
        assert(at.to_multiset() =~= a.to_multiset().remove(a[0]));
        assert(bt.to_multiset() =~= b.to_multiset().remove(b[0]));
        assert(at.to_multiset() == bt.to_multiset());
        assert(sorted_u64(at));
        assert(sorted_u64(bt));
        lemma_sorted_unique(at, bt);
        assert forall|i: int| 0 <= i < a.len() implies a[i] == b[i] by {
            if i > 0 {
                assert(a[i] == at[i - 1]);
                assert(b[i] == bt[i - 1]);
            }
        }
        assert(a =~= b);
    }
}

fn insert_sorted(r: &Vec<u64>, k: usize, x: u64) -> (out: Vec<u64>)
    requires
        k <= r@.len(),
        r@.len() < usize::MAX,
    ensures
        out@ == r@.insert(k as int, x),
{
    let mut out: Vec<u64> = Vec::new();
    let mut j: usize = 0;
    while j < k
        invariant
            j <= k <= r@.len(),
            out@ == r@.take(j as int),
        decreases k - j,
    {
        out.push(r[j]);
        proof {
            assert(out@ =~= r@.take(j + 1));
        }
        j += 1;
    }
    out.push(x);
    let mut j2: usize = k;
    while j2 < r.len()
        invariant
            k <= j2 <= r@.len(),
            out@ == r@.take(k as int) + seq![x] + r@.subrange(k as int, j2 as int),
        decreases r@.len() - j2,
    {
        out.push(r[j2]);
        proof {
            assert(out@ =~= r@.take(k as int) + seq![x] + r@.subrange(k as int, j2 + 1));
        }
        j2 += 1;
    }
    proof {
        assert(out@ =~= r@.insert(k as int, x));
    }
    out
}

proof fn lemma_insert_multiset(s: Seq<u64>, k: int, x: u64)
    requires
        0 <= k <= s.len(),
    ensures
        s.insert(k, x).to_multiset() == s.to_multiset().insert(x),
    decreases s.len() - k,
{
    s.to_multiset_ensures();
    s.insert(k, x).to_multiset_ensures();
    if k == s.len() {
        assert(s.insert(k, x) =~= s.push(x));
    } else {
        // move the insertion point one step right and swap the tail
        let t = s.insert(k, x);
        let u = s.insert(k + 1, s[k]);
        // t and u agree as multisets because t = prefix + [x, s[k]] + rest
        // and swapping adjacent elements keeps the multiset; recurse on a
        // simpler decomposition instead: remove the first element.
        let s2 = s.remove(k);
        s2.to_multiset_ensures();
        lemma_insert_multiset(s2, k, x);
        assert(s2.to_multiset() =~= s.to_multiset().remove(s[k]));
        assert(t.remove(k + 1) =~= s2.insert(k, x));
        t.to_multiset_ensures();
        assert(t[k + 1] == s[k]);
        assert(t.remove(k + 1).to_multiset() =~= t.to_multiset().remove(s[k]));
        assert(t.to_multiset().remove(s[k]) =~= s.to_multiset().remove(s[k]).insert(x));
        assert(t.to_multiset().contains(s[k])) by {
            assert(t[k + 1] == s[k]);
            assert(t.contains(s[k]));
        }
        assert(t.to_multiset() =~= s.to_multiset().remove(s[k]).insert(x).insert(s[k]));
        assert(s.to_multiset().remove(s[k]).insert(s[k]) =~= s.to_multiset()) by {
            assert(s.contains(s[k]));
            assert(s.to_multiset().count(s[k]) > 0);
        }
        assert(s.to_multiset().remove(s[k]).insert(x).insert(s[k]) =~= s.to_multiset().insert(x));
    }
}

/// Sort a sample window ascending.
fn sort_u64(v: &Vec<u64>) -> (out: Vec<u64>)
    ensures
        out@ == v@.sort_by(u64_leq()),
{
    let ghost leq = u64_leq();
    proof {
        assert(total_ordering(leq));
        v@.lemma_sort_by_ensures(leq);
        v@.to_multiset_ensures();
    }
    let mut out: Vec<u64> = Vec::new();
    let mut i: usize = 0;
    proof {
        assert(out@ =~= v@.take(0));
    }
    while i < v.len()
        invariant
            i <= v@.len(),
            sorted_u64(out@),
            out@.to_multiset() == v@.take(i as int).to_multiset(),
            out@.len() == i,
        decreases v@.len() - i,
    {
        let x = v[i];
        let mut k: usize = 0;
        while k < out.len() && out[k] <= x
            invariant
                k <= out@.len(),
                forall|j: int| 0 <= j < k ==> out@[j] <= x,
            decreases out@.len() - k,
        {
            k += 1;
        }
        let ghost old_out = out@;
        proof {
            lemma_insert_multiset(out@, k as int, x);
            assert(k == old_out.len() || old_out[k as int] > x);
        }
        out = insert_sorted(&out, k, x);
        proof {
            let prev = v@.take(i as int);
            let t = v@.take(i + 1);
            prev.to_multiset_ensures();
            t.to_multiset_ensures();
            assert(t =~= prev.push(v@[i as int]));
            assert(t.to_multiset() == prev.to_multiset().insert(v@[i as int]));
            assert(out@.to_multiset() == old_out.to_multiset().insert(x));
            assert(out@.to_multiset() == t.to_multiset());
        }
        proof {
            assert forall|p: int, q: int| 0 <= p < q < out@.len() implies out@[p] <= out@[q] by {
                if q < k {
                    assert(out@[p] == old_out[p] && out@[q] == old_out[q]);
                } else if q == k {
                    assert(out@[p] == old_out[p] && out@[q] == x);
                } else if p == k {
                    assert(out@[p] == x && out@[q] == old_out[q - 1]);
                    assert(k < old_out.len());
                    assert(old_out[k as int] > x);
                    assert(k == q - 1 || old_out[k as int] <= old_out[q - 1]);
                } else if p < k {
                    assert(out@[p] == old_out[p] && out@[q] == old_out[q - 1]);
                    assert(p == q - 1 || old_out[p] <= old_out[q - 1]);
                } else {
                    assert(out@[p] == old_out[p - 1] && out@[q] == old_out[q - 1]);
                }
            }
        }
        i += 1;
    }
    proof {
        assert(v@.take(v@.len() as int) =~= v@);
        let s = v@.sort_by(leq);
        assert(sorted_u64(s)) by {
            assert forall|p: int, q: int| 0 <= p < q < s.len() implies s[p] <= s[q] by {
                assert(leq(s[p], s[q]));
            }
        }
        lemma_sorted_unique(out@, s);
    }
    out
}

/// Per-endpoint request metrics: counts, latency extremes, and a
/// bounded window of recent latency samples for percentiles.
#[derive(Debug, Clone)]
pub struct EndpointMetrics {
    pub request_count: u64,
    pub error_count: u64,
    pub total_latency_ms: u64,
    pub min_latency_ms: u64,
    pub max_latency_ms: u64,
    pub latency_samples: Vec<u64>,
}

impl EndpointMetrics {
    /// Fresh metrics: zero counts, extremes at their identities, no
    /// samples.
    pub fn new() -> (m: EndpointMetrics)
        ensures
            m.request_count == 0,
            m.error_count == 0,
            m.total_latency_ms == 0,
            m.min_latency_ms == u64::MAX,
            m.max_latency_ms == 0,
            m.latency_samples@ == Seq::<u64>::empty(),
    {
        EndpointMetrics {
            request_count: 0,
            error_count: 0,
            total_latency_ms: 0,
            min_latency_ms: u64::MAX,
            max_latency_ms: 0,
            latency_samples: Vec::new(),
        }
    }

    /// Record one request: bump the count, add the latency to the
    /// total, update the extremes, and append the sample to the
    /// window, dropping its oldest entry when the window is full.
    pub fn record_request(&mut self, latency_ms: u64)
        ensures
            final(self).request_count == old(self).request_count.saturating_add(1),
            final(self).error_count == old(self).error_count,
            final(self).total_latency_ms == old(self).total_latency_ms.saturating_add(latency_ms),
            final(self).min_latency_ms == if latency_ms < old(self).min_latency_ms {
                latency_ms
            } else {
                old(self).min_latency_ms
            },
            final(self).max_latency_ms == if latency_ms > old(self).max_latency_ms {
                latency_ms
            } else {
                old(self).max_latency_ms
            },
            final(self).latency_samples@ == if old(self).latency_samples@.len() < SAMPLE_WINDOW {
                old(self).latency_samples@.push(latency_ms)
            } else {
                old(self).latency_samples@.push(latency_ms).drop_first()
            },
    {
        self.request_count = self.request_count.saturating_add(1);
        self.total_latency_ms = self.total_latency_ms.saturating_add(latency_ms);
        if latency_ms < self.min_latency_ms {
            self.min_latency_ms = latency_ms;
        }
        if latency_ms > self.max_latency_ms {
            self.max_latency_ms = latency_ms;
        }
        self.latency_samples.push(latency_ms);
        if self.latency_samples.len() > SAMPLE_WINDOW {
            self.latency_samples.remove(0);
            proof {
                assert(old(self).latency_samples@.push(latency_ms).remove(0) =~= old(
                    self,
                ).latency_samples@.push(latency_ms).drop_first());
            }
        }
    }

    /// Record one failed request.
    pub fn record_error(&mut self)
        ensures
            final(self).error_count == old(self).error_count.saturating_add(1),
            final(self).request_count == old(self).request_count,
            final(self).total_latency_ms == old(self).total_latency_ms,
            final(self).min_latency_ms == old(self).min_latency_ms,
            final(self).max_latency_ms == old(self).max_latency_ms,
            final(self).latency_samples == old(self).latency_samples,
    {
        self.error_count = self.error_count.saturating_add(1);
    }

    /// The `p`-th percentile of the retained latency window.
    pub fn percentile(&self, p: u8) -> (r: u64)
        ensures
            r == percentile_spec(self.latency_samples@, p as int),
    {
        let n = self.latency_samples.len();
        if n == 0 {
            return 0;
        }
        let sorted = sort_u64(&self.latency_samples);
        proof {
            self.latency_samples@.lemma_sort_by_ensures(u64_leq());
            self.latency_samples@.to_multiset_ensures();
            self.latency_samples@.sort_by(u64_leq()).to_multiset_ensures();
        }
        proof {
            assert((n as u128) * (p as u128) <= (usize::MAX as u128) * 255) by (nonlinear_arith)
                requires
                    n <= usize::MAX as u128 && p <= 255,
            ;
        }
        let idx128: u128 = (n as u128) * (p as u128) / 100;
        let idx: usize = if idx128 > (n - 1) as u128 {
            n - 1
        } else {
            idx128 as usize
        };
        proof {
            assert(idx == percentile_index(n as int, p as int));
            assert(sorted@ == self.latency_samples@.sort_by(u64_leq()));
        }
        sorted[idx]
    }

    /// Median latency of the window.
    pub fn p50_latency_ms(&self) -> (r: u64)
        ensures
            r == percentile_spec(self.latency_samples@, 50),
    {
        self.percentile(50)
    }

    /// 95th-percentile latency of the window.
    pub fn p95_latency_ms(&self) -> (r: u64)
        ensures
            r == percentile_spec(self.latency_samples@, 95),
    {
        self.percentile(95)
    }

    /// 99th-percentile latency of the window.
    pub fn p99_latency_ms(&self) -> (r: u64)
        ensures
            r == percentile_spec(self.latency_samples@, 99),
    {
        self.percentile(99)
    }
}

impl Default for EndpointMetrics {
    /// Same as `EndpointMetrics::new`.
    fn default() -> (m: EndpointMetrics)
        ensures
            m.request_count == 0,
            m.error_count == 0,
            m.total_latency_ms == 0,
            m.min_latency_ms == u64::MAX,
            m.max_latency_ms == 0,
            m.latency_samples@ == Seq::<u64>::empty(),
    {
        EndpointMetrics::new()
    }
}

/// Synthesis-specific metrics: synthesis count and time, cache hit
/// and miss counts, and total samples produced.
#[derive(Debug, Clone)]
pub struct TtsMetrics {
    pub synthesis_count: u64,
    pub total_synthesis_time_ms: u64,
    pub cache_hits: u64,
    pub cache_misses: u64,
    pub total_samples: u64,
}

impl TtsMetrics {
    /// Fresh metrics with all counters at zero.
    pub fn new() -> (m: TtsMetrics)
        ensures
            m.synthesis_count == 0,
            m.total_synthesis_time_ms == 0,
            m.cache_hits == 0,
            m.cache_misses == 0,
            m.total_samples == 0,
    {
        TtsMetrics {
            synthesis_count: 0,
            total_synthesis_time_ms: 0,
            cache_hits: 0,
            cache_misses: 0,
            total_samples: 0,
        }
    }

    /// Record one synthesis: time, produced sample count, and whether
    /// the response cache answered it.
    pub fn record_synthesis(&mut self, time_ms: u64, samples: usize, cache_hit: bool)
        ensures
            final(self).synthesis_count == old(self).synthesis_count.saturating_add(1),
            final(self).total_synthesis_time_ms == old(self).total_synthesis_time_ms.saturating_add(
                time_ms,
            ),
            final(self).total_samples == old(self).total_samples.saturating_add(samples as u64),
            final(self).cache_hits == if cache_hit {
                old(self).cache_hits.saturating_add(1)
            } else {
                old(self).cache_hits
            },
            final(self).cache_misses == if cache_hit {
                old(self).cache_misses
            } else {
                old(self).cache_misses.saturating_add(1)
            },
    {
        self.synthesis_count = self.synthesis_count.saturating_add(1);
        self.total_synthesis_time_ms = self.total_synthesis_time_ms.saturating_add(time_ms);
        self.total_samples = self.total_samples.saturating_add(samples as u64);
        if cache_hit {
            self.cache_hits = self.cache_hits.saturating_add(1);
        } else {
            self.cache_misses = self.cache_misses.saturating_add(1);
        }
    }
}

impl Default for TtsMetrics {
    /// Same as `TtsMetrics::new`.
    fn default() -> (m: TtsMetrics)
        ensures
            m.synthesis_count == 0,
            m.total_synthesis_time_ms == 0,
            m.cache_hits == 0,
            m.cache_misses == 0,
            m.total_samples == 0,
    {
        TtsMetrics::new()
    }
}

/// All metrics of the application.
#[derive(Debug, Clone)]
pub struct AppMetrics {
    pub tts: EndpointMetrics,
    pub tts_specific: TtsMetrics,
}

impl AppMetrics {
    /// Fresh metrics for every component.
    pub fn new() -> (m: AppMetrics)
        ensures
            m.tts.request_count == 0,
            m.tts.error_count == 0,
            m.tts.latency_samples@ == Seq::<u64>::empty(),
            m.tts_specific.synthesis_count == 0,
            m.tts_specific.cache_hits == 0,
            m.tts_specific.cache_misses == 0,
    {
        AppMetrics { tts: EndpointMetrics::new(), tts_specific: TtsMetrics::new() }
    }
}

impl Default for AppMetrics {
    /// Same as `AppMetrics::new`.
    fn default() -> (m: AppMetrics)
        ensures
            m.tts.request_count == 0,
            m.tts_specific.synthesis_count == 0,
    {
        AppMetrics::new()
    }
}

} // verus!
