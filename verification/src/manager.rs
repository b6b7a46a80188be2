//! The TTS manager: the public face of the synthesis orchestrator.
//!
//! Owns the voice registry maps, the bounded synthesizer cache and
//! the rendered-response cache, and resolves `(language, voice)` to
//! a model-config path and default speaker.

use vstd::prelude::*;
use crate::registry::{
    JsonValue, LanguageBinding, MapEntry, MapView, VoiceEntry, VoiceView, VoicesMapView,
    BindingView, binding_view, map_views, parse_registry, parse_registry_spec, vm_views,
    voice_lookup, voices_views,
};
use crate::response_cache::{ResponseCache, RESPONSE_CACHE_CAPACITY, RESPONSE_CACHE_TTL_MS};
use crate::synth_cache::{SynthCache, SYNTH_CACHE_CAPACITY};

verus! {

/// Relies on str's `PartialEq`: equality of string slices is
/// equality of their character content.
pub assume_specification[ <str as PartialEq<str>>::eq ](a: &str, b: &str) -> (r: bool)
    ensures
        r == (a@ == b@),
;

/// Lexicographic order on character sequences, by code point.
pub open spec fn lex_le(a: Seq<char>, b: Seq<char>) -> bool
    decreases a.len(),
{
    if a.len() == 0 {
        true
    } else if b.len() == 0 {
        false
    } else if (a[0] as int) < (b[0] as int) {
        true
    } else if (a[0] as int) > (b[0] as int) {
        false
    } else {
        lex_le(a.drop_first(), b.drop_first())
    }
}

/// The order is total.
pub proof fn lemma_lex_total(a: Seq<char>, b: Seq<char>)
    ensures
        lex_le(a, b) || lex_le(b, a),
    decreases a.len(),
{
    if a.len() == 0 || b.len() == 0 {
    } else if (a[0] as int) == (b[0] as int) {
        lemma_lex_total(a.drop_first(), b.drop_first());
    }
}

/// The order is transitive.
pub proof fn lemma_lex_trans(a: Seq<char>, b: Seq<char>, c: Seq<char>)
    requires
        lex_le(a, b),
        lex_le(b, c),
    ensures
        lex_le(a, c),
    decreases a.len(),
{
    if a.len() == 0 {
    } else {
        assert(b.len() > 0);
        assert(c.len() > 0);
        if (a[0] as int) == (b[0] as int) && (b[0] as int) == (c[0] as int) {
            lemma_lex_trans(a.drop_first(), b.drop_first(), c.drop_first());
        }
    }
}

/// Is `a` at most `b` in lexicographic order?
pub fn str_le(a: &str, b: &str) -> (r: bool)
    ensures
        r == lex_le(a@, b@),
{
    let la = a.unicode_len();
    let lb = b.unicode_len();
    let n = if la < lb {
        la
    } else {
        lb
    };
    let mut i: usize = 0;
    proof {
        assert(a@.skip(0) =~= a@);
        assert(b@.skip(0) =~= b@);
    }
    while i < n
        invariant
            i <= n,
            n == if la < lb {
                la
            } else {
                lb
            },
            la == a@.len(),
            lb == b@.len(),
            lex_le(a@, b@) == lex_le(a@.skip(i as int), b@.skip(i as int)),
        decreases n - i,
    {
        let ca = a.get_char(i);
        let cb = b.get_char(i);
        proof {
            assert(a@.skip(i as int).first() == a@[i as int]);
            assert(b@.skip(i as int).first() == b@[i as int]);
        }
        if (ca as u32) < (cb as u32) {
            return true;
        } else if (ca as u32) > (cb as u32) {
            return false;
        }
        proof {
            assert(a@.skip(i as int).drop_first() =~= a@.skip(i + 1));
            assert(b@.skip(i as int).drop_first() =~= b@.skip(i + 1));
        }
        i += 1;
    }
    proof {
        if la <= lb {
            assert(a@.skip(i as int).len() == 0);
        } else {
            assert(b@.skip(i as int).len() == 0);
            assert(a@.skip(i as int).len() > 0);
        }
    }
    la <= lb
}

/// One insertion step of the sort: inserting the next input
/// element at its position keeps the output sorted, duplicate-free
/// and made of exactly the processed inputs.
/// Some string of `s` has content `x`.
pub open spec fn contains_str(s: Seq<String>, x: Seq<char>) -> bool {
    exists|k: int| 0 <= k < s.len() && (#[trigger] s[k])@ == x
}

/// A contained string stays contained when another is appended.
proof fn lemma_contains_after_push(s: Seq<String>, z: String, t: Seq<char>)
    requires
        contains_str(s, t),
    ensures
        contains_str(s.push(z), t),
{
    let k0 = choose|k0: int| 0 <= k0 < s.len() && (#[trigger] s[k0])@ == t;
    assert(s.push(z)[k0]@ == t);
}

/// The pushed string itself is contained.
proof fn lemma_contains_pushed(s: Seq<String>, z: String)
    ensures
        contains_str(s.push(z), z@),
{
    assert(s.push(z)[s.len() as int]@ == z@);
}

/// Inserting the next element at its boundary position keeps the
/// output sorted.
proof fn lemma_sort_step_sorted(old_out: Seq<String>, ef: Seq<String>, x: Seq<char>, k: int)
    requires
        0 <= k <= old_out.len(),
        ef.len() == old_out.len() + 1,
        ef[k]@ == x,
        forall|j: int| 0 <= j < k ==> ef[j] == old_out[j],
        forall|j: int| k < j < ef.len() ==> ef[j] == old_out[j - 1],
        forall|p: int, q: int|
            0 <= p < q < old_out.len() ==> lex_le((#[trigger] old_out[p])@, (#[trigger] old_out[q])@),
        forall|j: int| 0 <= j < k ==> lex_le((#[trigger] old_out[j])@, x),
        k < old_out.len() ==> lex_le(x, old_out[k]@),
    ensures
        forall|p: int, q: int|
            0 <= p < q < ef.len() ==> lex_le((#[trigger] ef[p])@, (#[trigger] ef[q])@),
{
    assert forall|p: int, q: int| 0 <= p < q < ef.len() implies lex_le(
        (#[trigger] ef[p])@,
        (#[trigger] ef[q])@,
    ) by {
        if q < k {
        } else if q == k {
            assert(lex_le(old_out[p]@, x));
        } else if p == k {
            assert(k < old_out.len());
            if q - 1 > k {
                assert(lex_le(old_out[k]@, old_out[q - 1]@));
                lemma_lex_trans(x, old_out[k]@, old_out[q - 1]@);
            }
        } else if p < k {
            if p == q - 1 {
            } else {
                assert(lex_le(old_out[p]@, old_out[q - 1]@));
            }
        } else {
            assert(lex_le(old_out[p - 1]@, old_out[q - 1]@));
        }
    }
}

/// Inserting an element whose content is absent keeps the output
/// free of duplicates.
proof fn lemma_sort_step_nodup(old_out: Seq<String>, ef: Seq<String>, x: Seq<char>, k: int)
    requires
        0 <= k <= old_out.len(),
        ef.len() == old_out.len() + 1,
        ef[k]@ == x,
        forall|j: int| 0 <= j < k ==> ef[j] == old_out[j],
        forall|j: int| k < j < ef.len() ==> ef[j] == old_out[j - 1],
        forall|p: int, q: int|
            0 <= p < q < old_out.len() ==> (#[trigger] old_out[p])@ != (#[trigger] old_out[q])@,
        !contains_str(old_out, x),
    ensures
        forall|p: int, q: int| 0 <= p < q < ef.len() ==> (#[trigger] ef[p])@ != (#[trigger] ef[q])@,
{
    assert forall|p: int, q: int| 0 <= p < q < ef.len() implies (#[trigger] ef[p])@ != (
    #[trigger] ef[q])@ by {
        if p != k && q != k {
            let pp = if p < k {
                p
            } else {
                p - 1
            };
            let qq = if q < k {
                q
            } else {
                q - 1
            };
            assert(ef[p] == old_out[pp] && ef[q] == old_out[qq]);
        } else {
            let other = if p == k {
                q
            } else {
                p
            };
            let o = if other < k {
                other
            } else {
                other - 1
            };
            assert(ef[other] == old_out[o]);
            assert(ef[other]@ != x);
        }
    }
}

/// After the insertion every element of the output comes from the
/// processed inputs.
proof fn lemma_sort_step_from_input(
    old_out: Seq<String>,
    ef: Seq<String>,
    v: Seq<String>,
    i: int,
    k: int,
)
    requires
        0 <= k <= old_out.len(),
        0 <= i < v.len(),
        ef.len() == old_out.len() + 1,
        ef[k]@ == v[i]@,
        forall|j: int| 0 <= j < k ==> ef[j] == old_out[j],
        forall|j: int| k < j < ef.len() ==> ef[j] == old_out[j - 1],
        forall|x: int|
            0 <= x < old_out.len() ==> contains_str(v.take(i), (#[trigger] old_out[x])@),
    ensures
        forall|x: int| 0 <= x < ef.len() ==> contains_str(v.take(i + 1), (#[trigger] ef[x])@),
{
    assert forall|x: int|
        0 <= x < ef.len() implies contains_str(v.take(i + 1), (#[trigger] ef[x])@) by {
        if x == k {
            assert(v.take(i + 1)[i]@ == ef[x]@);
        } else {
            let o = if x < k {
                x
            } else {
                x - 1
            };
            assert(ef[x] == old_out[o]);
            let k0 = choose|k0: int|
                0 <= k0 < v.take(i).len() && (#[trigger] v.take(i)[k0])@ == old_out[o]@;
            assert(v.take(i + 1)[k0]@ == ef[x]@);
        }
    }
}

/// After the insertion every processed input occurs in the output.
proof fn lemma_sort_step_covers_input(
    old_out: Seq<String>,
    ef: Seq<String>,
    v: Seq<String>,
    i: int,
    k: int,
)
    requires
        0 <= k <= old_out.len(),
        0 <= i < v.len(),
        ef.len() == old_out.len() + 1,
        ef[k]@ == v[i]@,
        forall|j: int| 0 <= j < k ==> ef[j] == old_out[j],
        forall|j: int| k < j < ef.len() ==> ef[j] == old_out[j - 1],
        forall|j: int| 0 <= j < i ==> contains_str(old_out, (#[trigger] v[j])@),
    ensures
        forall|j: int| 0 <= j < i + 1 ==> contains_str(ef, (#[trigger] v[j])@),
{
    assert forall|j: int| 0 <= j < i + 1 implies contains_str(ef, (#[trigger] v[j])@) by {
        if j == i {
            assert(ef[k]@ == v[j]@);
        } else {
            let x0 = choose|x0: int| 0 <= x0 < old_out.len() && (#[trigger] old_out[x0])@ == v[j]@;
            let x2 = if x0 < k {
                x0
            } else {
                x0 + 1
            };
            assert(ef[x2] == old_out[x0]);
            assert(ef[x2]@ == v[j]@);
        }
    }
}

/// Does some string of `keys` have the content of `lang`?
fn contains_exec(keys: &Vec<String>, lang: &String) -> (present: bool)
    ensures
        present == contains_str(keys@, lang@),
{
    let mut j: usize = 0;
    while j < keys.len()
        invariant
            j <= keys@.len(),
            forall|x: int| 0 <= x < j ==> (#[trigger] keys@[x])@ != lang@,
        decreases keys@.len() - j,
    {
        if keys[j].eq(lang) {
            proof {
                assert(contains_str(keys@, lang@));
            }
            return true;
        }
        j += 1;
    }
    proof {
        assert(!contains_str(keys@, lang@)) by {
            if contains_str(keys@, lang@) {
                let k0 = choose|k0: int| 0 <= k0 < keys@.len() && (#[trigger] keys@[k0])@ == lang@;
            }
        }
    }
    false
}

/// Sort strings ascending: same length, same contents by view, in
/// lexicographic order, without duplicates when the input has none.
#[verifier::loop_isolation(false)]
#[verifier::rlimit(100)]
fn sort_strings(v: &Vec<String>) -> (out: Vec<String>)
    requires
        forall|p: int, q: int| 0 <= p < q < v@.len() ==> (#[trigger] v@[p])@ != (#[trigger] v@[q])@,
    ensures
        out@.len() == v@.len(),
        forall|p: int, q: int|
            0 <= p < q < out@.len() ==> lex_le((#[trigger] out@[p])@, (#[trigger] out@[q])@),
        forall|p: int, q: int|
            0 <= p < q < out@.len() ==> (#[trigger] out@[p])@ != (#[trigger] out@[q])@,
        forall|i: int| 0 <= i < out@.len() ==> contains_str(v@, (#[trigger] out@[i])@),
        forall|j: int| 0 <= j < v@.len() ==> contains_str(out@, (#[trigger] v@[j])@),
{
    let mut out: Vec<String> = Vec::new();
    let mut i: usize = 0;
    while i < v.len()
        invariant
            i <= v@.len(),
            out@.len() == i,
            forall|p: int, q: int|
                0 <= p < q < out@.len() ==> lex_le((#[trigger] out@[p])@, (#[trigger] out@[q])@),
            forall|p: int, q: int|
                0 <= p < q < out@.len() ==> (#[trigger] out@[p])@ != (#[trigger] out@[q])@,
            forall|x: int|
                0 <= x < out@.len() ==> contains_str(v@.take(i as int), (#[trigger] out@[x])@),
            forall|j: int| 0 <= j < i ==> contains_str(out@, (#[trigger] v@[j])@),
        decreases v@.len() - i,
    {
        let x = v[i].clone();
        let mut k: usize = 0;
        while k < out.len() && str_le(out[k].as_str(), x.as_str())
            invariant
                k <= out@.len(),
                x@ == v@[i as int]@,
                forall|j: int| 0 <= j < k ==> lex_le((#[trigger] out@[j])@, x@),
            decreases out@.len() - k,
        {
            k += 1;
        }
        let ghost old_out = out@;
        proof {
            assert(k == old_out.len() || !lex_le(old_out[k as int]@, x@));
            if k < old_out.len() {
                lemma_lex_total(old_out[k as int]@, x@);
            }
            assert(!contains_str(old_out, x@)) by {
                if contains_str(old_out, x@) {
                    let k0 = choose|k0: int|
                        0 <= k0 < old_out.len() && (#[trigger] old_out[k0])@ == x@;
                    let j0 = choose|j0: int|
                        0 <= j0 < v@.take(i as int).len() && (#[trigger] v@.take(i as int)[j0])@
                            == old_out[k0]@;
                    assert(v@[j0]@ == v@[i as int]@);
                }
            }
        }
        out.insert(k, x);
        proof {
            lemma_sort_step_sorted(old_out, out@, v@[i as int]@, k as int);
            lemma_sort_step_nodup(old_out, out@, v@[i as int]@, k as int);
            lemma_sort_step_from_input(old_out, out@, v@, i as int, k as int);
            lemma_sort_step_covers_input(old_out, out@, v@, i as int, k as int);
        }
        i += 1;
    }
    proof {
        assert(v@.take(i as int) =~= v@);
    }
    out
}


pub open spec fn legacy_lookup(m: MapView, lang: Seq<char>) -> Option<(Seq<char>, Option<i64>)>
    decreases m.len(),
{
    if m.len() == 0 {
        None
    } else if m.first().0 == lang {
        Some(m.first().1)
    } else {
        legacy_lookup(m.drop_first(), lang)
    }
}

/// The first rich binding for a language.
pub open spec fn rich_lookup(vm: VoicesMapView, lang: Seq<char>) -> Option<BindingView>
    decreases vm.len(),
{
    if vm.len() == 0 {
        None
    } else if vm.first().0 == lang {
        Some(vm.first().1)
    } else {
        rich_lookup(vm.drop_first(), lang)
    }
}

/// How `(language, voice)` resolves against the registry: the rich
/// map decides first, using the requested voice or the binding's
/// default; the legacy map answers languages without a rich binding.
pub open spec fn resolution(
    m: MapView,
    vm: VoicesMapView,
    lang: Seq<char>,
    voice: Option<Seq<char>>,
) -> Option<(Seq<char>, Option<i64>)> {
    match rich_lookup(vm, lang) {
        Some(b) => {
            let vid = match voice {
                Some(v) => v,
                None => b.0,
            };
            match voice_lookup(b.1, vid) {
                Some(ve) => Some((ve.0, ve.1)),
                None => None,
            }
        },
        None => legacy_lookup(m, lang),
    }
}

/// The requested language, or the configured default.
pub open spec fn effective_lang(lang_opt: Option<Seq<char>>) -> Seq<char> {
    match lang_opt {
        Some(l) => l,
        None => "de_DE"@,
    }
}

/// The language → voice → model mapping, the synthesizer cache and
/// the response cache of the orchestrator.
pub struct TtsManager {
    pub map: Vec<(String, MapEntry)>,
    pub voices_map: Vec<(String, LanguageBinding)>,
    pub synth_cache: SynthCache,
    pub max_cache_size: usize,
    pub response_cache: ResponseCache,
}

impl TtsManager {
    /// Manager well-formedness: the caches are well-formed.
    pub open spec fn wf(&self) -> bool {
        &&& self.synth_cache.wf()
        &&& self.response_cache.wf()
        &&& self.max_cache_size == self.synth_cache.max_size
    }

    /// A manager over a prebuilt legacy map, with the stock cache
    /// bounds.
    pub fn new(map: Vec<(String, MapEntry)>) -> (manager: TtsManager)
        ensures
            manager.wf(),
            map_views(manager.map@) == map_views(map@),
            manager.voices_map@.len() == 0,
            manager.max_cache_size == SYNTH_CACHE_CAPACITY,
            manager.synth_cache.entries@.len() == 0,
            manager.response_cache.entries@.len() == 0,
            manager.response_cache.ttl_ms == RESPONSE_CACHE_TTL_MS,
    {
        TtsManager {
            map,
            voices_map: Vec::new(),
            synth_cache: SynthCache::new(SYNTH_CACHE_CAPACITY),
            max_cache_size: SYNTH_CACHE_CAPACITY,
            response_cache: ResponseCache::new(RESPONSE_CACHE_CAPACITY, RESPONSE_CACHE_TTL_MS),
        }
    }

    /// A manager with a custom synthesizer-cache bound.
    pub fn new_with_cache_size(map: Vec<(String, MapEntry)>, max_cache_size: usize) -> (manager:
        TtsManager)
        requires
            max_cache_size >= 1,
        ensures
            manager.wf(),
            map_views(manager.map@) == map_views(map@),
            manager.voices_map@.len() == 0,
            manager.max_cache_size == max_cache_size,
    {
        TtsManager {
            map,
            voices_map: Vec::new(),
            synth_cache: SynthCache::new(max_cache_size),
            max_cache_size,
            response_cache: ResponseCache::new(RESPONSE_CACHE_CAPACITY, RESPONSE_CACHE_TTL_MS),
        }
    }

    /// A manager loaded from a parsed voice-map document, with both
    /// the legacy and the rich mapping filled as the document gives
    /// them.
    pub fn new_from_json(json: &JsonValue) -> (result: Result<TtsManager, String>)
        ensures
            result is Ok <==> parse_registry_spec(*json) is Some,
            result matches Ok(manager) ==> (manager.wf() && parse_registry_spec(*json) == Some(
                (map_views(manager.map@), vm_views(manager.voices_map@)),
            ) && manager.max_cache_size == SYNTH_CACHE_CAPACITY),
    {
        match parse_registry(json) {
            Ok((map, voices_map)) => Ok(
                TtsManager {
                    map,
                    voices_map,
                    synth_cache: SynthCache::new(SYNTH_CACHE_CAPACITY),
                    max_cache_size: SYNTH_CACHE_CAPACITY,
                    response_cache: ResponseCache::new(
                        RESPONSE_CACHE_CAPACITY,
                        RESPONSE_CACHE_TTL_MS,
                    ),
                },
            ),
            Err(e) => Err(e),
        }
    }

    /// A language key occurs in the registry.
    pub open spec fn knows_lang(&self, lang: Seq<char>) -> bool {
        ||| legacy_lookup(map_views(self.map@), lang) is Some
        ||| rich_lookup(vm_views(self.voices_map@), lang) is Some
    }

    /// List the supported language keys: the union of the legacy and
    /// rich keys, each once, in ascending lexicographic order.
    #[verifier::loop_isolation(false)]
    #[verifier::rlimit(100)]
    pub fn list_languages(&self) -> (langs: Vec<String>)
        ensures
            forall|p: int, q: int|
                0 <= p < q < langs@.len() ==> lex_le((#[trigger] langs@[p])@, (#[trigger] langs@[q])@),
            forall|p: int, q: int|
                0 <= p < q < langs@.len() ==> (#[trigger] langs@[p])@ != (#[trigger] langs@[q])@,
            forall|i: int| 0 <= i < langs@.len() ==> self.knows_lang((#[trigger] langs@[i])@),
            forall|j: int|
                0 <= j < self.map@.len() ==> contains_str(langs@, (#[trigger] self.map@[j]).0@),
            forall|j: int|
                0 <= j < self.voices_map@.len() ==> contains_str(
                    langs@,
                    (#[trigger] self.voices_map@[j]).0@,
                ),
    {
        let mut keys: Vec<String> = Vec::new();
        let mut i: usize = 0;
        while i < self.map.len()
            invariant
                i <= self.map@.len(),
                forall|p: int, q: int|
                    0 <= p < q < keys@.len() ==> (#[trigger] keys@[p])@ != (#[trigger] keys@[q])@,
                forall|x: int| 0 <= x < keys@.len() ==> self.knows_lang((#[trigger] keys@[x])@),
                forall|j: int|
                    0 <= j < i ==> contains_str(keys@, (#[trigger] self.map@[j]).0@),
            decreases self.map@.len() - i,
        {
            let lang = &self.map[i].0;
            let ghost old_keys = keys@;
            if !contains_exec(&keys, lang) {
                proof {
                    lemma_legacy_lookup_at(map_views(self.map@), i as int);
                    assert(map_views(self.map@)[i as int].0 == lang@);
                }
                keys.push(lang.clone());
                proof {
                    lemma_contains_pushed(old_keys, keys@.last());
                    assert forall|j: int|
                        0 <= j < i implies contains_str(keys@, (#[trigger] self.map@[j]).0@) by {
                        lemma_contains_after_push(old_keys, keys@.last(), self.map@[j].0@);
                    }
                    assert forall|p: int, q: int|
                        0 <= p < q < keys@.len() implies (#[trigger] keys@[p])@ != (
                    #[trigger] keys@[q])@ by {
                        if q == keys@.len() - 1 {
                            assert(keys@[p] == old_keys[p]);
                            assert(!contains_str(old_keys, keys@[q]@));
                        } else {
                            assert(keys@[p] == old_keys[p] && keys@[q] == old_keys[q]);
                        }
                    }
                }
            }
            proof {
                assert(contains_str(keys@, self.map@[i as int].0@));
            }
            i += 1;
        }
        let mut i2: usize = 0;
        while i2 < self.voices_map.len()
            invariant
                i2 <= self.voices_map@.len(),
                forall|p: int, q: int|
                    0 <= p < q < keys@.len() ==> (#[trigger] keys@[p])@ != (#[trigger] keys@[q])@,
                forall|x: int| 0 <= x < keys@.len() ==> self.knows_lang((#[trigger] keys@[x])@),
                forall|j: int|
                    0 <= j < self.map@.len() ==> contains_str(keys@, (#[trigger] self.map@[j]).0@),
                forall|j: int|
                    0 <= j < i2 ==> contains_str(keys@, (#[trigger] self.voices_map@[j]).0@),
            decreases self.voices_map@.len() - i2,
        {
            let lang = &self.voices_map[i2].0;
            let ghost old_keys = keys@;
            if !contains_exec(&keys, lang) {
                proof {
                    lemma_rich_lookup_at(vm_views(self.voices_map@), i2 as int);
                    assert(vm_views(self.voices_map@)[i2 as int].0 == lang@);
                }
                keys.push(lang.clone());
                proof {
                    lemma_contains_pushed(old_keys, keys@.last());
                    assert forall|j: int|
                        0 <= j < self.map@.len() implies contains_str(
                        keys@,
                        (#[trigger] self.map@[j]).0@,
                    ) by {
                        lemma_contains_after_push(old_keys, keys@.last(), self.map@[j].0@);
                    }
                    assert forall|j: int|
                        0 <= j < i2 implies contains_str(
                        keys@,
                        (#[trigger] self.voices_map@[j]).0@,
                    ) by {
                        lemma_contains_after_push(old_keys, keys@.last(), self.voices_map@[j].0@);
                    }
                    assert forall|p: int, q: int|
                        0 <= p < q < keys@.len() implies (#[trigger] keys@[p])@ != (
                    #[trigger] keys@[q])@ by {
                        if q == keys@.len() - 1 {
                            assert(keys@[p] == old_keys[p]);
                            assert(!contains_str(old_keys, keys@[q]@));
                        } else {
                            assert(keys@[p] == old_keys[p] && keys@[q] == old_keys[q]);
                        }
                    }
                }
            }
            proof {
                assert(contains_str(keys@, self.voices_map@[i2 as int].0@));
            }
            i2 += 1;
        }
        let out = sort_strings(&keys);
        proof {
            assert forall|j: int|
                0 <= j < self.map@.len() implies contains_str(
                out@,
                (#[trigger] self.map@[j]).0@,
            ) by {
                let k0 = choose|k0: int|
                    0 <= k0 < keys@.len() && (#[trigger] keys@[k0])@ == self.map@[j].0@;
                assert(contains_str(out@, keys@[k0]@));
            }
            assert forall|j: int|
                0 <= j < self.voices_map@.len() implies contains_str(
                out@,
                (#[trigger] self.voices_map@[j]).0@,
            ) by {
                let k0 = choose|k0: int|
                    0 <= k0 < keys@.len() && (#[trigger] keys@[k0])@ == self.voices_map@[j].0@;
                assert(contains_str(out@, keys@[k0]@));
            }
            assert forall|x: int|
                0 <= x < out@.len() implies self.knows_lang((#[trigger] out@[x])@) by {
                let k0 = choose|k0: int| 0 <= k0 < keys@.len() && (#[trigger] keys@[k0])@ == out@[x]@;
                assert(self.knows_lang(keys@[k0]@));
            }
        }
        out
    }

    /// The voices of a language, as `(voice id, voice)` pairs; empty
    /// for a language without a rich binding.
    pub fn list_voices_for_language(&self, lang: &str) -> (voices: Vec<(String, VoiceEntry)>)
        ensures
            match rich_lookup(vm_views(self.voices_map@), lang@) {
                Some(b) => voices_views(voices@) == b.1,
                None => voices@.len() == 0,
            },
    {
        match find_rich(&self.voices_map, lang) {
            Some(binding) => {
                let copy = binding.clone();
                copy.voices
            },
            None => Vec::new(),
        }
    }

    /// The default voice id of a language with a rich binding.
    pub fn get_default_voice(&self, lang: &str) -> (voice: Option<String>)
        ensures
            match rich_lookup(vm_views(self.voices_map@), lang@) {
                Some(b) => (voice matches Some(v) && v@ == b.0),
                None => voice is None,
            },
    {
        match find_rich(&self.voices_map, lang) {
            Some(binding) => Some(binding.default_voice.clone()),
            None => None,
        }
    }

    /// Encode mono 16-bit PCM as a WAV container, base64-encoded.
    pub fn encode_wav_base64(samples: &Vec<i16>, sample_rate: u32) -> (encoded: String)
        requires
            samples@.len() <= crate::wav::MAX_WAV_SAMPLES,
            sample_rate <= crate::wav::MAX_WAV_SAMPLE_RATE,
        ensures
            encoded@ == crate::wav::base64_of(crate::wav::wav_bytes(samples@, sample_rate)),
    {
        crate::wav::encode_wav_base64(samples, sample_rate)
    }

    /// The raw legacy mapping, as `(language, entry)` pairs.
    pub fn map_iter(&self) -> (entries: Vec<(String, MapEntry)>)
        ensures
            map_views(entries@) == map_views(self.map@),
    {
        let mut entries: Vec<(String, MapEntry)> = Vec::new();
        let mut i: usize = 0;
        while i < self.map.len()
            invariant
                i <= self.map@.len(),
                map_views(entries@) == map_views(self.map@).take(i as int),
            decreases self.map@.len() - i,
        {
            let p = &self.map[i];
            let ghost prev = entries@;
            entries.push((p.0.clone(), p.1.clone()));
            proof {
                assert(map_views(entries@) =~= map_views(prev).push(
                    (entries@.last().0@, (entries@.last().1.config@, entries@.last().1.default_speaker)),
                ));
                assert(map_views(entries@) =~= map_views(self.map@).take(i + 1));
            }
            i += 1;
        }
        proof {
            assert(map_views(self.map@).take(self.map@.len() as int) =~= map_views(self.map@));
        }
        entries
    }

    /// Resolve `(language, voice)` to a model-config path and the
    /// speaker to use: the rich map decides first, with the requested
    /// voice or the binding's default; the legacy map answers the
    /// rest.  An unknown voice or language is an error.
    pub fn config_for(&self, lang_opt: Option<&str>, voice_opt: Option<&str>) -> (result: Result<
        (String, Option<i64>),
        String,
    >)
        ensures
            ({
                let lang = effective_lang(match lang_opt {
                    Some(l) => Some(l@),
                    None => None,
                });
                let res = resolution(
                    map_views(self.map@),
                    vm_views(self.voices_map@),
                    lang,
                    match voice_opt {
                        Some(v) => Some(v@),
                        None => None,
                    },
                );
                &&& (result is Ok <==> res is Some)
                &&& (result matches Ok(r) ==> res == Some((r.0@, r.1)))
            }),
    {
        let lang: &str = match lang_opt {
            Some(l) => l,
            None => "de_DE",
        };
        match find_rich(&self.voices_map, lang) {
            Some(binding) => {
                let vid: &str = match voice_opt {
                    Some(v) => v,
                    None => binding.default_voice.as_str(),
                };
                match find_voice(&binding.voices, vid) {
                    Some(ve) => Ok((ve.config.clone(), clone_speaker(&ve.speaker_id))),
                    None => {
                        let mut m = String::from_str("Unknown voice '");
                        m.append(vid);
                        m.append("' for language '");
                        m.append(lang);
                        m.append("'. Available voices: ");
                        let mut i: usize = 0;
                        while i < binding.voices.len()
                            invariant
                                i <= binding.voices@.len(),
                            decreases binding.voices@.len() - i,
                        {
                            if i > 0 {
                                m.append(", ");
                            }
                            m.append(binding.voices[i].0.as_str());
                            i += 1;
                        }
                        Err(m)
                    },
                }
            },
            None => {
                match find_legacy(&self.map, lang) {
                    Some(me) => Ok((me.config.clone(), clone_speaker(&me.default_speaker))),
                    None => {
                        let mut m = String::from_str("Unknown language key: ");
                        m.append(lang);
                        m.append(". Use /voices to list.");
                        Err(m)
                    },
                }
            },
        }
    }
}

fn clone_speaker(o: &Option<i64>) -> (r: Option<i64>)
    ensures
        r == *o,
{
    match o {
        Some(v) => Some(*v),
        None => None,
    }
}

/// The first rich binding whose key has the content of `lang`.
fn find_rich<'a>(vm: &'a Vec<(String, LanguageBinding)>, lang: &str) -> (found: Option<
    &'a LanguageBinding,
>)
    ensures
        found matches Some(b) ==> rich_lookup(vm_views(vm@), lang@) == Some(binding_view(*b)),
        found is None ==> rich_lookup(vm_views(vm@), lang@) is None,
{
    let ghost w = vm_views(vm@);
    let n = vm.len();
    let mut i: usize = 0;
    proof {
        assert(w.skip(0) =~= w);
    }
    while i < n
        invariant
            i <= n,
            n == vm@.len(),
            w == vm_views(vm@),
            rich_lookup(w, lang@) == rich_lookup(w.skip(i as int), lang@),
        decreases n - i,
    {
        if vm[i].0.as_str().eq(lang) {
            proof {
                assert(w.skip(i as int).first() == w[i as int]);
            }
            return Some(&vm[i].1);
        }
        proof {
            assert(w.skip(i as int).first() == w[i as int]);
            assert(w.skip(i as int).drop_first() =~= w.skip(i + 1));
        }
        i += 1;
    }
    proof {
        assert(w.skip(n as int) =~= Seq::<(Seq<char>, BindingView)>::empty());
    }
    None
}

/// The first legacy entry whose key has the content of `lang`.
fn find_legacy<'a>(m: &'a Vec<(String, MapEntry)>, lang: &str) -> (found: Option<&'a MapEntry>)
    ensures
        found matches Some(e) ==> legacy_lookup(map_views(m@), lang@) == Some(
            (e.config@, e.default_speaker),
        ),
        found is None ==> legacy_lookup(map_views(m@), lang@) is None,
{
    let ghost w = map_views(m@);
    let n = m.len();
    let mut i: usize = 0;
    proof {
        assert(w.skip(0) =~= w);
    }
    while i < n
        invariant
            i <= n,
            n == m@.len(),
            w == map_views(m@),
            legacy_lookup(w, lang@) == legacy_lookup(w.skip(i as int), lang@),
        decreases n - i,
    {
        if m[i].0.as_str().eq(lang) {
            proof {
                assert(w.skip(i as int).first() == w[i as int]);
            }
            return Some(&m[i].1);
        }
        proof {
            assert(w.skip(i as int).first() == w[i as int]);
            assert(w.skip(i as int).drop_first() =~= w.skip(i + 1));
        }
        i += 1;
    }
    proof {
        assert(w.skip(n as int) =~= Seq::<(Seq<char>, (Seq<char>, Option<i64>))>::empty());
    }
    None
}

/// The first voice whose id has the content of `id`.
fn find_voice<'a>(vs: &'a Vec<(String, VoiceEntry)>, id: &str) -> (found: Option<&'a VoiceEntry>)
    ensures
        found matches Some(v) ==> voice_lookup(voices_views(vs@), id@) == Some(
            crate::registry::voice_view(*v),
        ),
        found is None ==> voice_lookup(voices_views(vs@), id@) is None,
{
    let ghost w = voices_views(vs@);
    let n = vs.len();
    let mut i: usize = 0;
    proof {
        assert(w.skip(0) =~= w);
    }
    while i < n
        invariant
            i <= n,
            n == vs@.len(),
            w == voices_views(vs@),
            voice_lookup(w, id@) == voice_lookup(w.skip(i as int), id@),
        decreases n - i,
    {
        if vs[i].0.as_str().eq(id) {
            proof {
                assert(w.skip(i as int).first() == w[i as int]);
            }
            return Some(&vs[i].1);
        }
        proof {
            assert(w.skip(i as int).first() == w[i as int]);
            assert(w.skip(i as int).drop_first() =~= w.skip(i + 1));
        }
        i += 1;
    }
    proof {
        assert(w.skip(n as int) =~= Seq::<(Seq<char>, VoiceView)>::empty());
    }
    None
}

/// A language key at index `i` of the legacy map is found by
/// `legacy_lookup`.
pub proof fn lemma_legacy_lookup_at(m: MapView, i: int)
    requires
        0 <= i < m.len(),
    ensures
        legacy_lookup(m, m[i].0) is Some,
    decreases i,
{
    if m.first().0 == m[i].0 {
    } else {
        lemma_legacy_lookup_at(m.drop_first(), i - 1);
    }
}

/// A language key at index `i` of the rich map is found by
/// `rich_lookup`.
pub proof fn lemma_rich_lookup_at(vm: VoicesMapView, i: int)
    requires
        0 <= i < vm.len(),
    ensures
        rich_lookup(vm, vm[i].0) is Some,
    decreases i,
{
    if vm.first().0 == vm[i].0 {
    } else {
        lemma_rich_lookup_at(vm.drop_first(), i - 1);
    }
}

} // verus!
