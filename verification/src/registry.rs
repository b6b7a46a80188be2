//! Voice registry: the language → voice → model-config mapping.
//!
//! The registry is loaded from a JSON voice-map file with two entry
//! forms.  Legacy: `lang: "<path>"` or `lang: { config, default_speaker? }`.
//! Rich: `lang: { default_voice, voices: { id: { config, speaker_id?,
//! display_name?, gender?, quality? } } }`.  Reading and JSON-parsing
//! the file happen outside the library; the shape validation and the
//! construction of the mapping are verified here, over a plain JSON
//! model.

use vstd::prelude::*;

verus! {

/// A JSON value, as far as the voice map reads one.  Numbers that do
/// not fit `i64` are modelled as `Null`; the registry treats both as
/// absent values.
#[derive(Debug)]
pub enum JsonValue {
    Null,
    Bool(bool),
    Int(i64),
    Str(String),
    Arr(Vec<JsonValue>),
    Obj(Vec<(String, JsonValue)>),
}

/// A legacy mapping target: a model-config path and an optional
/// default speaker.
#[derive(Debug)]
pub struct MapEntry {
    pub config: String,
    pub default_speaker: Option<i64>,
}

/// One voice of a language.
#[derive(Debug)]
pub struct VoiceEntry {
    pub config: String,
    pub speaker_id: Option<i64>,
    pub display_name: Option<String>,
    pub gender: Option<String>,
    pub quality: Option<String>,
}

/// A language's rich binding: its default voice id and its voices.
#[derive(Debug)]
pub struct LanguageBinding {
    pub default_voice: String,
    pub voices: Vec<(String, VoiceEntry)>,
}

/// The view of an option of a string.
pub open spec fn opt_str_view(o: Option<String>) -> Option<Seq<char>> {
    match o {
        Some(s) => Some(s@),
        None => None,
    }
}

/// The view of a voice: config, speaker id, display name, gender,
/// quality.
pub type VoiceView = (Seq<char>, Option<i64>, Option<Seq<char>>, Option<Seq<char>>, Option<
    Seq<char>,
>);

/// The view of a rich binding: default voice and voices in order.
pub type BindingView = (Seq<char>, Seq<(Seq<char>, VoiceView)>);

/// The view of the legacy map: language to config and speaker.
pub type MapView = Seq<(Seq<char>, (Seq<char>, Option<i64>))>;

/// The view of the rich map: language to binding.
pub type VoicesMapView = Seq<(Seq<char>, BindingView)>;

pub open spec fn voice_view(v: VoiceEntry) -> VoiceView {
    (v.config@, v.speaker_id, opt_str_view(v.display_name), opt_str_view(v.gender), opt_str_view(
        v.quality,
    ))
}

pub open spec fn voices_views(vs: Seq<(String, VoiceEntry)>) -> Seq<(Seq<char>, VoiceView)> {
    vs.map_values(|p: (String, VoiceEntry)| (p.0@, voice_view(p.1)))
}

pub open spec fn binding_view(b: LanguageBinding) -> BindingView {
    (b.default_voice@, voices_views(b.voices@))
}

pub open spec fn map_views(m: Seq<(String, MapEntry)>) -> MapView {
    m.map_values(|p: (String, MapEntry)| (p.0@, (p.1.config@, p.1.default_speaker)))
}

pub open spec fn vm_views(m: Seq<(String, LanguageBinding)>) -> VoicesMapView {
    m.map_values(|p: (String, LanguageBinding)| (p.0@, binding_view(p.1)))
}

impl Clone for MapEntry {
    /// An equal-viewed copy.
    fn clone(&self) -> (other: Self)
        ensures
            other.config@ == self.config@,
            other.default_speaker == self.default_speaker,
    {
        MapEntry { config: self.config.clone(), default_speaker: clone_opt_i64(&self.default_speaker) }
    }
}

fn clone_opt_i64(o: &Option<i64>) -> (r: Option<i64>)
    ensures
        r == *o,
{
    match o {
        Some(v) => Some(*v),
        None => None,
    }
}

fn clone_opt_string(o: &Option<String>) -> (r: Option<String>)
    ensures
        opt_str_view(r) == opt_str_view(*o),
{
    match o {
        Some(s) => Some(s.clone()),
        None => None,
    }
}

impl Clone for VoiceEntry {
    /// An equal-viewed copy.
    fn clone(&self) -> (other: Self)
        ensures
            voice_view(other) == voice_view(*self),
    {
        VoiceEntry {
            config: self.config.clone(),
            speaker_id: clone_opt_i64(&self.speaker_id),
            display_name: clone_opt_string(&self.display_name),
            gender: clone_opt_string(&self.gender),
            quality: clone_opt_string(&self.quality),
        }
    }
}

impl Clone for LanguageBinding {
    /// An equal-viewed copy.
    fn clone(&self) -> (other: Self)
        ensures
            binding_view(other) == binding_view(*self),
    {
        let mut voices: Vec<(String, VoiceEntry)> = Vec::new();
        let mut i: usize = 0;
        while i < self.voices.len()
            invariant
                i <= self.voices@.len(),
                voices_views(voices@) == voices_views(self.voices@).take(i as int),
            decreases self.voices@.len() - i,
        {
            let p = &self.voices[i];
            let ghost prev = voices@;
            voices.push((p.0.clone(), p.1.clone()));
            proof {
                assert(voices_views(voices@) =~= voices_views(prev).push(
                    (voices@.last().0@, voice_view(voices@.last().1)),
                ));
                assert((voices@.last().0@, voice_view(voices@.last().1)) == voices_views(
                    self.voices@,
                )[i as int]);
                assert(voices_views(voices@) =~= voices_views(self.voices@).take(i + 1));
            }
            i += 1;
        }
        proof {
            assert(voices_views(self.voices@).take(self.voices@.len() as int) =~= voices_views(
                self.voices@,
            ));
            assert(voices_views(voices@) =~= voices_views(self.voices@));
        }
        LanguageBinding { default_voice: self.default_voice.clone(), voices }
    }
}

/// The value of the first field named `k` in a JSON object's fields.
pub open spec fn obj_get(fs: Seq<(String, JsonValue)>, k: Seq<char>) -> Option<JsonValue>
    decreases fs.len(),
{
    if fs.len() == 0 {
        None
    } else if fs.first().0@ == k {
        Some(fs.first().1)
    } else {
        obj_get(fs.drop_first(), k)
    }
}

/// The string content of an optional JSON value.
pub open spec fn as_str_opt(v: Option<JsonValue>) -> Option<Seq<char>> {
    match v {
        Some(JsonValue::Str(s)) => Some(s@),
        _ => None,
    }
}

/// The integer content of an optional JSON value.
pub open spec fn as_int_opt(v: Option<JsonValue>) -> Option<i64> {
    match v {
        Some(JsonValue::Int(n)) => Some(n),
        _ => None,
    }
}

/// The parse of one voice object: present iff `config` is a string.
pub open spec fn parse_voice(vo: Seq<(String, JsonValue)>) -> Option<VoiceView> {
    match as_str_opt(obj_get(vo, "config"@)) {
        Some(cfg) => Some(
            (
                cfg,
                as_int_opt(obj_get(vo, "speaker_id"@)),
                as_str_opt(obj_get(vo, "display_name"@)),
                as_str_opt(obj_get(vo, "gender"@)),
                as_str_opt(obj_get(vo, "quality"@)),
            ),
        ),
        None => None,
    }
}

/// The parse of a `voices` object: object-valued fields must parse,
/// other fields are skipped.
pub open spec fn parse_voices(vs: Seq<(String, JsonValue)>) -> Option<Seq<(Seq<char>, VoiceView)>>
    decreases vs.len(),
{
    if vs.len() == 0 {
        Some(Seq::empty())
    } else {
        match vs.first().1 {
            JsonValue::Obj(vo) => match parse_voice(vo@) {
                Some(vv) => match parse_voices(vs.drop_first()) {
                    Some(rest) => Some(seq![(vs.first().0@, vv)] + rest),
                    None => None,
                },
                None => None,
            },
            _ => parse_voices(vs.drop_first()),
        }
    }
}

/// The first voice with the given id.
pub open spec fn voice_lookup(vs: Seq<(Seq<char>, VoiceView)>, id: Seq<char>) -> Option<VoiceView>
    decreases vs.len(),
{
    if vs.len() == 0 {
        None
    } else if vs.first().0 == id {
        Some(vs.first().1)
    } else {
        voice_lookup(vs.drop_first(), id)
    }
}

/// A rich entry: an object with a `voices` field.
pub open spec fn is_rich(v: JsonValue) -> bool {
    match v {
        JsonValue::Obj(o) => obj_get(o@, "voices"@) is Some,
        _ => false,
    }
}

/// The parse of a rich entry: the binding, and the legacy map entry
/// derived from its default voice, which must name one of its
/// voices.
pub open spec fn parse_rich(o: Seq<(String, JsonValue)>) -> Option<
    (BindingView, (Seq<char>, Option<i64>)),
> {
    match as_str_opt(obj_get(o, "default_voice"@)) {
        Some(dv) => match obj_get(o, "voices"@) {
            Some(JsonValue::Obj(vo)) => match parse_voices(vo@) {
                Some(vs) => match voice_lookup(vs, dv) {
                    Some(v) => Some(((dv, vs), (v.0, v.1))),
                    None => None,
                },
                None => None,
            },
            _ => None,
        },
        None => None,
    }
}

/// The parse of a legacy entry: a config-path string, or an object
/// whose `config` is a string.
pub open spec fn parse_legacy(v: JsonValue) -> Option<(Seq<char>, Option<i64>)> {
    match v {
        JsonValue::Str(p) => Some((p@, None)),
        JsonValue::Obj(o) => match as_str_opt(obj_get(o@, "config"@)) {
            Some(c) => Some((c, as_int_opt(obj_get(o@, "default_speaker"@)))),
            None => None,
        },
        _ => None,
    }
}

/// The parse of all map entries, in order.
pub open spec fn parse_entries(es: Seq<(String, JsonValue)>) -> Option<(MapView, VoicesMapView)>
    decreases es.len(),
{
    if es.len() == 0 {
        Some((Seq::empty(), Seq::empty()))
    } else {
        let lang = es.first().0@;
        let v = es.first().1;
        if is_rich(v) {
            match v {
                JsonValue::Obj(o) => match parse_rich(o@) {
                    Some(pr) => match parse_entries(es.drop_first()) {
                        Some(rest) => Some(
                            (seq![(lang, pr.1)] + rest.0, seq![(lang, pr.0)] + rest.1),
                        ),
                        None => None,
                    },
                    None => None,
                },
                _ => None,
            }
        } else {
            match parse_legacy(v) {
                Some(me) => match parse_entries(es.drop_first()) {
                    Some(rest) => Some((seq![(lang, me)] + rest.0, rest.1)),
                    None => None,
                },
                None => None,
            }
        }
    }
}

/// The parse of a whole voice-map document: it must be an object.
pub open spec fn parse_registry_spec(j: JsonValue) -> Option<(MapView, VoicesMapView)> {
    match j {
        JsonValue::Obj(es) => parse_entries(es@),
        _ => None,
    }
}

fn obj_get_exec<'a>(fs: &'a Vec<(String, JsonValue)>, k: &String) -> (found: Option<
    &'a JsonValue,
>)
    ensures
        found matches Some(v) ==> obj_get(fs@, k@) == Some(*v),
        found is None ==> obj_get(fs@, k@) is None,
{
    let n = fs.len();
    let mut i: usize = 0;
    proof {
        assert(fs@.skip(0) =~= fs@);
    }
    while i < n
        invariant
            i <= n,
            n == fs@.len(),
            obj_get(fs@, k@) == obj_get(fs@.skip(i as int), k@),
        decreases n - i,
    {
        if fs[i].0.eq(k) {
            proof {
                assert(fs@.skip(i as int).first() == fs@[i as int]);
            }
            return Some(&fs[i].1);
        }
        proof {
            assert(fs@.skip(i as int).drop_first() =~= fs@.skip(i + 1));
        }
        i += 1;
    }
    proof {
        assert(fs@.skip(n as int) =~= Seq::<(String, JsonValue)>::empty());
    }
    None
}

fn as_str_exec<'a>(v: Option<&'a JsonValue>) -> (s: Option<&'a String>)
    ensures
        match v {
            Some(jv) => match s {
                Some(st) => as_str_opt(Some(*jv)) == Some(st@),
                None => as_str_opt(Some(*jv)) is None,
            },
            None => s is None,
        },
{
    match v {
        Some(JsonValue::Str(st)) => Some(st),
        _ => None,
    }
}

fn as_int_exec(v: Option<&JsonValue>) -> (n: Option<i64>)
    ensures
        match v {
            Some(jv) => n == as_int_opt(Some(*jv)),
            None => n is None,
        },
{
    match v {
        Some(JsonValue::Int(x)) => Some(*x),
        _ => None,
    }
}


fn clone_str_opt_ref(s: Option<&String>) -> (r: Option<String>)
    ensures
        match s {
            Some(x) => opt_str_view(r) == Some(x@),
            None => r is None,
        },
{
    match s {
        Some(x) => Some(x.clone()),
        None => None,
    }
}

pub(crate) fn voice_lookup_exec<'a>(vs: &'a Vec<(String, VoiceEntry)>, id: &String) -> (found: Option<
    &'a VoiceEntry,
>)
    ensures
        found matches Some(v) ==> voice_lookup(voices_views(vs@), id@) == Some(voice_view(*v)),
        found is None ==> voice_lookup(voices_views(vs@), id@) is None,
{
    let ghost w = voices_views(vs@);
    let n = vs.len();
    let mut i: usize = 0;
    proof {
        assert(w.skip(0) =~= w);
    }
    while i < n
        invariant
            i <= n,
            n == vs@.len(),
            w == voices_views(vs@),
            voice_lookup(w, id@) == voice_lookup(w.skip(i as int), id@),
        decreases n - i,
    {
        if vs[i].0.eq(id) {
            proof {
                assert(w.skip(i as int).first() == w[i as int]);
            }
            return Some(&vs[i].1);
        }
        proof {
            assert(w.skip(i as int).first() == w[i as int]);
            assert(w.skip(i as int).drop_first() =~= w.skip(i + 1));
        }
        i += 1;
    }
    proof {
        assert(w.skip(n as int) =~= Seq::<(Seq<char>, VoiceView)>::empty());
    }
    None
}

/// Build the registry from a parsed voice-map document: the legacy
/// map and the rich voices map, in document order.  Exactly the
/// documents accepted by `parse_registry_spec` are accepted, and the
/// result is its parse.
#[verifier::loop_isolation(false)]
pub fn parse_registry(json: &JsonValue) -> (result: Result<
    (Vec<(String, MapEntry)>, Vec<(String, LanguageBinding)>),
    String,
>)
    ensures
        result is Ok <==> parse_registry_spec(*json) is Some,
        result matches Ok(r) ==> parse_registry_spec(*json) == Some(
            (map_views(r.0@), vm_views(r.1@)),
        ),
{
    let entries = match json {
        JsonValue::Obj(es) => es,
        _ => {
            return Err(String::from_str("map.json must be a JSON object"));
        },
    };
    let ghost es = entries@;
    proof {
        assert(parse_registry_spec(*json) == parse_entries(es));
        assert(es.skip(0) =~= es);
    }
    let n = entries.len();
    let mut map: Vec<(String, MapEntry)> = Vec::new();
    let mut vm: Vec<(String, LanguageBinding)> = Vec::new();
    let mut i: usize = 0;
    while i < n
        invariant
            i <= n,
            n == es.len(),
            es == entries@,
            parse_registry_spec(*json) == parse_entries(es),
            match parse_entries(es.skip(i as int)) {
                Some(rest) => parse_entries(es) == Some(
                    (map_views(map@) + rest.0, vm_views(vm@) + rest.1),
                ),
                None => parse_entries(es) is None,
            },
        decreases n - i,
    {
        let ghost s_i = es.skip(i as int);
        proof {
            assert(s_i.first() == es[i as int]);
            assert(s_i.drop_first() =~= es.skip(i + 1));
        }
        let lang = &entries[i].0;
        let v = &entries[i].1;
        let ghost old_map = map@;
        let ghost old_vm = vm@;
        match v {
            JsonValue::Str(p) => {
                proof {
                    assert(!is_rich(es[i as int].1));
                    assert(parse_legacy(es[i as int].1) == Some((p@, None::<i64>)));
                }
                map.push((lang.clone(), MapEntry { config: p.clone(), default_speaker: None }));
                proof {
                    assert(map_views(map@) =~= map_views(old_map).push((es[i as int].0@, (p@, None::<i64>))));
                    if let Some(rest) = parse_entries(es.skip(i + 1)) {
                        assert(parse_entries(s_i) == Some(
                            (seq![(es[i as int].0@, (p@, None::<i64>))] + rest.0, rest.1),
                        ));
                        assert(map_views(map@) + rest.0 =~= map_views(old_map) + (seq![
                            (es[i as int].0@, (p@, None::<i64>)),
                        ] + rest.0));
                    } else {
                        assert(parse_entries(s_i) is None);
                    }
                }
            },
            JsonValue::Obj(o) => {
                let voices_key = String::from_str("voices");
                let voices_field = obj_get_exec(o, &voices_key);
                match voices_field {
                    Some(vf) => {
                        // rich entry
                        proof {
                            assert(is_rich(es[i as int].1));
                        }
                        let dv_field = as_str_exec(obj_get_exec(o, &String::from_str("default_voice")));
                        let dv = match dv_field {
                            Some(s) => s,
                            None => {
                                proof {
                                    assert(parse_rich(o@) is None);
                                    assert(parse_entries(s_i) is None);
                                }
                                let mut m = String::from_str("missing 'default_voice' for language ");
                                m.append(lang.as_str());
                                return Err(m);
                            },
                        };
                        let vo = match vf {
                            JsonValue::Obj(vo) => vo,
                            _ => {
                                proof {
                                    assert(parse_rich(o@) is None);
                                    assert(parse_entries(s_i) is None);
                                }
                                let mut m = String::from_str("missing 'voices' object for language ");
                                m.append(lang.as_str());
                                return Err(m);
                            },
                        };
                        proof {
                            assert(obj_get(o@, "voices"@) == Some(JsonValue::Obj(*vo)));
                        }
                        // collect the voices
                        let mut voices: Vec<(String, VoiceEntry)> = Vec::new();
                        let vn = vo.len();
                        let mut j: usize = 0;
                        proof {
                            assert(vo@.skip(0) =~= vo@);
                        }
                        while j < vn
                            invariant
                                j <= vn,
                                vn == vo@.len(),
                                match parse_voices(vo@.skip(j as int)) {
                                    Some(rest) => parse_voices(vo@) == Some(
                                        voices_views(voices@) + rest,
                                    ),
                                    None => parse_voices(vo@) is None,
                                },
                            decreases vn - j,
                        {
                            let ghost v_j = vo@.skip(j as int);
                            proof {
                                assert(v_j.first() == vo@[j as int]);
                                assert(v_j.drop_first() =~= vo@.skip(j + 1));
                            }
                            let voice_id = &vo[j].0;
                            let ghost old_voices = voices@;
                            match &vo[j].1 {
                                JsonValue::Obj(vfields) => {
                                    let cfg = match as_str_exec(
                                        obj_get_exec(vfields, &String::from_str("config")),
                                    ) {
                                        Some(c) => c,
                                        None => {
                                            proof {
                                                assert(parse_voice(vfields@) is None);
                                                assert(parse_voices(v_j) is None);
                                                assert(parse_voices(vo@) is None);
                                                assert(as_str_opt(obj_get(o@, "default_voice"@))
                                                    == Some(dv@));
                                                assert(obj_get(o@, "voices"@) == Some(
                                                    JsonValue::Obj(*vo),
                                                ));
                                                assert(parse_rich(o@) is None);
                                                assert(parse_entries(s_i) is None);
                                            }
                                            let mut m = String::from_str("missing 'config' for voice ");
                                            m.append(voice_id.as_str());
                                            return Err(m);
                                        },
                                    };
                                    let entry = VoiceEntry {
                                        config: cfg.clone(),
                                        speaker_id: as_int_exec(
                                            obj_get_exec(vfields, &String::from_str("speaker_id")),
                                        ),
                                        display_name: clone_str_opt_ref(
                                            as_str_exec(
                                                obj_get_exec(
                                                    vfields,
                                                    &String::from_str("display_name"),
                                                ),
                                            ),
                                        ),
                                        gender: clone_str_opt_ref(
                                            as_str_exec(
                                                obj_get_exec(vfields, &String::from_str("gender")),
                                            ),
                                        ),
                                        quality: clone_str_opt_ref(
                                            as_str_exec(
                                                obj_get_exec(vfields, &String::from_str("quality")),
                                            ),
                                        ),
                                    };
                                    proof {
                                        assert(parse_voice(vfields@) == Some(voice_view(entry)));
                                    }
                                    voices.push((voice_id.clone(), entry));
                                    proof {
                                        assert(voices_views(voices@) =~= voices_views(
                                            old_voices,
                                        ).push((vo@[j as int].0@, voice_view(voices@.last().1))));
                                        if let Some(rest) = parse_voices(vo@.skip(j + 1)) {
                                            assert(parse_voices(v_j) == Some(
                                                seq![
                                                    (vo@[j as int].0@, voice_view(voices@.last().1)),
                                                ] + rest,
                                            ));
                                            assert(voices_views(voices@) + rest =~= voices_views(
                                                old_voices,
                                            ) + (seq![
                                                (vo@[j as int].0@, voice_view(voices@.last().1)),
                                            ] + rest));
                                        } else {
                                            assert(parse_voices(v_j) is None);
                                        }
                                    }
                                },
                                _ => {
                                    proof {
                                        assert(parse_voices(v_j) == parse_voices(vo@.skip(j + 1)));
                                    }
                                },
                            }
                            j += 1;
                        }
                        proof {
                            assert(vo@.skip(vn as int) =~= Seq::<(String, JsonValue)>::empty());
                            assert(parse_voices(vo@.skip(vn as int)) == Some(
                                Seq::<(Seq<char>, VoiceView)>::empty(),
                            ));
                            assert(parse_voices(vo@) == Some(
                                voices_views(voices@) + Seq::<(Seq<char>, VoiceView)>::empty(),
                            ));
                            assert(voices_views(voices@) + Seq::<(Seq<char>, VoiceView)>::empty()
                                =~= voices_views(voices@));
                        }
                        // the default voice must name one of the voices
                        let default_entry = match voice_lookup_exec(&voices, dv) {
                            Some(e) => e,
                            None => {
                                proof {
                                    assert(parse_rich(o@) is None);
                                    assert(parse_entries(s_i) is None);
                                }
                                let mut m = String::from_str("unknown default voice '");
                                m.append(dv.as_str());
                                m.append("' for language '");
                                m.append(lang.as_str());
                                m.append("'");
                                return Err(m);
                            },
                        };
                        let map_entry = MapEntry {
                            config: default_entry.config.clone(),
                            default_speaker: clone_opt_i64(&default_entry.speaker_id),
                        };
                        let ghost me_view = (map_entry.config@, map_entry.default_speaker);
                        let binding = LanguageBinding { default_voice: dv.clone(), voices };
                        let ghost b_view = binding_view(binding);
                        proof {
                            assert(parse_rich(o@) == Some((b_view, me_view)));
                        }
                        map.push((lang.clone(), map_entry));
                        vm.push((lang.clone(), binding));
                        proof {
                            assert(map_views(map@) =~= map_views(old_map).push(
                                (es[i as int].0@, me_view),
                            ));
                            assert(vm_views(vm@) =~= vm_views(old_vm).push(
                                (es[i as int].0@, b_view),
                            ));
                            if let Some(rest) = parse_entries(es.skip(i + 1)) {
                                assert(parse_entries(s_i) == Some(
                                    (
                                        seq![(es[i as int].0@, me_view)] + rest.0,
                                        seq![(es[i as int].0@, b_view)] + rest.1,
                                    ),
                                ));
                                assert(map_views(map@) + rest.0 =~= map_views(old_map) + (seq![
                                    (es[i as int].0@, me_view),
                                ] + rest.0));
                                assert(vm_views(vm@) + rest.1 =~= vm_views(old_vm) + (seq![
                                    (es[i as int].0@, b_view),
                                ] + rest.1));
                            } else {
                                assert(parse_entries(s_i) is None);
                            }
                        }
                    },
                    None => {
                        // legacy object entry
                        proof {
                            assert(!is_rich(es[i as int].1));
                        }
                        let cfg = match as_str_exec(obj_get_exec(o, &String::from_str("config"))) {
                            Some(c) => c,
                            None => {
                                proof {
                                    assert(parse_legacy(es[i as int].1) is None);
                                    assert(parse_entries(s_i) is None);
                                }
                                let mut m = String::from_str("missing 'config' for key ");
                                m.append(lang.as_str());
                                return Err(m);
                            },
                        };
                        let spk = as_int_exec(obj_get_exec(o, &String::from_str("default_speaker")));
                        let map_entry = MapEntry { config: cfg.clone(), default_speaker: spk };
                        let ghost me_view = (map_entry.config@, map_entry.default_speaker);
                        proof {
                            assert(parse_legacy(es[i as int].1) == Some(me_view));
                        }
                        map.push((lang.clone(), map_entry));
                        proof {
                            assert(map_views(map@) =~= map_views(old_map).push(
                                (es[i as int].0@, me_view),
                            ));
                            if let Some(rest) = parse_entries(es.skip(i + 1)) {
                                assert(parse_entries(s_i) == Some(
                                    (seq![(es[i as int].0@, me_view)] + rest.0, rest.1),
                                ));
                                assert(map_views(map@) + rest.0 =~= map_views(old_map) + (seq![
                                    (es[i as int].0@, me_view),
                                ] + rest.0));
                            } else {
                                assert(parse_entries(s_i) is None);
                            }
                        }
                    },
                }
            },
            _ => {
                proof {
                    assert(!is_rich(es[i as int].1));
                    assert(parse_legacy(es[i as int].1) is None);
                    assert(parse_entries(s_i) is None);
                }
                let mut m = String::from_str("invalid entry for key ");
                m.append(lang.as_str());
                m.append(" (expected string or object)");
                return Err(m);
            },
        }
        i += 1;
    }
    proof {
        assert(es.skip(n as int) =~= Seq::<(String, JsonValue)>::empty());
        assert(parse_entries(es.skip(n as int)) == Some(
            (
                Seq::<(Seq<char>, (Seq<char>, Option<i64>))>::empty(),
                Seq::<(Seq<char>, BindingView)>::empty(),
            ),
        ));
        assert(map_views(map@) + Seq::<(Seq<char>, (Seq<char>, Option<i64>))>::empty()
            =~= map_views(map@));
        assert(vm_views(vm@) + Seq::<(Seq<char>, BindingView)>::empty() =~= vm_views(vm@));
    }
    Ok((map, vm))
}

} // verus!
