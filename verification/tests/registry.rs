use tts_core::manager::{str_le, TtsManager};
use tts_core::metrics::{AppMetrics, EndpointMetrics, TtsMetrics};
use tts_core::registry::{parse_registry, JsonValue, MapEntry};

fn legacy_doc() -> JsonValue {
    JsonValue::Obj(vec![
        ("de_DE".to_string(), JsonValue::Str("models/de.json".to_string())),
        (
            "en_US".to_string(),
            JsonValue::Obj(vec![
                ("config".to_string(), JsonValue::Str("models/en.json".to_string())),
                ("default_speaker".to_string(), JsonValue::Int(3)),
            ]),
        ),
    ])
}

fn rich_doc() -> JsonValue {
    JsonValue::Obj(vec![(
        "en_US".to_string(),
        JsonValue::Obj(vec![
            ("default_voice".to_string(), JsonValue::Str("norman".to_string())),
            (
                "voices".to_string(),
                JsonValue::Obj(vec![
                    (
                        "norman".to_string(),
                        JsonValue::Obj(vec![
                            ("config".to_string(), JsonValue::Str("models/norman.json".to_string())),
                            ("speaker_id".to_string(), JsonValue::Int(0)),
                            ("display_name".to_string(), JsonValue::Str("Norman".to_string())),
                        ]),
                    ),
                    (
                        "alba".to_string(),
                        JsonValue::Obj(vec![(
                            "config".to_string(),
                            JsonValue::Str("models/alba.json".to_string()),
                        )]),
                    ),
                ]),
            ),
        ]),
    )])
}

#[test]
fn test_parse_legacy_map() {
    let (map, voices_map) = parse_registry(&legacy_doc()).expect("valid map");
    assert_eq!(map.len(), 2);
    assert!(voices_map.is_empty());
    assert_eq!(map[0].0, "de_DE");
    assert_eq!(map[0].1.config, "models/de.json");
    assert_eq!(map[0].1.default_speaker, None);
    assert_eq!(map[1].1.config, "models/en.json");
    assert_eq!(map[1].1.default_speaker, Some(3));
}

#[test]
fn test_parse_rich_map() {
    let (map, voices_map) = parse_registry(&rich_doc()).expect("valid map");
    assert_eq!(voices_map.len(), 1);
    let (lang, binding) = &voices_map[0];
    assert_eq!(lang, "en_US");
    assert_eq!(binding.default_voice, "norman");
    assert_eq!(binding.voices.len(), 2);
    assert_eq!(binding.voices[0].0, "norman");
    assert_eq!(binding.voices[0].1.display_name.as_deref(), Some("Norman"));
    // the default voice also fills the legacy map
    assert_eq!(map.len(), 1);
    assert_eq!(map[0].1.config, "models/norman.json");
    assert_eq!(map[0].1.default_speaker, Some(0));
}

#[test]
fn test_parse_rejects_bad_documents() {
    assert!(parse_registry(&JsonValue::Str("nope".to_string()))
        .unwrap_err()
        .contains("JSON object"));
    let missing_config = JsonValue::Obj(vec![(
        "xx_XX".to_string(),
        JsonValue::Obj(vec![("other".to_string(), JsonValue::Int(1))]),
    )]);
    assert!(parse_registry(&missing_config).unwrap_err().contains("missing 'config'"));
    let bad_entry = JsonValue::Obj(vec![("xx_XX".to_string(), JsonValue::Int(5))]);
    assert!(parse_registry(&bad_entry).unwrap_err().contains("invalid entry"));
}

#[test]
fn test_config_for_resolution() {
    let json = rich_doc();
    let manager = TtsManager::new_from_json(&json).expect("valid map");
    // default voice
    let (config, speaker) = manager.config_for(Some("en_US"), None).expect("resolves");
    assert_eq!(config, "models/norman.json");
    assert_eq!(speaker, Some(0));
    // explicit voice
    let (config, speaker) = manager.config_for(Some("en_US"), Some("alba")).expect("resolves");
    assert_eq!(config, "models/alba.json");
    assert_eq!(speaker, None);
    // unknown voice
    let err = manager.config_for(Some("en_US"), Some("nobody")).unwrap_err();
    assert!(err.contains("Unknown voice"));
    assert!(err.contains("norman"));
    // unknown language
    let err = manager.config_for(Some("xx_YY"), None).unwrap_err();
    assert!(err.contains("Unknown language key: xx_YY"));
}

#[test]
fn test_config_for_default_language() {
    let manager = TtsManager::new_from_json(&legacy_doc()).expect("valid map");
    // no language given: the configured default de_DE applies
    let (config, speaker) = manager.config_for(None, None).expect("resolves");
    assert_eq!(config, "models/de.json");
    assert_eq!(speaker, None);
}

#[test]
fn test_list_languages_sorted_union() {
    let mut map: Vec<(String, MapEntry)> = Vec::new();
    map.push(("de_DE".to_string(), MapEntry { config: "d".to_string(), default_speaker: None }));
    map.push(("ar_AR".to_string(), MapEntry { config: "a".to_string(), default_speaker: None }));
    map.push(("de_DE".to_string(), MapEntry { config: "x".to_string(), default_speaker: None }));
    let manager = TtsManager::new(map);
    let langs = manager.list_languages();
    assert_eq!(langs, vec!["ar_AR".to_string(), "de_DE".to_string()]);
}

#[test]
fn test_voice_listing() {
    let manager = TtsManager::new_from_json(&rich_doc()).expect("valid map");
    let voices = manager.list_voices_for_language("en_US");
    assert_eq!(voices.len(), 2);
    assert_eq!(voices[0].0, "norman");
    assert!(manager.list_voices_for_language("de_DE").is_empty());
    assert_eq!(manager.get_default_voice("en_US"), Some("norman".to_string()));
    assert_eq!(manager.get_default_voice("zz_ZZ"), None);
    assert_eq!(manager.map_iter().len(), 1);
}

#[test]
fn test_str_le_order() {
    assert!(str_le("a", "b"));
    assert!(str_le("a", "a"));
    assert!(!str_le("b", "a"));
    assert!(str_le("ab", "b"));
    assert!(str_le("a", "ab"));
    assert!(!str_le("ab", "a"));
}

#[test]
fn test_endpoint_metrics() {
    let mut m = EndpointMetrics::new();
    assert_eq!(m.min_latency_ms, u64::MAX);
    m.record_request(30);
    m.record_request(10);
    m.record_request(20);
    m.record_error();
    assert_eq!(m.request_count, 3);
    assert_eq!(m.error_count, 1);
    assert_eq!(m.total_latency_ms, 60);
    assert_eq!(m.min_latency_ms, 10);
    assert_eq!(m.max_latency_ms, 30);
    // percentiles over the sorted window [10, 20, 30]
    assert_eq!(m.p50_latency_ms(), 20);
    assert_eq!(m.p95_latency_ms(), 30);
    assert_eq!(m.p99_latency_ms(), 30);
    assert_eq!(m.percentile(0), 10);
}

#[test]
fn test_empty_percentile_is_zero() {
    let m = EndpointMetrics::new();
    assert_eq!(m.p50_latency_ms(), 0);
}

#[test]
fn test_tts_metrics() {
    let mut t = TtsMetrics::new();
    t.record_synthesis(100, 22050, false);
    t.record_synthesis(5, 0, true);
    assert_eq!(t.synthesis_count, 2);
    assert_eq!(t.total_synthesis_time_ms, 105);
    assert_eq!(t.cache_hits, 1);
    assert_eq!(t.cache_misses, 1);
    assert_eq!(t.total_samples, 22050);
    let app = AppMetrics::new();
    assert_eq!(app.tts.request_count, 0);
    assert_eq!(app.tts_specific.synthesis_count, 0);
}

#[test]
fn test_manager_response_cache_flow() {
    let json = rich_doc();
    let mut manager = TtsManager::new_from_json(&json).expect("valid map");
    let text = "Hello.".to_string();
    assert!(manager.response_cache.get(&text, &None, &None, 0).is_none());
    manager.response_cache.put(
        text.clone(),
        None,
        None,
        "UklGRg==".to_string(),
        22050,
        500,
        0,
    );
    let hit = manager.response_cache.get(&text, &None, &None, 10).expect("hit");
    assert_eq!(hit.0, "UklGRg==");
}
