use tts_core::conversation::{
    new_conversation_id, tail, ConversationStore, Message, ReplyCache,
};
use tts_core::response_cache::ResponseCache;
use tts_core::synth_cache::SynthCache;

#[test]
fn test_response_cache_round_trip() {
    let mut cache = ResponseCache::new(500, 3600_000);
    cache.put(
        "Hello.".to_string(),
        Some("en_US".to_string()),
        None,
        "QUJD".to_string(),
        22050,
        1234,
        1_000,
    );
    // identical request within the TTL: the same audio, sample rate
    // and duration come back
    let hit = cache
        .get(&"Hello.".to_string(), &Some("en_US".to_string()), &None, 2_000)
        .expect("cache hit");
    assert_eq!(hit.0, "QUJD");
    assert_eq!(hit.1, 22050);
    assert_eq!(hit.2, 1234);
}

#[test]
fn test_response_cache_ttl_expiry() {
    let mut cache = ResponseCache::new(500, 1_000);
    cache.put("t".to_string(), None, None, "YQ==".to_string(), 8000, 10, 0);
    assert!(cache.get(&"t".to_string(), &None, &None, 900).is_some());
    assert!(cache.get(&"t".to_string(), &None, &None, 1_001).is_none());
}

#[test]
fn test_response_cache_exact_match() {
    let mut cache = ResponseCache::new(500, 3600_000);
    cache.put("text".to_string(), Some("en".to_string()), None, "AA".to_string(), 1, 1, 0);
    // a different language or voice is a different request
    assert!(cache.get(&"text".to_string(), &Some("de".to_string()), &None, 1).is_none());
    assert!(cache.get(&"text".to_string(), &None, &None, 1).is_none());
    assert!(cache
        .get(&"text".to_string(), &Some("en".to_string()), &Some("v".to_string()), 1)
        .is_none());
    assert!(cache.get(&"text".to_string(), &Some("en".to_string()), &None, 1).is_some());
}

#[test]
fn test_response_cache_capacity_evicts_oldest() {
    let mut cache = ResponseCache::new(2, 3600_000);
    cache.put("a".to_string(), None, None, "1".to_string(), 1, 1, 0);
    cache.put("b".to_string(), None, None, "2".to_string(), 1, 1, 1);
    cache.put("c".to_string(), None, None, "3".to_string(), 1, 1, 2);
    assert!(cache.get(&"a".to_string(), &None, &None, 3).is_none());
    assert!(cache.get(&"b".to_string(), &None, &None, 3).is_some());
    assert!(cache.get(&"c".to_string(), &None, &None, 3).is_some());
}

#[test]
fn test_synth_cache_lru_eviction_keeps_held_handle() {
    let mut cache = SynthCache::new(2);
    assert_eq!(cache.insert("model_a.json".to_string(), 1, 22050, 10), None);
    assert_eq!(cache.insert("model_b.json".to_string(), 2, 48000, 20), None);
    // touch a so b becomes the least recently used
    let held = cache.lookup(&"model_a.json".to_string(), 30).expect("hit");
    assert_eq!(held, (1, 22050));
    // a full cache evicts exactly one entry, the least recently used
    let evicted = cache.insert("model_c.json".to_string(), 3, 16000, 40);
    assert_eq!(evicted, Some(2));
    // the held handle id stays usable by its owner; the entry for a
    // survives the eviction
    assert_eq!(cache.lookup(&"model_a.json".to_string(), 50), Some((1, 22050)));
    assert_eq!(cache.lookup(&"model_c.json".to_string(), 50), Some((3, 16000)));
    assert_eq!(cache.lookup(&"model_b.json".to_string(), 50), None);
}

#[test]
fn test_synth_cache_replaces_same_path() {
    let mut cache = SynthCache::new(2);
    assert_eq!(cache.insert("m.json".to_string(), 7, 22050, 1), None);
    let replaced = cache.insert("m.json".to_string(), 8, 22050, 2);
    assert_eq!(replaced, Some(7));
    assert_eq!(cache.lookup(&"m.json".to_string(), 3), Some((8, 22050)));
}

#[test]
fn test_tail_window() {
    let mut messages: Vec<Message> = Vec::new();
    for i in 0..20u64 {
        messages.push(Message {
            role: if i % 2 == 0 { "user".to_string() } else { "assistant".to_string() },
            content: format!("m{}", i),
            timestamp_ms: i,
        });
    }
    // the prompt window is the last 6 turns: 12 messages, a
    // contiguous suffix in order
    let window = tail(&messages, 6);
    assert_eq!(window.len(), 12);
    for (k, m) in window.iter().enumerate() {
        assert_eq!(m.content, format!("m{}", 8 + k));
    }
    let short = tail(&messages[0..3].to_vec(), 6);
    assert_eq!(short.len(), 3);
}

#[test]
fn test_conversation_turns() {
    let mut store = ConversationStore::new(100, 3600_000);
    let id = "11111111-2222-3333-4444-555555555555".to_string();
    let window = store.begin_turn(&id, &"My name is Alice.".to_string(), 1);
    assert_eq!(window.len(), 1);
    assert_eq!(window[0].role, "user");
    assert_eq!(window[0].content, "My name is Alice.");
    store.complete_turn(&id, &"Hi Alice!".to_string(), 2);
    // the second call's prompt window holds the first two messages in
    // order, then the new user message
    let window = store.begin_turn(&id, &"What is my name?".to_string(), 3);
    assert_eq!(window.len(), 3);
    assert_eq!(window[0].content, "My name is Alice.");
    assert_eq!(window[1].content, "Hi Alice!");
    assert_eq!(window[1].role, "assistant");
    assert_eq!(window[2].content, "What is my name?");
    assert_eq!(store.len(), 1);
}

#[test]
fn test_conversation_window_bound() {
    let mut store = ConversationStore::new(100, 3600_000);
    let id = "conv".to_string();
    for i in 0..20u64 {
        let _ = store.begin_turn(&id, &format!("q{}", i), i * 2);
        store.complete_turn(&id, &format!("a{}", i), i * 2 + 1);
    }
    let window = store.begin_turn(&id, &"final".to_string(), 100);
    // at most 2 x 6 messages reach the LLM
    assert!(window.len() <= 12);
    assert_eq!(window.last().unwrap().content, "final");
}

#[test]
fn test_conversation_sweep() {
    let mut store = ConversationStore::new(100, 1_000);
    let _ = store.begin_turn(&"old".to_string(), &"hi".to_string(), 0);
    let _ = store.begin_turn(&"new".to_string(), &"hi".to_string(), 5_000);
    store.sweep(5_500);
    assert_eq!(store.len(), 1);
}

#[test]
fn test_reply_cache_round_trip() {
    let mut cache = ReplyCache::new(500, 3600_000);
    cache.put("conv1".to_string(), "Hello".to_string(), "Hi there".to_string(), 10);
    let hit = cache.get(&"conv1".to_string(), &"Hello".to_string(), 20).expect("hit");
    assert_eq!(hit, "Hi there");
    // a different conversation or message misses
    assert!(cache.get(&"conv2".to_string(), &"Hello".to_string(), 20).is_none());
    assert!(cache.get(&"conv1".to_string(), &"Bye".to_string(), 20).is_none());
    // expiry
    assert!(cache.get(&"conv1".to_string(), &"Hello".to_string(), 4_000_000).is_none());
}

#[test]
fn test_new_conversation_id_format() {
    let id = new_conversation_id();
    assert_eq!(id.len(), 36);
    let other = new_conversation_id();
    assert_eq!(other.len(), 36);
}
