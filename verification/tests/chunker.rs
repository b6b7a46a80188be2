use tts_core::chunker::{get_pause_duration, pause_samples, split_text_with_pauses};
use tts_core::clean_text::clean_text_for_tts;

#[test]
fn test_abbreviation_single_boundary() {
    // one sentence boundary, after "hi." — not after "Dr."
    let chunks = split_text_with_pauses("Dr. Smith said hi.");
    assert_eq!(chunks, vec!["Dr. Smith said hi.".to_string()]);
}

#[test]
fn test_abbreviations_suppress_boundaries() {
    let chunks = split_text_with_pauses("Mrs. Smith arrived");
    assert_eq!(chunks, vec!["Mrs. Smith arrived".to_string()]);
    let chunks = split_text_with_pauses("Prof. Lang spoke");
    assert_eq!(chunks, vec!["Prof. Lang spoke".to_string()]);
}

#[test]
fn test_numeric_comma_no_boundary() {
    let chunks = split_text_with_pauses("3,14");
    assert_eq!(chunks, vec!["3,14".to_string()]);
}

#[test]
fn test_plain_comma_boundary() {
    let chunks = split_text_with_pauses("hello, world");
    assert_eq!(chunks, vec!["hello, ".to_string(), "world".to_string()]);
}

#[test]
fn test_sentence_and_clause_boundaries() {
    let chunks = split_text_with_pauses("One. Two; three: four, five!");
    assert_eq!(
        chunks,
        vec![
            "One. ".to_string(),
            "Two; ".to_string(),
            "three: ".to_string(),
            "four, ".to_string(),
            "five!".to_string(),
        ]
    );
}

#[test]
fn test_chunks_reconstruct_input() {
    for text in [
        "Hello, this is a test. It has sentences; and clauses, too!",
        "No punctuation at all",
        "Ends with boundary.",
        "1,000 plus 3,14 equals nothing, really.",
    ] {
        let chunks = split_text_with_pauses(text);
        let joined: String = chunks.concat();
        assert_eq!(joined, text);
    }
}

#[test]
fn test_whitespace_only_yields_no_chunks() {
    assert!(split_text_with_pauses("").is_empty());
    assert!(split_text_with_pauses("   \t\n").is_empty());
}

#[test]
fn test_pause_durations() {
    assert_eq!(get_pause_duration("Hello."), 400);
    assert_eq!(get_pause_duration("Hello!"), 400);
    assert_eq!(get_pause_duration("Hello?  "), 400);
    assert_eq!(get_pause_duration("clause;"), 250);
    assert_eq!(get_pause_duration("clause: "), 250);
    assert_eq!(get_pause_duration("part,"), 150);
    assert_eq!(get_pause_duration("nothing"), 100);
    assert_eq!(get_pause_duration(""), 100);
}

#[test]
fn test_pause_sample_rounding() {
    // 400 ms at 22050 Hz: 8820 samples exactly
    assert_eq!(pause_samples(400, 22050), 8820);
    // 150 ms at 22050 Hz: 3307.5 rounds to 3308
    assert_eq!(pause_samples(150, 22050), 3308);
    assert_eq!(pause_samples(100, 48000), 4800);
}

#[test]
fn test_clean_text_strips_markdown() {
    let cleaned = clean_text_for_tts("**bold** and `code` and [link](http://x)");
    assert!(!cleaned.contains('*'));
    assert!(!cleaned.contains('`'));
    assert!(!cleaned.contains("http"));
    assert!(cleaned.contains("bold"));
    assert!(cleaned.contains("code"));
    assert!(cleaned.contains("link"));
}

#[test]
fn test_clean_text_nonempty() {
    let cleaned = clean_text_for_tts("****");
    assert!(!cleaned.is_empty());
    let cleaned = clean_text_for_tts("plain words");
    assert_eq!(cleaned, "plain words");
}

#[test]
fn test_clean_text_removes_code_fence() {
    let cleaned = clean_text_for_tts("before ```let x = 1;``` after");
    assert!(!cleaned.contains("let x"));
    assert!(cleaned.contains("before"));
    assert!(cleaned.contains("after"));
}
