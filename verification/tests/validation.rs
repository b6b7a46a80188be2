use tts_core::error::ApiError;
use tts_core::validation::{is_valid_language_code, validate_conversation_id, validate_tts_request};

#[test]
fn test_validate_tts_request_valid() {
    assert!(validate_tts_request("Hello", Some("de_DE")).is_ok());
    assert!(validate_tts_request("Test", None).is_ok());
}

#[test]
fn test_validate_tts_request_empty_text() {
    let result = validate_tts_request("", Some("de_DE"));
    assert!(result.is_err());
    if let Err(ApiError::InvalidInput(msg)) = result {
        assert!(msg.contains("empty"));
    }
}

#[test]
fn test_validate_tts_request_too_long() {
    let long_text = "a".repeat(6000);
    let result = validate_tts_request(&long_text, Some("de_DE"));
    assert!(result.is_err());
    if let Err(ApiError::InvalidInput(msg)) = result {
        assert!(msg.contains("too long"));
    }
}

#[test]
fn test_validate_tts_request_invalid_language_code() {
    let result = validate_tts_request("Hello", Some("invalid"));
    assert!(result.is_err());

    let result = validate_tts_request("Hello", Some("INVALID"));
    assert!(result.is_err());

    let result = validate_tts_request("Hello", Some("en"));
    assert!(result.is_ok());

    let result = validate_tts_request("Hello", Some("en_US"));
    assert!(result.is_ok());
}

#[test]
fn test_text_length_boundaries() {
    let at_limit = "a".repeat(5000);
    assert!(validate_tts_request(&at_limit, Some("en_US")).is_ok());
    let over_limit = "a".repeat(5001);
    assert!(validate_tts_request(&over_limit, Some("en_US")).is_err());
    assert!(validate_tts_request("", Some("en_US")).is_err());
}

#[test]
fn test_language_code_shapes() {
    assert!(is_valid_language_code("en"));
    assert!(!is_valid_language_code("EN"));
    assert!(is_valid_language_code("en_US"));
    assert!(!is_valid_language_code("en-US"));
    assert!(!is_valid_language_code("english"));
    assert!(!is_valid_language_code("e"));
    assert!(!is_valid_language_code("en_us"));
    assert!(!is_valid_language_code("en_U"));
}

#[test]
fn test_validate_is_idempotent() {
    // validation does not change its input, so a second pass agrees
    // with the first
    for (text, lang) in [
        ("Hello", Some("en_US")),
        ("", Some("en_US")),
        ("Hi", Some("EN")),
        ("Test", None),
    ] {
        let first = validate_tts_request(text, lang).is_ok();
        let second = validate_tts_request(text, lang).is_ok();
        assert_eq!(first, second);
    }
}

#[test]
fn test_invalid_language_message() {
    let result = validate_tts_request("Hi", Some("EN"));
    match result {
        Err(ApiError::InvalidInput(msg)) => {
            assert!(msg.contains("Invalid language code format"));
        }
        _ => panic!("expected invalid-input error"),
    }
}

#[test]
fn test_error_status_codes() {
    assert_eq!(ApiError::InvalidInput(String::from("x")).status_code(), 400);
    assert_eq!(ApiError::TtsError(String::from("x")).status_code(), 500);
    assert_eq!(ApiError::InternalError(String::from("x")).status_code(), 500);
    assert_eq!(ApiError::RateLimitExceeded.status_code(), 429);
    assert_eq!(ApiError::NotFound(String::from("x")).status_code(), 404);
    assert_eq!(
        ApiError::TtsError(String::from("boom")).message(),
        "TTS error: boom"
    );
}

#[test]
fn test_conversation_id_validation() {
    assert!(validate_conversation_id("11111111-2222-3333-4444-555555555555").is_ok());
    let err = validate_conversation_id("invalid-uuid");
    match err {
        Err(ApiError::InvalidInput(msg)) => {
            assert!(msg.contains("Invalid conversation id"));
        }
        _ => panic!("expected invalid-input error"),
    }
}
