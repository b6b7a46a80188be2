//! Validation of text-carrying requests.
//!
//! Text must be 1 to 5000 characters long; a language code, when
//! supplied, must have the shape `ll` or `ll_CC` (two lowercase
//! letters, optionally an underscore and two uppercase letters).

use vstd::prelude::*;
use crate::error::ApiError;

verus! {

/// Maximum text length for TTS requests, in characters.
pub const MAX_TEXT_LENGTH: usize = 5000;
/// Minimum text length for TTS requests, in characters.
pub const MIN_TEXT_LENGTH: usize = 1;

/// An ASCII lowercase letter.
pub open spec fn is_lower(c: char) -> bool {
    97 <= c as int && c as int <= 122
}

/// An ASCII uppercase letter.
pub open spec fn is_upper(c: char) -> bool {
    65 <= c as int && c as int <= 90
}

/// A well-formed language code: `ll` or `ll_CC`.
pub open spec fn valid_lang_code(s: Seq<char>) -> bool {
    ||| (s.len() == 2 && is_lower(s[0]) && is_lower(s[1]))
    ||| (s.len() == 5 && is_lower(s[0]) && is_lower(s[1]) && s[2] == '_' && is_upper(s[3])
        && is_upper(s[4]))
}

/// Does `code` have the shape `ll` or `ll_CC`?
pub fn is_valid_language_code(code: &str) -> (valid: bool)
    ensures
        valid == valid_lang_code(code@),
{
    let n = code.unicode_len();
    if n == 2 {
        let c0 = code.get_char(0);
        let c1 = code.get_char(1);
        lower_exec(c0) && lower_exec(c1)
    } else if n == 5 {
        let c0 = code.get_char(0);
        let c1 = code.get_char(1);
        let c2 = code.get_char(2);
        let c3 = code.get_char(3);
        let c4 = code.get_char(4);
        lower_exec(c0) && lower_exec(c1) && c2 == '_' && upper_exec(c3) && upper_exec(c4)
    } else {
        false
    }
}

fn lower_exec(c: char) -> (r: bool)
    ensures
        r == is_lower(c),
{
    let u = c as u32;
    97 <= u && u <= 122
}

fn upper_exec(c: char) -> (r: bool)
    ensures
        r == is_upper(c),
{
    let u = c as u32;
    65 <= u && u <= 90
}

/// Is the request acceptable?  Mirrors the checks of
/// `validate_tts_request`, as a predicate.
pub open spec fn valid_tts_request(text: Seq<char>, language: Option<Seq<char>>) -> bool {
    &&& text.len() >= MIN_TEXT_LENGTH
    &&& text.len() <= MAX_TEXT_LENGTH
    &&& match language {
        Some(l) => valid_lang_code(l),
        None => true,
    }
}

/// Validate a TTS request: text length in `[1, 5000]` characters and,
/// when a language is supplied, a well-formed language code.
pub fn validate_tts_request(text: &str, language: Option<&str>) -> (result: Result<
    (),
    ApiError,
>)
    ensures
        result is Ok <==> valid_tts_request(text@, match language {
            Some(l) => Some(l@),
            None => None,
        }),
        text@.len() == 0 ==> (result matches Err(ApiError::InvalidInput(m))
            && m@ == "Text cannot be empty"@),
        text@.len() > MAX_TEXT_LENGTH ==> (result matches Err(ApiError::InvalidInput(m))
            && m@ == "Text too long (max 5000 characters)"@),
        (1 <= text@.len() <= MAX_TEXT_LENGTH && (language matches Some(l) && !valid_lang_code(l@)))
            ==> (result matches Err(ApiError::InvalidInput(m)) && m@
            == "Invalid language code format: "@ + language->0@
            + ". Expected format: ll_CC (e.g., en_US, de_DE)"@),
{
    let n = text.unicode_len();
    if n == 0 {
        return Err(ApiError::InvalidInput(String::from_str("Text cannot be empty")));
    }
    if n > MAX_TEXT_LENGTH {
        return Err(ApiError::InvalidInput(String::from_str("Text too long (max 5000 characters)")));
    }
    if let Some(lang) = language {
        if !is_valid_language_code(lang) {
            let mut msg = String::from_str("Invalid language code format: ");
            msg.append(lang);
            msg.append(". Expected format: ll_CC (e.g., en_US, de_DE)");
            return Err(ApiError::InvalidInput(msg));
        }
    }
    Ok(())
}


/// What uuid's parser accepts: whether the string is a well-formed
/// UUID in one of its textual forms.  The outcome depends on the
/// characters alone.
pub uninterp spec fn uuid_parses(s: Seq<char>) -> bool;

/// Relies on uuid::Uuid::parse_str: accepts exactly the well-formed
/// UUID strings.
#[verifier::external_body]
fn uuid_parse_ok(id: &str) -> (ok: bool)
    ensures
        ok == uuid_parses(id@),
{
    uuid::Uuid::parse_str(id).is_ok()
}

/// Validate a conversation id: it must parse as a UUID.
pub fn validate_conversation_id(id: &str) -> (result: Result<(), ApiError>)
    ensures
        result is Ok <==> uuid_parses(id@),
        result matches Err(ApiError::InvalidInput(m)) ==> m@ == "Invalid conversation id: "@
            + id@,
        result is Err ==> result matches Err(ApiError::InvalidInput(_)),
{
    if uuid_parse_ok(id) {
        Ok(())
    } else {
        let mut msg = String::from_str("Invalid conversation id: ");
        msg.append(id);
        Err(ApiError::InvalidInput(msg))
    }
}

} // verus!
