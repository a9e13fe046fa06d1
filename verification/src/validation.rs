//! Validation of the text that clients send.
use vstd::prelude::*;
use vstd::utf8::encode_utf8;
use crate::error::{AppError, is_bad_request};
use crate::text::{all_space, byte_len_exceeds, char_is_space, chars_of, is_space, lemma_trim_empty, trim};

verus! {

/// The longest conversation title, in UTF-8 bytes.
pub const MAX_TITLE_BYTES: usize = 256;

/// The longest message, in UTF-8 bytes.
pub const MAX_MESSAGE_BYTES: usize = 32768;

/// Length of the UTF-8 encoding of `s`, which is what `str::len` counts.
pub open spec fn byte_len(s: Seq<char>) -> nat {
    encode_utf8(s).len()
}

/// Whether `s` is empty once trimmed (every character is whitespace).
pub fn is_blank(s: &str) -> (b: bool)
    ensures
        b == (trim(s@).len() == 0),
        b == all_space(s@),
{
    let cs = chars_of(s);
    let mut i: usize = 0;
    while i < cs.len()
        invariant
            cs@ == s@,
            i <= cs.len(),
            forall|j: int| 0 <= j < i ==> crate::text::is_space(#[trigger] s@[j]),
        decreases cs.len() - i,
    {
        if !char_is_space(cs[i]) {
            proof {
                lemma_trim_empty(s@);
                assert(!crate::text::is_space(s@[i as int]));
            }
            return false;
        }
        i = i + 1;
    }
    proof {
        lemma_trim_empty(s@);
    }
    true
}

/// What `validate_create_conversation` decides for an optional title: the
/// error message, if the title is refused.
pub open spec fn title_refusal(title: Option<Seq<char>>) -> Option<Seq<char>> {
    match title {
        None => None,
        Some(t) => if trim(t).len() == 0 {
            Some("Conversation title cannot be blank"@)
        } else if byte_len(t) > MAX_TITLE_BYTES {
            Some("Conversation title must be 256 characters or fewer"@)
        } else {
            None
        },
    }
}

/// What `validate_message_content` decides for a message: the error message,
/// if the content is refused.
pub open spec fn content_refusal(content: Seq<char>) -> Option<Seq<char>> {
    if trim(content).len() == 0 {
        Some("Message content cannot be empty"@)
    } else if byte_len(content) > MAX_MESSAGE_BYTES {
        Some("Message content exceeds maximum length"@)
    } else {
        None
    }
}

/// The view of an optional string.
pub open spec fn opt_view(s: Option<String>) -> Option<Seq<char>> {
    match s {
        Some(t) => Some(t@),
        None => None,
    }
}

/// The view of an optional string slice.
pub open spec fn opt_str_view(s: Option<&str>) -> Option<Seq<char>> {
    match s {
        Some(t) => Some(t@),
        None => None,
    }
}

/// `r` is `Ok(())` when `refusal` is `None`, and the matching `BadRequest` otherwise.
pub open spec fn answers_refusal(r: Result<(), AppError>, refusal: Option<Seq<char>>) -> bool {
    match refusal {
        None => r is Ok,
        Some(msg) => is_bad_request(r, msg),
    }
}

/// Checks an optional conversation title: when present it must hold a
/// character other than whitespace and be at most 256 bytes long.
pub fn validate_create_conversation(title: &Option<String>) -> (r: Result<(), AppError>)
    ensures
        answers_refusal(r, title_refusal(opt_view(*title))),
        title is None ==> r is Ok,
        title matches Some(t) ==> (r is Ok <==> (exists|i: int|
            0 <= i < t@.len() && !is_space(#[trigger] t@[i])) && encode_utf8(t@).len() <= 256),
{
    proof {
        if let Some(t) = title {
            law_title_accepted(t@);
        }
    }
    if let Some(t) = title {
        if is_blank(t.as_str()) {
            return Err(AppError::BadRequest(String::from_str("Conversation title cannot be blank")));
        }
        if byte_len_exceeds(t.as_str(), MAX_TITLE_BYTES) {
            return Err(
                AppError::BadRequest(
                    String::from_str("Conversation title must be 256 characters or fewer"),
                ),
            );
        }
    }
    Ok(())
}

/// Checks a message: it must hold a character other than whitespace and be
/// at most 32768 bytes long.
pub fn validate_message_content(content: &str) -> (r: Result<(), AppError>)
    ensures
        answers_refusal(r, content_refusal(content@)),
        r is Ok <==> (exists|i: int| 0 <= i < content@.len() && !is_space(#[trigger] content@[i]))
            && encode_utf8(content@).len() <= 32768,
{
    proof {
        law_message_accepted(content@);
    }
    if is_blank(content) {
        return Err(AppError::BadRequest(String::from_str("Message content cannot be empty")));
    }
    if byte_len_exceeds(content, MAX_MESSAGE_BYTES) {
        return Err(AppError::BadRequest(String::from_str("Message content exceeds maximum length")));
    }
    Ok(())
}

/// A present title is accepted exactly when it holds a character other than
/// whitespace and its UTF-8 encoding is at most 256 bytes long, whatever
/// characters it holds; a missing title is always accepted. An all-whitespace
/// title is refused as blank, whatever its length.
pub proof fn law_title_accepted(t: Seq<char>)
    ensures
        title_refusal(None) is None,
        title_refusal(Some(t)) is None <==> (exists|i: int|
            0 <= i < t.len() && !is_space(#[trigger] t[i])) && encode_utf8(t).len() <= 256,
        (forall|i: int| 0 <= i < t.len() ==> is_space(#[trigger] t[i])) ==> title_refusal(Some(t))
            == Some("Conversation title cannot be blank"@),
{
    lemma_trim_empty(t);
}

/// A message is accepted exactly when it holds a character other than
/// whitespace and its UTF-8 encoding is at most 32768 bytes long, whatever
/// characters (line breaks included) it holds. An all-whitespace message is
/// refused as empty, whatever its length.
pub proof fn law_message_accepted(content: Seq<char>)
    ensures
        content_refusal(content) is None <==> (exists|i: int|
            0 <= i < content.len() && !is_space(#[trigger] content[i])) && encode_utf8(content).len()
            <= 32768,
        (forall|i: int| 0 <= i < content.len() ==> is_space(#[trigger] content[i]))
            ==> content_refusal(content) == Some("Message content cannot be empty"@),
{
    lemma_trim_empty(content);
}

} // verus!
