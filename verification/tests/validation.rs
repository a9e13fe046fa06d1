use gpt_copy_v9::error::AppError;
use gpt_copy_v9::validation::{is_blank, validate_create_conversation, validate_message_content};

fn bad_request(r: Result<(), AppError>) -> String {
    match r {
        Err(AppError::BadRequest(m)) => m,
        other => panic!("expected a bad request, got {other:?}"),
    }
}

#[test]
fn title_absent_is_accepted() {
    assert!(validate_create_conversation(&None).is_ok());
}

#[test]
fn title_blank_is_refused() {
    for t in ["", "   ", "\t\n", "\u{3000}\u{a0}"] {
        assert_eq!(
            bad_request(validate_create_conversation(&Some(t.to_string()))),
            "Conversation title cannot be blank"
        );
    }
}

#[test]
fn title_of_256_bytes_is_accepted_and_257_refused() {
    assert!(validate_create_conversation(&Some("a".repeat(256))).is_ok());
    assert_eq!(
        bad_request(validate_create_conversation(&Some("a".repeat(257)))),
        "Conversation title must be 256 characters or fewer"
    );
    // 128 two-byte characters are 256 bytes; one more is 258.
    assert!(validate_create_conversation(&Some("é".repeat(128))).is_ok());
    assert!(validate_create_conversation(&Some("é".repeat(129))).is_err());
}

#[test]
fn message_empty_is_refused() {
    assert_eq!(bad_request(validate_message_content("")), "Message content cannot be empty");
    assert_eq!(bad_request(validate_message_content("  \n ")), "Message content cannot be empty");
}

#[test]
fn message_length_limit() {
    assert!(validate_message_content(&"x".repeat(32768)).is_ok());
    assert_eq!(
        bad_request(validate_message_content(&"x".repeat(32769))),
        "Message content exceeds maximum length"
    );
    assert!(validate_message_content(&"€".repeat(10923)).is_err());
    assert!(validate_message_content(&"€".repeat(10922)).is_ok());
}

#[test]
fn blank_matches_std_trim() {
    for s in ["", " ", "a", " a ", "\u{85}", "\u{200b}", "\u{2029}x", "\u{180e}"] {
        assert_eq!(is_blank(s), s.trim().is_empty(), "{s:?}");
    }
}
