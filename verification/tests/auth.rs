use gpt_copy_v9::auth::{api_path, authorize, bearer};
use gpt_copy_v9::error::AppError;

#[test]
fn api_routes_require_bearer_token_when_configured() {
    let token = Some("test-token".to_string());
    assert!(authorize(&token, "/health", None).is_ok());

    let missing = authorize(&token, "/api/conversations", None).unwrap_err();
    assert_eq!(missing.status(), 401);
    assert_eq!(missing.public_message(), "Unauthorized");

    assert!(authorize(&token, "/api/conversations", Some("Bearer test-token")).is_ok());
}

#[test]
fn wrong_token_is_refused() {
    let token = Some("t".to_string());
    assert!(matches!(authorize(&token, "/api", Some("Bearer u")), Err(AppError::Unauthorized)));
    assert!(matches!(authorize(&token, "/api/x", Some("bearer t")), Err(AppError::Unauthorized)));
    assert!(authorize(&token, "/apis", None).is_ok());
}

#[test]
fn without_a_token_everything_passes() {
    assert!(authorize(&None, "/api/conversations", None).is_ok());
}

#[test]
fn api_paths() {
    assert!(api_path("/api"));
    assert!(api_path("/api/"));
    assert!(api_path("/api/conversations/1"));
    assert!(!api_path("/apix"));
    assert!(!api_path("/health"));
    assert!(!api_path(""));
    assert_eq!(bearer("abc"), "Bearer abc");
}
