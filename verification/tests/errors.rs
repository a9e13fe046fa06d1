use gpt_copy_v9::error::AppError;

#[test]
fn error_answers() {
    let cases = [
        (AppError::NotFound("Conversation x not found".into()), 404, "NOT_FOUND", "Conversation x not found"),
        (AppError::BadRequest("bad".into()), 400, "BAD_REQUEST", "bad"),
        (AppError::Unauthorized, 401, "UNAUTHORIZED", "Unauthorized"),
        (AppError::Database("secret detail".into()), 500, "DATABASE_ERROR", "A database error occurred"),
        (AppError::OpenRouter("detail".into()), 502, "UPSTREAM_ERROR", "Upstream model service error"),
        (AppError::Internal("detail".into()), 500, "INTERNAL_ERROR", "An internal server error occurred"),
    ];
    for (e, status, code, message) in cases {
        assert_eq!(e.status(), status);
        assert_eq!(e.code(), code);
        assert_eq!(e.public_message(), message);
    }
}
