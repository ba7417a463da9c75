use offloadmq::error::AppError;

#[test]
fn test_error_status_codes() {
    assert_eq!(
        AppError::authentication("test").status_code(),
        axum::http::StatusCode::UNAUTHORIZED.as_u16()
    );
    assert_eq!(
        AppError::authorization("test").status_code(),
        axum::http::StatusCode::FORBIDDEN.as_u16()
    );
    assert_eq!(
        AppError::validation("test").status_code(),
        axum::http::StatusCode::BAD_REQUEST.as_u16()
    );
    assert_eq!(
        AppError::not_found("test").status_code(),
        axum::http::StatusCode::NOT_FOUND.as_u16()
    );
    assert_eq!(
        AppError::conflict("test").status_code(),
        axum::http::StatusCode::CONFLICT.as_u16()
    );
}

#[test]
fn test_error_types() {
    assert_eq!(AppError::authentication("test").error_type(), "authentication_error");
    assert_eq!(
        AppError::Database(sled::Error::Unsupported("test".to_string())).error_type(),
        "database_error"
    );
    assert_eq!(
        AppError::BcryptError(bcrypt::BcryptError::InvalidHash("test".to_string())).error_type(),
        "bcrypt_error"
    );
}

#[test]
fn test_should_log() {
    assert!(!AppError::authentication("test").should_log());
    assert!(!AppError::not_found("test").should_log());
    assert!(AppError::Database(sled::Error::Unsupported("test".to_string())).should_log());
    assert!(AppError::Internal(anyhow::Error::msg("test")).should_log());
}

#[test]
fn test_conversions() {
    let db_error = sled::Error::Unsupported("test".to_string());
    let app_error: AppError = db_error.into();
    assert!(matches!(app_error, AppError::Database(_)));

    let anyhow_error = anyhow::Error::msg("test error");
    let app_error: AppError = anyhow_error.into();
    assert!(matches!(app_error, AppError::Internal(_)));
}

#[test]
fn scheduling_impossible_is_a_conflict_for_the_client() {
    let e = AppError::scheduling_impossible("ocr");
    assert_eq!(e.status_code(), 409);
    assert_eq!(e.error_type(), "scheduling_impossible");
    assert!(!e.should_log());
}

#[test]
fn every_kind_maps_to_its_status() {
    assert_eq!(AppError::serialization("x").status_code(), 500);
    assert_eq!(AppError::bad_request("x").status_code(), 400);
    assert_eq!(AppError::parse("x").status_code(), 400);
    assert_eq!(AppError::Io(std::io::Error::other("x")).status_code(), 500);
    assert_eq!(
        AppError::BcryptError(bcrypt::BcryptError::InvalidHash("x".to_string())).status_code(),
        500
    );
    assert_eq!(AppError::Internal(anyhow::Error::msg("x")).status_code(), 500);
}

#[test]
fn only_server_errors_are_logged() {
    assert!(AppError::serialization("x").should_log());
    assert!(AppError::Io(std::io::Error::other("x")).should_log());
    assert!(!AppError::conflict("x").should_log());
    assert!(!AppError::validation("x").should_log());
    assert!(!AppError::bad_request("x").should_log());
    assert!(!AppError::parse("x").should_log());
    assert!(!AppError::authorization("x").should_log());
}

#[test]
fn messages_open_with_the_kind() {
    assert_eq!(AppError::not_found("echo/1").to_string(), "Not found: echo/1");
    assert_eq!(AppError::conflict("busy").to_string(), "Conflict: busy");
    assert_eq!(AppError::authentication(42).to_string(), "Authentication failed: 42");
    assert_eq!(
        AppError::Database(sled::Error::Unsupported("nope".to_string())).to_string(),
        "Database error: Unsupported: nope"
    );
    assert_eq!(AppError::Internal(anyhow::Error::msg("boom")).to_string(), "Internal error: boom");
    assert_eq!(AppError::Io(std::io::Error::other("disk")).to_string(), "IO error: disk");
    assert_eq!(
        AppError::BcryptError(bcrypt::BcryptError::InvalidHash("h".to_string())).to_string(),
        "Bcrypt error: Invalid hash: h"
    );
}

#[test]
fn foreign_errors_convert_into_their_kinds() {
    let e: AppError = std::io::Error::other("x").into();
    assert!(matches!(e, AppError::Io(_)));
    let e: AppError = bcrypt::BcryptError::InvalidHash("x".to_string()).into();
    assert!(matches!(e, AppError::BcryptError(_)));
    let e: AppError =
        jsonwebtoken::errors::Error::from(jsonwebtoken::errors::ErrorKind::InvalidToken).into();
    assert!(matches!(e, AppError::Jwt(_)));
    assert_eq!(e.status_code(), 401);
    assert_eq!(e.error_type(), "jwt_error");
    assert_eq!(e.to_string(), "JWT error: InvalidToken");
}
