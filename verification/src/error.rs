//! The broker's error type and its mapping to the response envelope.

use vstd::prelude::*;
use vstd::string::*;

verus! {

/// `sled::Error`, carried opaquely inside [`AppError::Database`].
#[verifier::external_type_specification]
#[verifier::external_body]
pub struct ExSledError(sled::Error);

/// `anyhow::Error`, carried opaquely inside [`AppError::Internal`].
#[verifier::external_type_specification]
#[verifier::external_body]
pub struct ExAnyhowError(anyhow::Error);

/// `jsonwebtoken::errors::Error`, carried opaquely inside [`AppError::Jwt`].
#[verifier::external_type_specification]
#[verifier::external_body]
pub struct ExJwtError(jsonwebtoken::errors::Error);

/// `std::io::Error`, carried opaquely inside [`AppError::Io`].
#[verifier::external_type_specification]
#[verifier::external_body]
pub struct ExIoError(std::io::Error);

/// `bcrypt::BcryptError`, carried opaquely inside [`AppError::BcryptError`].
#[verifier::external_type_specification]
#[verifier::external_body]
pub struct ExBcryptError(bcrypt::BcryptError);

/// Everything that can go wrong while serving a request.
#[derive(Debug)]
pub enum AppError {
    /// The storage engine failed.
    Database(sled::Error),
    /// An unexpected failure inside the broker.
    Internal(anyhow::Error),
    /// A record could not be encoded or decoded.
    Serialization(String),
    /// The caller could not be identified.
    Authentication(String),
    /// The caller is known but may not do this.
    Authorization(String),
    /// The request is well-formed but its content is not acceptable.
    Validation(String),
    /// The named record does not exist.
    NotFound(String),
    /// The request lost a race or contradicts the current state.
    Conflict(String),
    /// The request is malformed.
    BadRequest(String),
    /// No online agent could ever take the task.
    SchedulingImpossible(String),
    /// A token was rejected.
    Jwt(jsonwebtoken::errors::Error),
    /// The operating system refused an operation.
    Io(std::io::Error),
    /// A value in the request could not be parsed.
    Parse(String),
    /// Password hashing failed.
    BcryptError(bcrypt::BcryptError),
}

/// Renders a storage error with `sled::Error`'s `Display`.
#[verifier::external_body]
fn sled_error_text(e: &sled::Error) -> String {
    format!("{}", e)
}

/// Renders an internal error with `anyhow::Error`'s `Display`.
#[verifier::external_body]
fn anyhow_error_text(e: &anyhow::Error) -> String {
    format!("{}", e)
}

/// Renders a token error with `jsonwebtoken::errors::Error`'s `Display`.
#[verifier::external_body]
fn jwt_error_text(e: &jsonwebtoken::errors::Error) -> String {
    format!("{}", e)
}

/// Renders an I/O error with `std::io::Error`'s `Display`.
#[verifier::external_body]
fn io_error_text(e: &std::io::Error) -> String {
    format!("{}", e)
}

/// Renders a hashing error with `bcrypt::BcryptError`'s `Display`.
#[verifier::external_body]
fn bcrypt_error_text(e: &bcrypt::BcryptError) -> String {
    format!("{}", e)
}

/// The HTTP status that stands for an error.
pub open spec fn status_of(e: AppError) -> u16 {
    match e {
        AppError::Database(_) => 500,
        AppError::Internal(_) => 500,
        AppError::Serialization(_) => 500,
        AppError::Authentication(_) => 401,
        AppError::Authorization(_) => 403,
        AppError::Validation(_) => 400,
        AppError::NotFound(_) => 404,
        AppError::Conflict(_) => 409,
        AppError::BadRequest(_) => 400,
        AppError::SchedulingImpossible(_) => 409,
        AppError::Jwt(_) => 401,
        AppError::Io(_) => 500,
        AppError::Parse(_) => 400,
        AppError::BcryptError(_) => 500,
    }
}

/// The machine-readable name of an error's kind.
pub open spec fn kind_name(e: AppError) -> Seq<char> {
    match e {
        AppError::Database(_) => "database_error"@,
        AppError::Internal(_) => "internal_error"@,
        AppError::Serialization(_) => "serialization_error"@,
        AppError::Authentication(_) => "authentication_error"@,
        AppError::Authorization(_) => "authorization_error"@,
        AppError::Validation(_) => "validation_error"@,
        AppError::NotFound(_) => "not_found"@,
        AppError::Conflict(_) => "conflict"@,
        AppError::BadRequest(_) => "bad_request"@,
        AppError::SchedulingImpossible(_) => "scheduling_impossible"@,
        AppError::Jwt(_) => "jwt_error"@,
        AppError::Io(_) => "io_error"@,
        AppError::Parse(_) => "parse_error"@,
        AppError::BcryptError(_) => "bcrypt_error"@,
    }
}

/// Whether an error is the server's fault and therefore worth a log line:
/// exactly the kinds answered with a 5xx status. Errors caused by the request
/// itself, lost races included, are not.
pub open spec fn worth_logging(e: AppError) -> bool {
    status_of(e) >= 500
}

/// The phrase that opens an error's message.
pub open spec fn message_prefix(e: AppError) -> Seq<char> {
    match e {
        AppError::Database(_) => "Database error: "@,
        AppError::Internal(_) => "Internal error: "@,
        AppError::Serialization(_) => "Serialization error: "@,
        AppError::Authentication(_) => "Authentication failed: "@,
        AppError::Authorization(_) => "Authorization failed: "@,
        AppError::Validation(_) => "Validation error: "@,
        AppError::NotFound(_) => "Not found: "@,
        AppError::Conflict(_) => "Conflict: "@,
        AppError::BadRequest(_) => "Bad request: "@,
        AppError::SchedulingImpossible(_) => "Scheduling impossible: "@,
        AppError::Jwt(_) => "JWT error: "@,
        AppError::Io(_) => "IO error: "@,
        AppError::Parse(_) => "Parse error: "@,
        AppError::BcryptError(_) => "Bcrypt error: "@,
    }
}

/// The detail an error carries as text, for the kinds that carry text.
pub open spec fn detail_of(e: AppError) -> Option<Seq<char>> {
    match e {
        AppError::Serialization(s)
        | AppError::Authentication(s)
        | AppError::Authorization(s)
        | AppError::Validation(s)
        | AppError::NotFound(s)
        | AppError::Conflict(s)
        | AppError::BadRequest(s)
        | AppError::SchedulingImpossible(s)
        | AppError::Parse(s) => Some(s@),
        _ => None,
    }
}

impl AppError {
    /// The HTTP status code for this error.
    pub fn status_code(&self) -> (code: u16)
        ensures
            code == status_of(*self),
    {
        match self {
            AppError::Database(_) => 500,
            AppError::Internal(_) => 500,
            AppError::Serialization(_) => 500,
            AppError::Authentication(_) => 401,
            AppError::Authorization(_) => 403,
            AppError::Validation(_) => 400,
            AppError::NotFound(_) => 404,
            AppError::Conflict(_) => 409,
            AppError::BadRequest(_) => 400,
            AppError::SchedulingImpossible(_) => 409,
            AppError::Jwt(_) => 401,
            AppError::Io(_) => 500,
            AppError::Parse(_) => 400,
            AppError::BcryptError(_) => 500,
        }
    }

    /// The error's kind as it appears in the `type` field of a response.
    pub fn error_type(&self) -> (name: &'static str)
        ensures
            name@ == kind_name(*self),
    {
        match self {
            AppError::Database(_) => "database_error",
            AppError::Internal(_) => "internal_error",
            AppError::Serialization(_) => "serialization_error",
            AppError::Authentication(_) => "authentication_error",
            AppError::Authorization(_) => "authorization_error",
            AppError::Validation(_) => "validation_error",
            AppError::NotFound(_) => "not_found",
            AppError::Conflict(_) => "conflict",
            AppError::BadRequest(_) => "bad_request",
            AppError::SchedulingImpossible(_) => "scheduling_impossible",
            AppError::Jwt(_) => "jwt_error",
            AppError::Io(_) => "io_error",
            AppError::Parse(_) => "parse_error",
            AppError::BcryptError(_) => "bcrypt_error",
        }
    }

    /// Whether this error should be logged at error level.
    pub fn should_log(&self) -> (log: bool)
        ensures
            log == worth_logging(*self),
    {
        self.status_code() >= 500
    }

    /// The human-readable message: the kind's phrase followed by the detail.
    /// For the kinds that wrap a foreign error the detail is that error's own
    /// rendering, of which only its position after the phrase is stated.
    pub fn to_string(&self) -> (text: String)
        ensures
            message_prefix(*self).is_prefix_of(text@),
            detail_of(*self) matches Some(detail) ==> text@ == message_prefix(*self) + detail,
    {
        match self {
            AppError::Database(e) => "Database error: ".to_owned().concat(sled_error_text(e).as_str()),
            AppError::Internal(e) => "Internal error: ".to_owned().concat(anyhow_error_text(e).as_str()),
            AppError::Serialization(s) => "Serialization error: ".to_owned().concat(s.as_str()),
            AppError::Authentication(s) => "Authentication failed: ".to_owned().concat(s.as_str()),
            AppError::Authorization(s) => "Authorization failed: ".to_owned().concat(s.as_str()),
            AppError::Validation(s) => "Validation error: ".to_owned().concat(s.as_str()),
            AppError::NotFound(s) => "Not found: ".to_owned().concat(s.as_str()),
            AppError::Conflict(s) => "Conflict: ".to_owned().concat(s.as_str()),
            AppError::BadRequest(s) => "Bad request: ".to_owned().concat(s.as_str()),
            AppError::SchedulingImpossible(s) => "Scheduling impossible: ".to_owned().concat(s.as_str()),
            AppError::Jwt(e) => "JWT error: ".to_owned().concat(jwt_error_text(e).as_str()),
            AppError::Io(e) => "IO error: ".to_owned().concat(io_error_text(e).as_str()),
            AppError::Parse(s) => "Parse error: ".to_owned().concat(s.as_str()),
            AppError::BcryptError(e) => "Bcrypt error: ".to_owned().concat(bcrypt_error_text(e).as_str()),
        }
    }

    /// An authentication failure described by `msg`.
    pub fn authentication<T: std::fmt::Display>(msg: T) -> (e: AppError)
        ensures
            e matches AppError::Authentication(s) && to_string_from_display_ensures::<T>(&msg, s),
    {
        AppError::Authentication(msg.to_string())
    }

    /// An authorization failure described by `msg`.
    pub fn authorization<T: std::fmt::Display>(msg: T) -> (e: AppError)
        ensures
            e matches AppError::Authorization(s) && to_string_from_display_ensures::<T>(&msg, s),
    {
        AppError::Authorization(msg.to_string())
    }

    /// A validation failure described by `msg`.
    pub fn validation<T: std::fmt::Display>(msg: T) -> (e: AppError)
        ensures
            e matches AppError::Validation(s) && to_string_from_display_ensures::<T>(&msg, s),
    {
        AppError::Validation(msg.to_string())
    }

    /// A missing record described by `msg`.
    pub fn not_found<T: std::fmt::Display>(msg: T) -> (e: AppError)
        ensures
            e matches AppError::NotFound(s) && to_string_from_display_ensures::<T>(&msg, s),
    {
        AppError::NotFound(msg.to_string())
    }

    /// A conflict described by `msg`.
    pub fn conflict<T: std::fmt::Display>(msg: T) -> (e: AppError)
        ensures
            e matches AppError::Conflict(s) && to_string_from_display_ensures::<T>(&msg, s),
    {
        AppError::Conflict(msg.to_string())
    }

    /// A malformed request described by `msg`.
    pub fn bad_request<T: std::fmt::Display>(msg: T) -> (e: AppError)
        ensures
            e matches AppError::BadRequest(s) && to_string_from_display_ensures::<T>(&msg, s),
    {
        AppError::BadRequest(msg.to_string())
    }

    /// An encoding failure described by `msg`.
    pub fn serialization<T: std::fmt::Display>(msg: T) -> (e: AppError)
        ensures
            e matches AppError::Serialization(s) && to_string_from_display_ensures::<T>(&msg, s),
    {
        AppError::Serialization(msg.to_string())
    }

    /// A parse failure described by `msg`.
    pub fn parse<T: std::fmt::Display>(msg: T) -> (e: AppError)
        ensures
            e matches AppError::Parse(s) && to_string_from_display_ensures::<T>(&msg, s),
    {
        AppError::Parse(msg.to_string())
    }

    /// A task that no online agent could take, described by `msg`.
    pub fn scheduling_impossible<T: std::fmt::Display>(msg: T) -> (e: AppError)
        ensures
            e matches AppError::SchedulingImpossible(s)
                && to_string_from_display_ensures::<T>(&msg, s),
    {
        AppError::SchedulingImpossible(msg.to_string())
    }
}

impl From<sled::Error> for AppError {
    fn from(err: sled::Error) -> (e: AppError) {
        AppError::Database(err)
    }
}

impl vstd::std_specs::convert::FromSpecImpl<sled::Error> for AppError {
    open spec fn obeys_from_spec() -> bool {
        true
    }

    open spec fn from_spec(err: sled::Error) -> AppError {
        AppError::Database(err)
    }
}

impl From<anyhow::Error> for AppError {
    fn from(err: anyhow::Error) -> (e: AppError) {
        AppError::Internal(err)
    }
}

impl vstd::std_specs::convert::FromSpecImpl<anyhow::Error> for AppError {
    open spec fn obeys_from_spec() -> bool {
        true
    }

    open spec fn from_spec(err: anyhow::Error) -> AppError {
        AppError::Internal(err)
    }
}

impl From<jsonwebtoken::errors::Error> for AppError {
    fn from(err: jsonwebtoken::errors::Error) -> (e: AppError) {
        AppError::Jwt(err)
    }
}

impl vstd::std_specs::convert::FromSpecImpl<jsonwebtoken::errors::Error> for AppError {
    open spec fn obeys_from_spec() -> bool {
        true
    }

    open spec fn from_spec(err: jsonwebtoken::errors::Error) -> AppError {
        AppError::Jwt(err)
    }
}

impl From<std::io::Error> for AppError {
    fn from(err: std::io::Error) -> (e: AppError) {
        AppError::Io(err)
    }
}

impl vstd::std_specs::convert::FromSpecImpl<std::io::Error> for AppError {
    open spec fn obeys_from_spec() -> bool {
        true
    }

    open spec fn from_spec(err: std::io::Error) -> AppError {
        AppError::Io(err)
    }
}

impl From<bcrypt::BcryptError> for AppError {
    fn from(err: bcrypt::BcryptError) -> (e: AppError) {
        AppError::BcryptError(err)
    }
}

impl vstd::std_specs::convert::FromSpecImpl<bcrypt::BcryptError> for AppError {
    open spec fn obeys_from_spec() -> bool {
        true
    }

    open spec fn from_spec(err: bcrypt::BcryptError) -> AppError {
        AppError::BcryptError(err)
    }
}

} // verus!
