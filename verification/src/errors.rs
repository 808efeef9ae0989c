//! The error taxonomy of the service and its translation to HTTP outcomes.
//!
//! Every failure of the request pipeline is one of a small set of kinds, and
//! a single stateless mapping decides the HTTP status and the opaque body a
//! client sees. Internal detail (driver messages, schema names) never crosses
//! this boundary: the body is one of two fixed strings.

use vstd::prelude::*;

verus! {

/// A failure of one request, after startup has succeeded.
///
/// `PoolExhausted` and `ConnectionFailed` come from acquiring a pooled
/// connection; `NotFound` is the expected outcome of a lookup that matched
/// no row; `ConstraintViolation` is an insert that referenced a missing
/// location; `QueryFailed` is any other failure of a query in flight.
#[derive(Clone, Copy, Debug, PartialEq, Eq, Structural)]
pub enum ServiceError {
    PoolExhausted,
    ConnectionFailed,
    NotFound,
    ConstraintViolation,
    QueryFailed,
}

/// A failure during process startup. Each of these is fatal: the process
/// must exit before serving any request.
#[derive(Clone, Copy, Debug, PartialEq, Eq, Structural)]
pub enum StartupError {
    MissingConfig,
    MigrationFailed,
    TrustStoreFailed,
}

/// The message a startup failure aborts the process with: each startup
/// failure is fatal and produces a fixed descriptive message, never an
/// HTTP response.
pub open spec fn startup_message_of(e: StartupError) -> Seq<char> {
    match e {
        StartupError::MissingConfig => "Env variable DATABASE_URL must be set"@,
        StartupError::MigrationFailed => "Failed to run migrations"@,
        StartupError::TrustStoreFailed => "Certs not loadable"@,
    }
}

/// The descriptive message for a fatal startup failure.
pub fn startup_message(e: &StartupError) -> (r: String)
    ensures
        r@ == startup_message_of(*e),
{
    match e {
        StartupError::MissingConfig => String::from_str("Env variable DATABASE_URL must be set"),
        StartupError::MigrationFailed => String::from_str("Failed to run migrations"),
        StartupError::TrustStoreFailed => String::from_str("Certs not loadable"),
    }
}

/// The part of an HTTP response that the error translator decides:
/// a status code and an opaque body.
pub struct HttpOutcome {
    pub status: u16,
    pub body: String,
}

/// The status a request failure maps to: a lookup that matched no row is
/// the not-found class; every other failure is the internal-error class.
pub open spec fn status_of(e: ServiceError) -> int {
    match e {
        ServiceError::NotFound => 404,
        _ => 500,
    }
}

/// The opaque body a request failure maps to.
pub open spec fn body_of(e: ServiceError) -> Seq<char> {
    match e {
        ServiceError::NotFound => "Not found"@,
        _ => "Internal server error"@,
    }
}

/// Translates a request failure into the HTTP outcome the client sees.
/// The mapping is pure and stateless, and the body never carries internal
/// detail: it is one of two fixed strings.
pub fn translate(e: &ServiceError) -> (r: HttpOutcome)
    ensures
        r.status == status_of(*e),
        r.body@ == body_of(*e),
{
    match e {
        ServiceError::NotFound => HttpOutcome {
            status: 404,
            body: String::from_str("Not found"),
        },
        _ => HttpOutcome { status: 500, body: String::from_str("Internal server error") },
    }
}

} // verus!
