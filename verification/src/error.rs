//! Service errors and their public representation.

use vstd::prelude::*;

use crate::formats::ErrorEnvelope;
use crate::validation::ValidationError;

verus! {

#[derive(Debug)]
pub enum ServiceError {
    Invalid(ValidationError),
    BadRequest(String),
    PayloadTooLarge,
    NotFound(String),
    Conflict(String),
    Unauthorized,
    QueueFull,
    Upstream(String),
    UpstreamTimeout(String),
    Database(String),
    Internal(String),
}

/// The text of an error, as `Display` shows it.
pub open spec fn error_text(e: ServiceError) -> Seq<char> {
    match e {
        ServiceError::Invalid(v) => v.path@ + ": "@ + v.message@,
        ServiceError::BadRequest(s) => s@,
        ServiceError::PayloadTooLarge => "request body exceeds 8388608 bytes"@,
        ServiceError::NotFound(s) => s@,
        ServiceError::Conflict(s) => s@,
        ServiceError::Unauthorized => "authentication required"@,
        ServiceError::QueueFull => "job queue is full"@,
        ServiceError::Upstream(s) => "estimator unavailable: "@ + s@,
        ServiceError::UpstreamTimeout(s) => "estimator timed out: "@ + s@,
        ServiceError::Database(s) => "database failure: "@ + s@,
        ServiceError::Internal(s) => "internal failure: "@ + s@,
    }
}

/// HTTP status, public code and offending path of an error.
pub open spec fn response_parts_of(e: ServiceError) -> (u16, Seq<char>, Option<Seq<char>>) {
    match e {
        ServiceError::Invalid(v) => (422, "invalid_request"@, Some(v.path@)),
        ServiceError::BadRequest(_) => (400, "bad_request"@, None),
        ServiceError::PayloadTooLarge => (413, "request_body_too_large"@, None),
        ServiceError::NotFound(_) => (404, "not_found"@, None),
        ServiceError::Conflict(_) => (409, "conflict"@, None),
        ServiceError::Unauthorized => (401, "unauthorized"@, None),
        ServiceError::QueueFull => (503, "queue_full"@, None),
        ServiceError::Upstream(_) => (502, "estimator_unavailable"@, None),
        ServiceError::UpstreamTimeout(_) => (504, "estimator_timeout"@, None),
        ServiceError::Database(_) => (500, "internal_error"@, None),
        ServiceError::Internal(_) => (500, "internal_error"@, None),
    }
}

/// Internal failures are not described to clients.
pub open spec fn public_message_of(e: ServiceError) -> Seq<char> {
    if e is Database || e is Internal {
        "internal service failure"@
    } else {
        error_text(e)
    }
}

impl ServiceError {
    pub fn database(error: &str) -> (r: Self)
        ensures
            r matches ServiceError::Database(s) && s@ == error@,
    {
        ServiceError::Database(String::from_str(error))
    }

    pub fn invalid(error: ValidationError) -> (r: Self)
        ensures
            r == ServiceError::Invalid(error),
    {
        ServiceError::Invalid(error)
    }

    pub fn message(&self) -> (r: String)
        ensures
            r@ == error_text(*self),
    {
        match self {
            ServiceError::Invalid(v) => {
                let mut r = v.path.clone();
                r.append(": ");
                r.append(v.message.as_str());
                r
            },
            ServiceError::BadRequest(s) => s.clone(),
            ServiceError::PayloadTooLarge => String::from_str("request body exceeds 8388608 bytes"),
            ServiceError::NotFound(s) => s.clone(),
            ServiceError::Conflict(s) => s.clone(),
            ServiceError::Unauthorized => String::from_str("authentication required"),
            ServiceError::QueueFull => String::from_str("job queue is full"),
            ServiceError::Upstream(s) => {
                let mut r = String::from_str("estimator unavailable: ");
                r.append(s.as_str());
                r
            },
            ServiceError::UpstreamTimeout(s) => {
                let mut r = String::from_str("estimator timed out: ");
                r.append(s.as_str());
                r
            },
            ServiceError::Database(s) => {
                let mut r = String::from_str("database failure: ");
                r.append(s.as_str());
                r
            },
            ServiceError::Internal(s) => {
                let mut r = String::from_str("internal failure: ");
                r.append(s.as_str());
                r
            },
        }
    }

    pub fn response_parts(&self) -> (r: (u16, &'static str, Option<String>))
        ensures
            r.0 == response_parts_of(*self).0,
            r.1@ == response_parts_of(*self).1,
            r.2 matches Some(p) ==> response_parts_of(*self).2 == Some(p@),
            r.2 is None ==> response_parts_of(*self).2 is None,
    {
        match self {
            ServiceError::Invalid(v) => (422, "invalid_request", Some(v.path.clone())),
            ServiceError::BadRequest(_) => (400, "bad_request", None),
            ServiceError::PayloadTooLarge => (413, "request_body_too_large", None),
            ServiceError::NotFound(_) => (404, "not_found", None),
            ServiceError::Conflict(_) => (409, "conflict", None),
            ServiceError::Unauthorized => (401, "unauthorized", None),
            ServiceError::QueueFull => (503, "queue_full", None),
            ServiceError::Upstream(_) => (502, "estimator_unavailable", None),
            ServiceError::UpstreamTimeout(_) => (504, "estimator_timeout", None),
            ServiceError::Database(_) | ServiceError::Internal(_) => (500, "internal_error", None),
        }
    }

    /// The public error body of this error under a request id.
    pub fn envelope(&self, request_id: String) -> (r: ErrorEnvelope)
        ensures
            r.code@ == response_parts_of(*self).1,
            r.message@ == public_message_of(*self),
            r.path matches Some(p) ==> response_parts_of(*self).2 == Some(p@),
            r.path is None ==> response_parts_of(*self).2 is None,
            r.request_id == request_id,
            r.details@.len() == 0,
    {
        let (_, code, path) = self.response_parts();
        let message = match self {
            ServiceError::Database(_) | ServiceError::Internal(_) => String::from_str(
                "internal service failure",
            ),
            _ => self.message(),
        };
        ErrorEnvelope {
            code: String::from_str(code),
            message,
            path,
            request_id,
            details: Vec::new(),
        }
    }
}

} // verus!
