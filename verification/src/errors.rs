//! Error taxonomy of the pipeline.
//!
//! `AppError` classifies everything a pipeline operation can report:
//! rejected input, a collaborator-store failure, a failure of the external
//! generation service, or a missing record. `GenerationError` refines the
//! generation-service failures into the four classified variants.

use vstd::prelude::*;

use crate::numfmt::{dec_chars, u64_to_string};

verus! {

/// A classified failure of the external text-generation service.
#[derive(Debug)]
pub enum GenerationError {
    /// The service could not be reached at all.
    TransportFailure(String),
    /// The service answered with a non-success status; carries the status
    /// code and the response body.
    ServiceError(u16, String),
    /// The response arrived but could not be decoded into the expected shape.
    MalformedResponse(String),
    /// The response decoded successfully but contained no usable content.
    EmptyResult,
}

/// An error surfaced by a pipeline operation.
#[derive(Debug)]
pub enum AppError {
    /// Malformed trigger input, e.g. an empty model identifier or a scenario
    /// with no recognized steps.
    Validation(String),
    /// A collaborator-store fetch or write failed.
    DataAccess(String),
    /// The external generation service failed; see `GenerationError`.
    Generation(GenerationError),
    /// A referenced record does not exist.
    NotFound(String),
}

impl GenerationError {
    /// The human-readable message recorded for this failure.
    pub open spec fn message_view(self) -> Seq<char> {
        match self {
            GenerationError::TransportFailure(e) => "Failed to call generation service: "@ + e@,
            GenerationError::ServiceError(status, body) => "Generation service error: "@ + dec_chars(
                status as int,
            ) + " - "@ + body@,
            GenerationError::MalformedResponse(e) => "Failed to parse generation service response: "@
                + e@,
            GenerationError::EmptyResult => "Generation service returned empty response"@,
        }
    }

    /// Renders the failure as its human-readable message.
    pub fn message(&self) -> (r: String)
        ensures
            r@ == self.message_view(),
    {
        match self {
            GenerationError::TransportFailure(e) => {
                let mut m = "Failed to call generation service: ".to_owned();
                m.append(e.as_str());
                m
            },
            GenerationError::ServiceError(status, body) => {
                let mut m = "Generation service error: ".to_owned();
                let digits = u64_to_string(*status as u64);
                m.append(digits.as_str());
                m.append(" - ");
                m.append(body.as_str());
                m
            },
            GenerationError::MalformedResponse(e) => {
                let mut m = "Failed to parse generation service response: ".to_owned();
                m.append(e.as_str());
                m
            },
            GenerationError::EmptyResult => "Generation service returned empty response".to_owned(),
        }
    }
}

impl AppError {
    /// The human-readable message recorded for this error.
    pub open spec fn message_view(self) -> Seq<char> {
        match self {
            AppError::Validation(m) => "Validation error: "@ + m@,
            AppError::DataAccess(m) => "Data access error: "@ + m@,
            AppError::Generation(g) => g.message_view(),
            AppError::NotFound(m) => "Not found: "@ + m@,
        }
    }

    /// Renders the error as its human-readable message.
    pub fn message(&self) -> (r: String)
        ensures
            r@ == self.message_view(),
    {
        match self {
            AppError::Validation(m) => {
                let mut r = "Validation error: ".to_owned();
                r.append(m.as_str());
                r
            },
            AppError::DataAccess(m) => {
                let mut r = "Data access error: ".to_owned();
                r.append(m.as_str());
                r
            },
            AppError::Generation(g) => g.message(),
            AppError::NotFound(m) => {
                let mut r = "Not found: ".to_owned();
                r.append(m.as_str());
                r
            },
        }
    }
}

} // verus!
