//! Request and response shapes of the operations the library exposes.

use vstd::prelude::*;

use crate::errors::AppError;
use crate::model::JobStatus;

verus! {

/// Payload for creating a domain.
pub struct CreateDomainRequest {
    /// Name of the domain; must not be empty.
    pub name: String,
    pub description: Option<String>,
}

impl CreateDomainRequest {
    /// Accepts the payload exactly when the name is non-empty and at most
    /// 255 characters.
    pub fn validate(&self) -> (r: Result<(), AppError>)
        ensures
            r is Ok <==> 1 <= self.name@.len() <= 255,
            r matches Err(e) ==> e is Validation,
    {
        if self.name.unicode_len() >= 1 && self.name.unicode_len() <= 255 {
            Ok(())
        } else {
            Err(AppError::Validation("name: length must be between 1 and 255".to_owned()))
        }
    }
}

/// Payload for updating a domain; absent fields keep their stored value.
pub struct UpdateDomainRequest {
    pub name: Option<String>,
    pub description: Option<String>,
}

impl UpdateDomainRequest {
    /// Accepts the payload exactly when the name, if given, is non-empty and
    /// at most 255 characters.
    pub fn validate(&self) -> (r: Result<(), AppError>)
        ensures
            r is Ok <==> (self.name matches Some(n) ==> 1 <= n@.len() <= 255),
            r matches Err(e) ==> e is Validation,
    {
        match &self.name {
            Some(n) => {
                if n.unicode_len() >= 1 && n.unicode_len() <= 255 {
                    Ok(())
                } else {
                    Err(AppError::Validation("name: length must be between 1 and 255".to_owned()))
                }
            },
            None => Ok(()),
        }
    }
}

/// Payload that triggers a specification generation run.
pub struct GenerateSpecificationRequest {
    /// Identifier of the generation-service model to use; must not be empty.
    pub model: String,
}

impl GenerateSpecificationRequest {
    /// Accepts the payload exactly when the model identifier is non-empty.
    pub fn validate(&self) -> (r: Result<(), AppError>)
        ensures
            r is Ok <==> self.model@.len() >= 1,
            r matches Err(e) ==> e is Validation,
    {
        if self.model.unicode_len() >= 1 {
            Ok(())
        } else {
            Err(AppError::Validation("model: length must be at least 1".to_owned()))
        }
    }
}

/// What a trigger call returns immediately: the created job and its state.
pub struct GenerateSpecificationResponse {
    pub job_id: u64,
    pub status: JobStatus,
}

} // verus!
