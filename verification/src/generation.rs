//! The generation-client boundary, from the library's side.
//!
//! The HTTP call to the external text-generation service happens outside the
//! library; what comes back is handed in as plain values. The function here
//! is the verified half of that boundary: extracting the generated text from
//! a decoded response.

use vstd::prelude::*;

use crate::errors::GenerationError;

verus! {

/// Classifies a decoded response body: the first content block is the
/// generated text; a response without content is an `EmptyResult`.
pub fn extract_generated_text(content: &Vec<String>) -> (r: Result<String, GenerationError>)
    ensures
        match r {
            Ok(t) => content@.len() > 0 && t == content@[0],
            Err(e) => e is EmptyResult && content@.len() == 0,
        },
{
    if content.len() == 0 {
        Err(GenerationError::EmptyResult)
    } else {
        Ok(content[0].clone())
    }
}

} // verus!
