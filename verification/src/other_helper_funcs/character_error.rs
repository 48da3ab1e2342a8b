//! The error of a failed character request.
use vstd::prelude::*;

verus! {

/// Why a character could not be fetched or read.
#[derive(Clone, Debug)]
pub struct CharacterError {
    pub message: String,
}

} // verus!
