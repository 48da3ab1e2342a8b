//! The differences that the external comparison script reports.
use vstd::prelude::*;

verus! {

/// One reported difference: a single text or a list of texts.
#[derive(Clone, Debug)]
pub enum CleanDiffs {
    Str(String),
    Arr(Vec<String>),
}

} // verus!
