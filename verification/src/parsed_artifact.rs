//! An artifact set in the form the program saves it.
use vstd::prelude::*;

verus! {

/// An artifact set's name and its two- and four-piece bonuses.
#[derive(Clone, Debug, Default)]
pub struct ParsedArtifact {
    pub name: String,
    pub two: String,
    pub four: String,
}

} // verus!
