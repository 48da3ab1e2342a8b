//! Glossary terms that descriptions link to.
use vstd::prelude::*;
use crate::key_map::KeyMap;

verus! {

/// A glossary term: its name and description.
#[derive(Clone, Debug, Default)]
pub struct Terms {
    pub name: String,
    pub desc: String,
}

/// The glossary, keyed by term number.
pub type TermMap = KeyMap<Terms>;

} // verus!
