//! The minimal item lists: ids and English names.
use vstd::prelude::*;
use crate::key_map::KeyMap;

verus! {

/// An English name (valid for characters, weapons and cards).
#[derive(Clone, Debug, Default)]
pub struct JustTheName {
    pub en: String,
}

/// The pieces of an artifact set, keyed by piece id.
#[derive(Clone, Debug, Default)]
pub struct MinimalArtifact {
    pub set: KeyMap<MinimalArtifactSet>,
}

/// One piece of an artifact set: its name and the set effect it lists.
#[derive(Clone, Debug, Default)]
pub struct MinimalArtifactSet {
    pub name: JustTheName,
    pub desc: JustTheName,
}

pub type MinimalNameMap = KeyMap<JustTheName>;

pub type MinimalWeaponMap = KeyMap<JustTheName>;

pub type MinimalCardMap = KeyMap<JustTheName>;

pub type MinimalArtifactMap = KeyMap<MinimalArtifact>;

} // verus!
