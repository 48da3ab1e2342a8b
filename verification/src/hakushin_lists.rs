//! The minimal item lists with a type of their own for each kind of item.
use vstd::prelude::*;
use crate::key_map::KeyMap;

verus! {

#[derive(Clone, Debug, Default)]
pub struct MinimalCharacter {
    pub en: String,
}

#[derive(Clone, Debug, Default)]
pub struct MinimalWeapon {
    pub en: String,
}

#[derive(Clone, Debug, Default)]
pub struct MinimalCard {
    pub en: String,
}

/// The pieces of an artifact set, keyed by piece id.
#[derive(Clone, Debug, Default)]
pub struct MinimalArtifact {
    pub set: KeyMap<MinimalArtifactSet>,
}

#[derive(Clone, Debug, Default)]
pub struct MinimalArtifactSet {
    pub name: MinimalArtifactName,
    pub desc: MinimalArtifactDesc,
}

#[derive(Clone, Debug, Default)]
pub struct MinimalArtifactName {
    pub en: String,
}

#[derive(Clone, Debug, Default)]
pub struct MinimalArtifactDesc {
    pub en: String,
}

pub type MinimalCharacterMap = KeyMap<MinimalCharacter>;

pub type MinimalWeaponMap = KeyMap<MinimalWeapon>;

pub type MinimalCardMap = KeyMap<MinimalCard>;

pub type MinimalArtifactMap = KeyMap<MinimalArtifact>;

} // verus!
