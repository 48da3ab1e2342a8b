//! A weapon in the form the program saves it.
use vstd::prelude::*;
use crate::base_models::weapon::Materials;

verus! {

#[derive(Clone, Debug, Default)]
pub struct ParsedWeapon {
    pub name: String,
    pub weapon_type: String,
    pub rarity: i8,
    pub substat: String,
    /// The passive's description, with the values of refinement 1 and 5.
    pub effect: String,
    /// The materials of all ascension phases together.
    pub materials: Materials,
}

} // verus!
