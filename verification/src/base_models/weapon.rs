//! A weapon as the item API describes it.
use vstd::prelude::*;
use crate::key_map::KeyMap;

verus! {

#[derive(Clone, Debug, Default)]
pub struct Weapon {
    pub name: String,
    pub weapon_type: String,
    pub weapon_prop: Vec<SubStat>,
    pub rarity: i8,
    pub refinement: Refinement,
    /// Ascension materials, keyed by ascension phase.
    pub materials: KeyMap<Materials>,
}

#[derive(Clone, Debug, Default)]
pub struct WeaponProp {
    pub sub_stat: SubStat,
}

#[derive(Clone, Debug, Default)]
pub struct SubStat {
    pub prop_type: String,
}

/// The passive's description at refinement 1 and at refinement 5.
#[derive(Clone, Debug, Default)]
pub struct Refinement {
    pub r1: RefinementLevel,
    pub r5: RefinementLevel,
}

#[derive(Clone, Debug, Default)]
pub struct RefinementLevel {
    pub desc: String,
}

/// The materials of one ascension phase, and its Mora cost.
#[derive(Clone, Debug, Default)]
pub struct Materials {
    pub mats: Vec<Item>,
    pub cost: u32,
}

#[derive(Clone, Debug, Default)]
pub struct Item {
    pub name: String,
    pub count: u32,
    pub rank: u32,
}

} // verus!
