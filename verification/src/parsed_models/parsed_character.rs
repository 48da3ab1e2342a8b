//! A character in the form the program saves it.
use vstd::prelude::*;
use crate::key_map::KeyMap;
use crate::base_models::character::{Passive, Constellation};

verus! {

#[derive(Clone, Debug, Default)]
pub struct ParsedCharacter {
    pub name: String,
    pub vision: String,
    pub weapon: String,
    pub rarity: String,
    pub ascension_stat: String,
    pub skills: Vec<ParsedSkill>,
    pub passives: Vec<Passive>,
    pub constellations: Vec<Constellation>,
    pub ascension_mats: Vec<ParsedMaterial>,
    pub talent_mats: Vec<ParsedMaterial>,
    /// The descriptions of the game terms that the skills use, by term name.
    pub term_descs: Option<KeyMap<String>>,
}

#[derive(Clone, Debug, Default)]
pub struct ParsedSkill {
    pub name: String,
    pub desc: String,
    pub parameters: Vec<String>,
}

/// A material and the amount of it that is needed.
#[derive(Clone, Debug, Default)]
pub struct ParsedMaterial {
    pub name: String,
    pub amount: i64,
}

/// A constellation with its shown description.
#[derive(Clone, Debug, Default)]
pub struct ParsedConstellation {
    pub name: String,
    pub desc: String,
}

} // verus!
