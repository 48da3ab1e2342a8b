//! Trading-card-game cards in the form the program saves them.
use vstd::prelude::*;
use crate::key_map::KeyMap;
use crate::base_models::tcg_cards::TalentTCGCost;

verus! {

#[derive(Debug)]
pub enum ParsedCard {
    Character(ParsedCharacterTCG),
    Talent(ParsedTalentTCG),
}

/// A card's name.
pub open spec fn card_name(c: ParsedCard) -> String {
    match c {
        ParsedCard::Character(c) => c.name,
        ParsedCard::Talent(t) => t.name,
    }
}

impl ParsedCard {
    /// The card's name.
    pub fn name(&self) -> (r: &String)
        ensures
            *r == card_name(*self),
    {
        match self {
            ParsedCard::Character(c) => &c.name,
            ParsedCard::Talent(t) => &t.name,
        }
    }
}

/// A character card's talents by key, or a talent card's single talent.
#[derive(Debug)]
pub enum ParsedTalent {
    Character(KeyMap<ParsedTCGTalent>),
    Talent(ParsedTCGTalent),
}

impl ParsedTalent {
    /// The talents of a character card; `None` for a talent card.
    pub fn character(&self) -> (r: Option<&KeyMap<ParsedTCGTalent>>)
        ensures
            r == match *self {
                ParsedTalent::Character(m) => Some(&m),
                ParsedTalent::Talent(_) => None::<&KeyMap<ParsedTCGTalent>>,
            },
    {
        match self {
            ParsedTalent::Character(btree_map) => Some(btree_map),
            _ => None,
        }
    }

    /// The talent of a talent card; `None` for a character card.
    pub fn talent(&self) -> (r: Option<&ParsedTCGTalent>)
        ensures
            r == match *self {
                ParsedTalent::Talent(t) => Some(&t),
                ParsedTalent::Character(_) => None::<&ParsedTCGTalent>,
            },
    {
        match self {
            ParsedTalent::Talent(talent) => Some(talent),
            _ => None,
        }
    }
}

#[derive(Debug, Default)]
pub struct ParsedCharacterTCG {
    pub name: String,
    pub card_type: String,
    pub hp: u8,
    pub cost: u8,
    pub tag: Vec<String>,
    pub talents: KeyMap<ParsedTCGTalent>,
}

#[derive(Debug, Default)]
pub struct ParsedTCGTalent {
    pub name: String,
    pub desc: String,
}

#[derive(Debug, Default)]
pub struct ParsedTalentTCG {
    pub name: String,
    pub card_type: String,
    pub tag: Vec<String>,
    pub cost: Vec<TalentTCGCost>,
    pub talents: ParsedTCGTalent,
}

} // verus!
