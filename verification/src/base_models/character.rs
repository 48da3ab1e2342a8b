//! The parts of a character, as the item API describes it, that the
//! library reads.  (The skill scalings, which are floating-point numbers, and
//! the raw stat table stay with the program.)
use vstd::prelude::*;

verus! {

#[derive(Clone, Debug, Default)]
pub struct CharaInfo {
    pub vision: String,
}

/// The ascension phase (or phases) at which a passive talent unlocks.
#[derive(Clone, Debug)]
pub enum Unlock {
    Single(i64),
    Multiple(Vec<i64>),
}

impl Default for Unlock {
    fn default() -> (r: Self)
        ensures
            r == Unlock::Single(0),
    {
        Unlock::Single(0)
    }
}

/// How two unlocks are ordered: -1 (less), 0 (equal) or 1 (greater).
/// Single values compare by value and come before lists; two lists compare
/// by their first elements, then by their lengths, and a non-empty list
/// comes after an empty one.
pub open spec fn unlock_order(a: Unlock, b: Unlock) -> int {
    match (a, b) {
        (Unlock::Single(x), Unlock::Single(y)) => if x < y {
            -1
        } else if x == y {
            0
        } else {
            1
        },
        (Unlock::Single(_), Unlock::Multiple(_)) => -1,
        (Unlock::Multiple(_), Unlock::Single(_)) => 1,
        (Unlock::Multiple(x), Unlock::Multiple(y)) => if x@.len() > 0 && y@.len() > 0 {
            if x@[0] < y@[0] {
                -1
            } else if x@[0] > y@[0] {
                1
            } else if x@.len() < y@.len() {
                -1
            } else if x@.len() == y@.len() {
                0
            } else {
                1
            }
        } else if x@.len() > 0 {
            1
        } else if y@.len() > 0 {
            -1
        } else {
            0
        },
    }
}

impl Unlock {
    /// Compares two unlocks (see `unlock_order`).
    pub fn cmp(&self, other: &Unlock) -> (r: core::cmp::Ordering)
        ensures
            (r == core::cmp::Ordering::Less) == (unlock_order(*self, *other) == -1),
            (r == core::cmp::Ordering::Equal) == (unlock_order(*self, *other) == 0),
            (r == core::cmp::Ordering::Greater) == (unlock_order(*self, *other) == 1),
    {
        match (self, other) {
            (Unlock::Single(a), Unlock::Single(b)) => {
                if *a < *b {
                    core::cmp::Ordering::Less
                } else if *a == *b {
                    core::cmp::Ordering::Equal
                } else {
                    core::cmp::Ordering::Greater
                }
            },
            (Unlock::Single(_), Unlock::Multiple(_)) => core::cmp::Ordering::Less,
            (Unlock::Multiple(_), Unlock::Single(_)) => core::cmp::Ordering::Greater,
            (Unlock::Multiple(a), Unlock::Multiple(b)) => {
                if a.len() > 0 && b.len() > 0 {
                    if a[0] < b[0] {
                        core::cmp::Ordering::Less
                    } else if a[0] > b[0] {
                        core::cmp::Ordering::Greater
                    } else if a.len() < b.len() {
                        core::cmp::Ordering::Less
                    } else if a.len() == b.len() {
                        core::cmp::Ordering::Equal
                    } else {
                        core::cmp::Ordering::Greater
                    }
                } else if a.len() > 0 {
                    core::cmp::Ordering::Greater
                } else if b.len() > 0 {
                    core::cmp::Ordering::Less
                } else {
                    core::cmp::Ordering::Equal
                }
            },
        }
    }

    /// `Some(self.cmp(other))`: the order is total.
    pub fn partial_cmp(&self, other: &Unlock) -> (r: Option<core::cmp::Ordering>)
        ensures
            r is Some,
            (r == Some(core::cmp::Ordering::Less)) == (unlock_order(*self, *other) == -1),
            (r == Some(core::cmp::Ordering::Equal)) == (unlock_order(*self, *other) == 0),
            (r == Some(core::cmp::Ordering::Greater)) == (unlock_order(*self, *other) == 1),
    {
        Some(self.cmp(other))
    }
}

/// The order compares every unlock equal to itself.
pub proof fn unlock_order_reflexive(a: Unlock)
    ensures
        unlock_order(a, a) == 0,
{
}

/// Swapping the two sides reverses the order.
pub proof fn unlock_order_antisymmetric(a: Unlock, b: Unlock)
    ensures
        unlock_order(a, b) == -unlock_order(b, a),
{
}

/// The order is transitive, for "not greater" and for "less".
pub proof fn unlock_order_transitive(a: Unlock, b: Unlock, c: Unlock)
    ensures
        unlock_order(a, b) <= 0 && unlock_order(b, c) <= 0 ==> unlock_order(a, c) <= 0,
        unlock_order(a, b) < 0 && unlock_order(b, c) < 0 ==> unlock_order(a, c) < 0,
        unlock_order(a, b) == 0 && unlock_order(b, c) == 0 ==> unlock_order(a, c) == 0,
{
}

/// Single unlocks are ordered by their ascension phases, as integers: the
/// passive of the earlier phase comes first (phase 0 before phase 1, phase 1
/// before phase 4); a single unlock comes before a list.
pub proof fn single_unlocks_follow_their_phases(x: i64, y: i64, v: Vec<i64>)
    ensures
        (unlock_order(Unlock::Single(x), Unlock::Single(y)) < 0) <==> x < y,
        (unlock_order(Unlock::Single(x), Unlock::Single(y)) == 0) <==> x == y,
        (unlock_order(Unlock::Single(x), Unlock::Single(y)) > 0) <==> x > y,
        unlock_order(Unlock::Single(x), Unlock::Multiple(v)) < 0,
{
}

/// A passive talent.
#[derive(Clone, Debug, Default)]
pub struct Passive {
    pub name: String,
    pub desc: String,
    pub unlock: Unlock,
}

/// A constellation; `special` overrides `desc` where it is present.
#[derive(Clone, Debug, Default)]
pub struct Constellation {
    pub name: String,
    pub desc: String,
    pub special: Option<String>,
}

/// The description that a constellation shows: `special` where present,
/// `desc` otherwise.
pub open spec fn constellation_description(c: Constellation) -> String {
    match c.special {
        Some(d) => d,
        None => c.desc,
    }
}

/// Things that show a description.
pub trait HasDescriptionRef {
    fn description(&self) -> &String;
}

/// The description that a skill shows: its special one where it has one,
/// its own otherwise.
pub fn skill_description<'a>(desc: &'a String, special: &'a Option<String>) -> (r: &'a String)
    ensures
        *r == match *special {
            Some(s) => s,
            None => *desc,
        },
{
    match special {
        Some(s) => s,
        None => desc,
    }
}

/// Things whose description can be edited in place.
pub trait HasDescription {
    fn description(&mut self) -> &mut String;
}

impl HasDescription for Passive {
    /// The passive's description.
    fn description(&mut self) -> (r: &mut String)
        ensures
            *r == old(self).desc,
            *final(self) == (Passive { desc: *final(r), ..*old(self) }),
    {
        &mut self.desc
    }
}

impl HasDescription for Constellation {
    /// The constellation's shown description: `special` where present,
    /// `desc` otherwise.
    fn description(&mut self) -> (r: &mut String)
        ensures
            *r == constellation_description(*old(self)),
            *final(self) == match old(self).special {
                Some(_) => Constellation { special: Some(*final(r)), ..*old(self) },
                None => Constellation { desc: *final(r), ..*old(self) },
            },
    {
        if let Some(desc) = &mut self.special {
            desc
        } else {
            &mut self.desc
        }
    }
}

/// A character's materials: one list per ascension phase, and per talent a
/// list per level.
#[derive(Clone, Debug, Default)]
pub struct Materials {
    pub ascensions: Vec<AscensionORTalent>,
    pub talents: Vec<Vec<AscensionORTalent>>,
}

/// The materials of one ascension phase or talent level, and its Mora cost.
#[derive(Clone, Debug, Default)]
pub struct AscensionORTalent {
    pub mats: Vec<Mat>,
    pub cost: i64,
}

#[derive(Clone, Debug, Default)]
pub struct Mat {
    pub name: String,
    pub id: i64,
    pub count: i64,
    pub rank: i64,
}

/// What the library reads of a character from the item API: everything but
/// the skills (whose scalings are floating-point numbers, read by the
/// program) and the stat table, of which it takes the stat keys of the first
/// ascension phase.
#[derive(Clone, Debug, Default)]
pub struct CharacterCore {
    pub name: String,
    pub chara_info: CharaInfo,
    pub weapon: String,
    pub rarity: String,
    /// The stat keys of the first ascension phase, if there is one.
    pub ascension_keys: Option<Vec<String>>,
    pub passives: Vec<Passive>,
    pub constellations: Vec<Constellation>,
    pub materials: Materials,
}

} // verus!
