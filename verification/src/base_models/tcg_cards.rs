//! Trading-card-game cards as the item API describes them.
use vstd::prelude::*;
use crate::chars::{decimal, decimal_string, str_chars, chars_string, seq_less, lemma_seq_less_total};
use crate::key_map::{
    KeyMap, key_map, keys_unique, keys_ascending, key_map_insert, key_map_append, lemma_key_map_take_step,
};
use crate::markup::{
    Tag, Literals, replace_tags, replace_tags_exec, trim, trim_exec, substitute_from,
    substitute_keys, string_map,
};
use crate::other_helper_funcs::helper_funcs::{cleaned_text, clean_text_colon};
use crate::parsed_tcg::{ParsedTCGTalent, ParsedTalent};

verus! {

#[derive(Debug)]
pub enum TCGCardTypes {
    Character(CharacterTCG),
    Talent(TalentTCG),
}

/// A card's cost: a number of dice for a character card, a list of costs for
/// a talent card.
#[derive(Debug)]
pub enum Cost {
    Character(u8),
    Talent(Vec<TalentTCGCost>),
}

impl Cost {
    /// The cost of a character card; `None` for a talent card.
    pub fn character(&self) -> (r: Option<u8>)
        ensures
            r == match *self {
                Cost::Character(v) => Some(v),
                Cost::Talent(_) => None::<u8>,
            },
    {
        match self {
            Cost::Character(val) => Some(*val),
            _ => None,
        }
    }

    /// The costs of a talent card; `None` for a character card.
    pub fn talent(&self) -> (r: Option<&Vec<TalentTCGCost>>)
        ensures
            r == match *self {
                Cost::Talent(v) => Some(&v),
                Cost::Character(_) => None::<&Vec<TalentTCGCost>>,
            },
    {
        match self {
            Cost::Talent(val) => Some(val),
            _ => None,
        }
    }
}

/// A character card's talents by key, or a talent card's single effect.
#[derive(Debug)]
pub enum Talent {
    Character(KeyMap<TCGTalentEffect>),
    Talent(TCGTalentEffect),
}

#[derive(Debug)]
pub struct CharacterTCG {
    pub name: String,
    pub card_type: String,
    pub hp: Option<u8>,
    pub cost: Cost,
    pub tag: Vec<String>,
    pub talent: Talent,
}

/// A child of a talent effect: a number, a text, or a nested effect.
#[derive(Debug)]
pub enum TCGChildTypes {
    Number(u8),
    String(String),
    Child(Box<TCGTalentEffect>),
}

/// The text a child stands for: the number in decimal, the text, or the
/// nested effect's name.
pub open spec fn child_text(c: TCGChildTypes) -> Seq<char> {
    match c {
        TCGChildTypes::Number(n) => decimal(n as nat),
        TCGChildTypes::String(s) => s@,
        TCGChildTypes::Child(e) => e.name@,
    }
}

impl TCGChildTypes {
    /// The text this child stands for (see `child_text`).
    pub fn get(&self) -> (r: String)
        ensures
            r@ == child_text(*self),
    {
        match self {
            TCGChildTypes::Number(val) => decimal_string(*val as u64),
            TCGChildTypes::String(val) => val.clone(),
            TCGChildTypes::Child(val) => val.name.clone(),
        }
    }
}

/// A talent's effect: its name, its description with `$[key]` references,
/// and the children that the references name.
#[derive(Debug, Default)]
pub struct TCGTalentEffect {
    pub name: String,
    pub desc: String,
    pub child: Option<KeyMap<TCGChildTypes>>,
}

/// The values that an effect's children give its references: each child's
/// key sent to the child's text.
pub open spec fn child_texts(m: Map<Seq<char>, TCGChildTypes>) -> Map<Seq<char>, Seq<char>> {
    m.map_values(|c: TCGChildTypes| child_text(c))
}

pub open spec fn effect_tree(e: TCGTalentEffect) -> Map<Seq<char>, Seq<char>> {
    match e.child {
        Some(m) => child_texts(key_map(m@)),
        None => Map::empty(),
    }
}

/// The values of all of a card's talents: each talent's values in key
/// order, a later talent's value overriding an earlier one for the same key.
pub open spec fn talents_tree(t: Seq<(String, TCGTalentEffect)>) -> Map<Seq<char>, Seq<char>>
    decreases t.len(),
{
    if t.len() == 0 {
        Map::empty()
    } else {
        talents_tree(t.drop_last()).union_prefer_right(effect_tree(t.last().1))
    }
}

/// A character card's value tree holds the keys of all its talents' trees;
/// each key has the value from the talent with the greatest key whose tree
/// holds it (later talents overwrite earlier ones, and talents come in
/// ascending key order).
pub proof fn talents_tree_prefers_greatest_talent(t: Seq<(String, TCGTalentEffect)>, x: Seq<char>, k: int)
    requires
        keys_ascending(t),
    ensures
        talents_tree(t).contains_key(x) <==> exists|i: int|
            0 <= i < t.len() && #[trigger] effect_tree(t[i].1).contains_key(x),
        0 <= k < t.len() && effect_tree(t[k].1).contains_key(x) && (forall|j: int|
            0 <= j < t.len() && j != k && #[trigger] effect_tree(t[j].1).contains_key(x) ==> seq_less(
                t[j].0@,
                t[k].0@,
            )) ==> talents_tree(t)[x] == effect_tree(t[k].1)[x],
    decreases t.len(),
{
    if t.len() > 0 {
        let last = t.len() - 1;
        let p = t.drop_last();
        assert(keys_ascending(p)) by {
            assert forall|a: int, b: int| 0 <= a < b < p.len() implies seq_less(p[a].0@, p[b].0@) && p[a].0@ != p[b].0@ by {
                assert(p[a] == t[a]);
                assert(p[b] == t[b]);
            };
        };
        talents_tree_prefers_greatest_talent(p, x, k);
        if exists|i: int| 0 <= i < p.len() && #[trigger] effect_tree(p[i].1).contains_key(x) {
            let i = choose|i: int| 0 <= i < p.len() && #[trigger] effect_tree(p[i].1).contains_key(x);
            assert(effect_tree(t[i].1).contains_key(x));
        }
        if talents_tree(t).contains_key(x) && !effect_tree(t[last].1).contains_key(x) {
            assert(talents_tree(p).contains_key(x));
            let i = choose|i: int| 0 <= i < p.len() && #[trigger] effect_tree(p[i].1).contains_key(x);
            assert(p[i] == t[i]);
        }
        if exists|i: int| 0 <= i < t.len() && #[trigger] effect_tree(t[i].1).contains_key(x) {
            let i = choose|i: int| 0 <= i < t.len() && #[trigger] effect_tree(t[i].1).contains_key(x);
            if i < last {
                assert(p[i] == t[i]);
                assert(effect_tree(p[i].1).contains_key(x));
            }
        }
        if 0 <= k < t.len() && effect_tree(t[k].1).contains_key(x) && (forall|j: int|
            0 <= j < t.len() && j != k && #[trigger] effect_tree(t[j].1).contains_key(x) ==> seq_less(
                t[j].0@,
                t[k].0@,
            )) {
            if k == last {
            } else {
                if effect_tree(t[last].1).contains_key(x) {
                    assert(seq_less(t[last].0@, t[k].0@));
                    assert(seq_less(t[k].0@, t[last].0@));
                    lemma_seq_less_total(t[k].0@, t[last].0@);
                }
                assert(p[k] == t[k]);
                assert forall|j: int|
                    0 <= j < p.len() && j != k && #[trigger] effect_tree(p[j].1).contains_key(x) implies seq_less(
                    p[j].0@,
                    p[k].0@,
                ) by {
                    assert(p[j] == t[j]);
                    assert(effect_tree(t[j].1).contains_key(x));
                };
            }
        }
    }
}

/// The values that a card's references can use.
pub open spec fn card_tree(c: CharacterTCG) -> Map<Seq<char>, Seq<char>> {
    match c.talent {
        Talent::Character(t) => talents_tree(t@),
        Talent::Talent(e) => effect_tree(e),
    }
}

/// The plain text of a card effect's description: colour tags and sprites
/// removed, value references replaced (see `key_value`), newlines turned into
/// spaces, white space collapsed, the ends trimmed, and the result cleaned
/// like any description (see `cleaned_text`).
pub open spec fn card_desc_text(desc: Seq<char>, values: Map<Seq<char>, Seq<char>>) -> Seq<char> {
    let a = replace_tags(Tag::CardTag, desc, Seq::empty());
    let b = substitute_from(a, 0, values);
    let c = replace_tags(Tag::Newline, b, seq![' ']);
    let d = trim(replace_tags(Tag::WhiteRun, c, seq![' ']));
    cleaned_text(d, false)
}

/// `p` is what `e` becomes under `values`: same name, description as
/// `card_desc_text` gives.
pub open spec fn effect_converted(
    e: TCGTalentEffect,
    p: ParsedTCGTalent,
    values: Map<Seq<char>, Seq<char>>,
) -> bool {
    p.name == e.name && p.desc@ == card_desc_text(e.desc@, values)
}

/// Every talent of `m` is converted into the talent of `t` with the same key,
/// and the two have the same keys.
pub open spec fn talents_converted(
    m: Map<Seq<char>, TCGTalentEffect>,
    t: Map<Seq<char>, ParsedTCGTalent>,
    values: Map<Seq<char>, Seq<char>>,
) -> bool {
    &&& m.dom() == t.dom()
    &&& forall|k: Seq<char>| m.contains_key(k) ==> effect_converted(m[k], #[trigger] t[k], values)
}

impl TCGTalentEffect {
    /// The values this effect's children give (see `effect_tree`).
    pub fn get_tree(&self) -> (r: KeyMap<String>)
        ensures
            keys_ascending(r@),
            string_map(key_map(r@)) == effect_tree(*self),
    {
        let mut tree: KeyMap<String> = Vec::new();
        match &self.child {
            Some(data) => {
                let n = data.len();
                for i in 0..n
                    invariant
                        n == data@.len(),
                        keys_ascending(tree@),
                        string_map(key_map(tree@)) == child_texts(key_map(data@.take(i as int))),
                {
                    let key = data[i].0.clone();
                    let value = data[i].1.get();
                    proof {
                        lemma_key_map_take_step(data@, i as int);
                    }
                    let ghost before = string_map(key_map(tree@));
                    assert(key@ == data@[i as int].0@);
                    assert(value@ == child_text(data@[i as int].1));
                    key_map_insert(&mut tree, key, value);
                    assert(string_map(key_map(tree@)) =~= before.insert(key@, value@));
                    assert(child_texts(key_map(data@.take(i + 1))) =~= child_texts(key_map(data@.take(i as int))).insert(key@, value@));
                    assert(string_map(key_map(tree@)) =~= child_texts(key_map(data@.take(i + 1))));
                }
                assert(data@.take(n as int) =~= data@);
            },
            None => {
                assert(string_map(key_map(tree@)) =~= Map::<Seq<char>, Seq<char>>::empty());
            },
        }
        tree
    }

    /// Converts this effect for saving: the same name, and the description
    /// as plain text with its value references filled in from `tree` (see
    /// `card_desc_text`).
    pub fn convert(&self, tree: &KeyMap<String>) -> (r: ParsedTCGTalent)
        ensures
            effect_converted(*self, r, string_map(key_map(tree@))),
    {
        let lit = Literals::new();
        let empty: Vec<char> = Vec::new();
        let space: Vec<char> = vec![' '];
        let desc = str_chars(self.desc.as_str());
        let a = replace_tags_exec(Tag::CardTag, &lit, &desc, &empty);
        let b = substitute_keys(&a, tree);
        let c = replace_tags_exec(Tag::Newline, &lit, &b, &space);
        let d = replace_tags_exec(Tag::WhiteRun, &lit, &c, &space);
        let final_desc = chars_string(&trim_exec(&d));
        proof {
            assert(empty@ =~= Seq::<char>::empty());
            assert(space@ =~= seq![' ']);
        }
        let (clean, _terms) = clean_text_colon(final_desc.as_str(), false);
        ParsedTCGTalent { name: self.name.clone(), desc: clean }
    }
}

impl CharacterTCG {
    /// The values that the card's references can use (see `card_tree`).
    pub fn get_tree(&self) -> (r: KeyMap<String>)
        ensures
            keys_ascending(r@),
            string_map(key_map(r@)) == card_tree(*self),
    {
        let mut tree: KeyMap<String> = Vec::new();
        match &self.talent {
            Talent::Character(t) => {
                let n = t.len();
                for i in 0..n
                    invariant
                        n == t@.len(),
                        keys_ascending(tree@),
                        string_map(key_map(tree@)) == talents_tree(t@.take(i as int)),
                {
                    let partial = t[i].1.get_tree();
                    let ghost before = key_map(tree@);
                    key_map_append(&mut tree, partial);
                    assert(t@.take(i + 1).drop_last() =~= t@.take(i as int));
                    assert(string_map(key_map(tree@)) =~= talents_tree(t@.take(i + 1)));
                }
                assert(t@.take(n as int) =~= t@);
            },
            Talent::Talent(val) => {
                let partial = val.get_tree();
                key_map_append(&mut tree, partial);
                assert(string_map(key_map(tree@)) =~= effect_tree(*val));
            },
        }
        tree
    }

    /// Converts the card's talents for saving under the values `tree` (see
    /// `TCGTalentEffect::convert`): a map with the same keys for a character
    /// card, each talent converted, and a single talent for a talent card.
    /// Where the character card's talents are in ascending key order, the
    /// result holds them entry by entry in the same order.
    pub fn convert(&self, tree: &KeyMap<String>) -> (r: ParsedTalent)
        ensures
            match (self.talent, r) {
                (Talent::Character(m), ParsedTalent::Character(t)) => {
                    &&& keys_ascending(t@)
                    &&& talents_converted(key_map(m@), key_map(t@), string_map(key_map(tree@)))
                    &&& keys_ascending(m@) ==> {
                        &&& t@.len() == m@.len()
                        &&& forall|i: int|
                            0 <= i < m@.len() ==> #[trigger] t@[i].0@ == m@[i].0@ && effect_converted(
                                m@[i].1,
                                t@[i].1,
                                string_map(key_map(tree@)),
                            )
                    }
                },
                (Talent::Talent(e), ParsedTalent::Talent(p)) => effect_converted(
                    e,
                    p,
                    string_map(key_map(tree@)),
                ),
                _ => false,
            },
    {
        let ghost values = string_map(key_map(tree@));
        match &self.talent {
            Talent::Character(map) => {
                let mut talents: KeyMap<ParsedTCGTalent> = Vec::new();
                let n = map.len();
                for i in 0..n
                    invariant
                        n == map@.len(),
                        values == string_map(key_map(tree@)),
                        keys_ascending(talents@),
                        talents_converted(
                            key_map(map@.take(i as int)),
                            key_map(talents@),
                            values,
                        ),
                        keys_ascending(map@) ==> {
                            &&& talents@.len() == i
                            &&& forall|q: int|
                                0 <= q < i ==> #[trigger] talents@[q].0@ == map@[q].0@ && effect_converted(
                                    map@[q].1,
                                    talents@[q].1,
                                    values,
                                )
                        },
                {
                    let key = map[i].0.clone();
                    let p = map[i].1.convert(tree);
                    proof {
                        lemma_key_map_take_step(map@, i as int);
                        if keys_ascending(map@) {
                            assert forall|q: int| 0 <= q < talents@.len() implies seq_less(#[trigger] talents@[q].0@, key@) by {
                                assert(talents@[q].0@ == map@[q].0@);
                            };
                        }
                    }
                    let ghost before = talents@;
                    key_map_insert(&mut talents, key, p);
                    proof {
                        if keys_ascending(map@) {
                            assert(talents@ == before.push((key, p)));
                            assert forall|q: int| 0 <= q < i + 1 implies #[trigger] talents@[q].0@ == map@[q].0@
                                && effect_converted(map@[q].1, talents@[q].1, values) by {
                                if q < i {
                                    assert(talents@[q] == before[q]);
                                }
                            };
                        }
                    }
                    assert(key_map(map@.take(i + 1)).dom() =~= key_map(talents@).dom());
                }
                assert(map@.take(n as int) =~= map@);
                ParsedTalent::Character(talents)
            },
            Talent::Talent(eff) => ParsedTalent::Talent(eff.convert(tree)),
        }
    }
}

#[derive(Debug, Default)]
pub struct CharacterTCGTalentChild {
    pub name: String,
    pub desc: String,
    pub child: KeyMap<TCGChildTypes>,
}

#[derive(Debug, Default)]
pub struct TalentTCG {
    pub name: String,
    pub card_type: String,
    pub tag: Vec<String>,
    pub cost: Vec<TalentTCGCost>,
    pub talent: KeyMap<TCGTalentEffect>,
}

#[derive(Clone, Debug, Default)]
pub struct TalentTCGCost {
    pub cost_type: String,
    pub count: Option<u8>,
}

/// Two child values are alike: the same number, the same text, or alike
/// effects.
pub open spec fn same_child(a: TCGChildTypes, b: TCGChildTypes) -> bool
    decreases a, 0nat,
{
    match (a, b) {
        (TCGChildTypes::Number(x), TCGChildTypes::Number(y)) => x == y,
        (TCGChildTypes::String(x), TCGChildTypes::String(y)) => x@ == y@,
        (TCGChildTypes::Child(x), TCGChildTypes::Child(y)) => same_effect(*x, *y),
        _ => false,
    }
}

/// Two effects are alike: the same name and description, and either no
/// children or children with the same keys, in order, and alike values.
pub open spec fn same_effect(a: TCGTalentEffect, b: TCGTalentEffect) -> bool
    decreases a, 1nat,
{
    &&& a.name@ == b.name@
    &&& a.desc@ == b.desc@
    &&& match (a.child, b.child) {
        (None, None) => true,
        (Some(x), Some(y)) => same_children(x@, y@, a),
        _ => false,
    }
}

/// Two lists of children are alike, entry by entry.
pub open spec fn same_children(
    x: Seq<(String, TCGChildTypes)>,
    y: Seq<(String, TCGChildTypes)>,
    owner: TCGTalentEffect,
) -> bool
    decreases owner, 0nat, x.len(),
{
    if x.len() == 0 {
        y.len() == 0
    } else if y.len() == 0 {
        false
    } else if decreases_to!(owner => x.last().1) {
        same_children(x.drop_last(), y.drop_last(), owner) && x.last().0@ == y.last().0@
            && same_child(x.last().1, y.last().1)
    } else {
        false
    }
}

impl TCGTalentEffect {
    /// A copy of the effect, children and all.
    pub fn deep_copy(&self) -> (r: TCGTalentEffect)
        ensures
            same_effect(*self, r),
        decreases self, 3nat,
    {
        let child = match &self.child {
            Some(m) => Some(copy_children(m, Ghost(self))),
            None => None,
        };
        TCGTalentEffect { name: self.name.clone(), desc: self.desc.clone(), child }
    }
}

/// A copy of an effect's children.
fn copy_children(m: &KeyMap<TCGChildTypes>, Ghost(owner): Ghost<&TCGTalentEffect>) -> (r: KeyMap<TCGChildTypes>)
    requires
        owner.child == Some(*m),
    ensures
        same_children(m@, r@, *owner),
    decreases owner, 2nat,
{
    let mut out: KeyMap<TCGChildTypes> = Vec::new();
    let n = m.len();
    let mut i: usize = 0;
    assert(m@.take(0) =~= Seq::<(String, TCGChildTypes)>::empty());
    while i < n
        invariant
            n == m@.len(),
            0 <= i <= n,
            owner.child == Some(*m),
            same_children(m@.take(i as int), out@, *owner),
        decreases n - i,
    {
        let key = m[i].0.clone();
        proof {
            broadcast use vstd::std_specs::vec::axiom_vec_decreases_to_view;
            let c = owner.child;
            assert(decreases_to!(*owner => c));
            assert(decreases_to!(c => c->0));
            assert(c->0 == *m);
            assert(decreases_to!(*m => m@));
            assert(decreases_to!(m@ => m@[i as int]));
            assert(decreases_to!(m@[i as int] => m@[i as int].1));
            assert(decreases_to!(*owner => m@[i as int].1));
        }
        let val = m[i].1.deep_copy(Ghost(owner));
        let ghost before = out@;
        out.push((key, val));
        assert(m@.take(i + 1).drop_last() =~= m@.take(i as int));
        assert(out@.drop_last() =~= before);
        i = i + 1;
    }
    assert(m@.take(n as int) =~= m@);
    out
}

impl TCGChildTypes {
    /// A copy of the child value.
    fn deep_copy(&self, Ghost(owner): Ghost<&TCGTalentEffect>) -> (r: TCGChildTypes)
        requires
            decreases_to!(*owner => *self),
        ensures
            same_child(*self, r),
        decreases owner, 1nat,
    {
        match self {
            TCGChildTypes::Number(n) => TCGChildTypes::Number(*n),
            TCGChildTypes::String(t) => TCGChildTypes::String(t.clone()),
            TCGChildTypes::Child(e) => TCGChildTypes::Child(Box::new(e.deep_copy())),
        }
    }
}

impl Talent {
    /// A copy of a character card's talents; `None` for a talent card.
    pub fn character(&self) -> (r: Option<KeyMap<TCGTalentEffect>>)
        ensures
            match *self {
                Talent::Character(m) => r is Some && r.unwrap()@.len() == m@.len() && forall|i: int|
                    0 <= i < m@.len() ==> #[trigger] r.unwrap()@[i].0@ == m@[i].0@ && same_effect(
                        m@[i].1,
                        r.unwrap()@[i].1,
                    ),
                Talent::Talent(_) => r is None,
            },
    {
        match self {
            Talent::Character(val) => {
                let mut out: KeyMap<TCGTalentEffect> = Vec::new();
                let n = val.len();
                let mut i: usize = 0;
                while i < n
                    invariant
                        n == val@.len(),
                        0 <= i <= n,
                        out@.len() == i,
                        forall|k: int|
                            0 <= k < i ==> #[trigger] out@[k].0@ == val@[k].0@ && same_effect(val@[k].1, out@[k].1),
                    decreases n - i,
                {
                    out.push((val[i].0.clone(), val[i].1.deep_copy()));
                    i = i + 1;
                }
                Some(out)
            },
            _ => None,
        }
    }

    /// A copy of a talent card's talent; `None` for a character card.
    pub fn talent(&self) -> (r: Option<TCGTalentEffect>)
        ensures
            match *self {
                Talent::Talent(e) => r is Some && same_effect(e, r.unwrap()),
                Talent::Character(_) => r is None,
            },
    {
        match self {
            Talent::Talent(val) => Some(val.deep_copy()),
            _ => None,
        }
    }
}

} // verus!
