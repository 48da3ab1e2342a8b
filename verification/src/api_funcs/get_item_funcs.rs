//! What a query asks for, and how the program turns what the item API
//! returns into the items it saves.
use vstd::prelude::*;
use vstd::string::StringExecFns;
use crate::chars::{chars_string, str_chars, utf8_len, lemma_utf8_len_grows};
use crate::key_map::{KeyMap, key_map, key_map_get, key_map_insert, key_map_append};
use crate::base_models::hakushin_lists::{MinimalArtifact, MinimalArtifactMap, MinimalArtifactSet};
use crate::parsed_artifact::ParsedArtifact;
use crate::parsed_weapon::ParsedWeapon;
use crate::parsed_tcg::{ParsedCard, ParsedCharacterTCG, ParsedTalentTCG, ParsedTalent};
use crate::base_models::weapon::Weapon;
use crate::base_models::tcg_cards::{CharacterTCG, Cost, Talent, card_tree, talents_converted, effect_converted};
use crate::key_map::{keys_unique, keys_ascending};
use crate::markup::string_map;
use crate::color_segments::segment_count;
use crate::materials_model::{total_cost, all_items, name_count, totals_of, items_sorted};
use crate::other_helper_funcs::helper_funcs::{compare_color_texts, compared_color_texts, accumulate_materials, clean_text_colon, cleaned_text};
use crate::base_models::terms::{Terms, TermMap};
use crate::markup::link_numbers_from;
use crate::gui_funcs::display_lists::{custom_name, get_custom_name_from_id};
use crate::base_models::character::{Passive, Unlock, CharacterCore, unlock_order, unlock_order_antisymmetric, unlock_order_transitive};
use crate::parsed_models::parsed_character::{ParsedCharacter, ParsedSkill};
use crate::ascension_funcs::{get_ascension_stat_option, first_special_stat};
use crate::material_funcs::{parse_materials, sums_fit, sums_of, all_parts, materials_sorted};

verus! {

/// The white space between the ids of a query: space, tab, line feed, form
/// feed and carriage return.
pub open spec fn is_ascii_ws(c: char) -> bool {
    c == ' ' || c == '\t' || c == '\n' || c == '\x0C' || c == '\r'
}

/// The words of a text: its longest runs of characters that are not ASCII
/// white space, in order.
pub open spec fn ascii_words(s: Seq<char>) -> Seq<Seq<char>>
    decreases s.len(),
{
    if s.len() == 0 {
        Seq::empty()
    } else {
        let w = ascii_words(s.drop_last());
        let c = s.last();
        if is_ascii_ws(c) {
            w
        } else if s.len() >= 2 && !is_ascii_ws(s[s.len() - 2]) {
            w.update(w.len() - 1, w.last().push(c))
        } else {
            w.push(seq![c])
        }
    }
}

proof fn lemma_words_nonempty(s: Seq<char>)
    requires
        s.len() > 0,
        !is_ascii_ws(s.last()),
    ensures
        ascii_words(s).len() > 0,
    decreases s.len(),
{
    if s.len() >= 2 && !is_ascii_ws(s[s.len() - 2]) {
        assert(s.drop_last().last() == s[s.len() - 2]);
        lemma_words_nonempty(s.drop_last());
    }
}

/// Every id of a query is a non-empty run without white space.
pub proof fn words_are_unbroken(s: Seq<char>)
    ensures
        forall|w: int|
            0 <= w < ascii_words(s).len() ==> #[trigger] ascii_words(s)[w].len() > 0 && forall|k: int|
                0 <= k < ascii_words(s)[w].len() ==> !is_ascii_ws(#[trigger] ascii_words(s)[w][k]),
    decreases s.len(),
{
    if s.len() > 0 {
        words_are_unbroken(s.drop_last());
        let c = s.last();
        if !is_ascii_ws(c) && s.len() >= 2 && !is_ascii_ws(s[s.len() - 2]) {
            assert(s.drop_last().last() == s[s.len() - 2]);
            lemma_words_nonempty(s.drop_last());
            let w = ascii_words(s.drop_last());
            assert forall|k: int| 0 <= k < w.last().push(c).len() implies !is_ascii_ws(#[trigger] w.last().push(c)[k]) by {
                if k < w.last().len() {
                    assert(w[w.len() - 1][k] == w.last()[k]);
                }
            };
        }
    }
}

/// The text of each string.
pub open spec fn string_views(v: Seq<String>) -> Seq<Seq<char>> {
    v.map_values(|x: String| x@)
}

/// The ids of a query: its words (see `ascii_words`).
pub fn split_ids(inputs: &str) -> (r: Vec<String>)
    ensures
        string_views(r@) == ascii_words(inputs@),
{
    let chars = str_chars(inputs);
    let ghost s = inputs@;
    let mut words: Vec<String> = Vec::new();
    let mut cur: Vec<char> = Vec::new();
    let mut in_word = false;
    let n = chars.len();
    let mut i: usize = 0;
    assert(s.take(0) =~= Seq::<char>::empty());
    assert(string_views(words@) =~= Seq::<Seq<char>>::empty());
    while i < n
        invariant
            chars@ == s,
            n == s.len(),
            0 <= i <= n,
            in_word == (i > 0 && !is_ascii_ws(s[i - 1])),
            !in_word ==> cur@.len() == 0,
            (if in_word {
                string_views(words@).push(cur@)
            } else {
                string_views(words@)
            }) == ascii_words(s.take(i as int)),
        decreases n - i,
    {
        let c = chars[i];
        let ghost pre = s.take(i as int);
        let ghost w = ascii_words(pre);
        assert(s.take(i + 1).drop_last() =~= pre);
        assert(s.take(i + 1).last() == c);
        if c == ' ' || c == '\t' || c == '\n' || c == '\x0C' || c == '\r' {
            if in_word {
                let ghost before = string_views(words@);
                let word = chars_string(&cur);
                words.push(word);
                assert(string_views(words@) =~= before.push(cur@));
                cur = Vec::new();
            }
            in_word = false;
        } else {
            let ghost before = string_views(words@);
            if in_word {
                assert(s.take(i + 1)[i - 1] == s[i - 1]);
                assert(before.push(cur@).update(before.len() as int, cur@.push(c)) =~= before.push(cur@.push(c)));
            } else {
                assert(i > 0 ==> s.take(i + 1)[i - 1] == s[i - 1]);
                assert(cur@.push(c) =~= seq![c]);
            }
            cur.push(c);
            in_word = true;
        }
        i = i + 1;
    }
    if in_word {
        let ghost before = string_views(words@);
        let word = chars_string(&cur);
        words.push(word);
        assert(string_views(words@) =~= before.push(cur@));
    }
    assert(s.take(n as int) =~= s);
    words
}

/// The UTF-8 length of a text, or 7 where it is longer than 6 bytes.
fn byte_len_capped(s: &str) -> (r: usize)
    ensures
        r == if utf8_len(s@) <= 6 {
            utf8_len(s@)
        } else {
            7
        },
{
    let chars = str_chars(s);
    let n = chars.len();
    let mut total: usize = 0;
    let mut i: usize = 0;
    assert(s@.take(0) =~= Seq::<char>::empty());
    while i < n
        invariant
            chars@ == s@,
            n == s@.len(),
            0 <= i <= n,
            total == utf8_len(s@.take(i as int)),
            total <= 6,
        decreases n - i,
    {
        let c = chars[i];
        let code = c as u32;
        let w: usize = if code < 0x80 {
            1
        } else if code < 0x800 {
            2
        } else if code < 0x10000 {
            3
        } else {
            4
        };
        assert(s@.take(i + 1).drop_last() =~= s@.take(i as int));
        total = total + w;
        i = i + 1;
        if total > 6 {
            proof {
                lemma_utf8_len_grows(s@, i as int);
            }
            return 7;
        }
    }
    assert(s@.take(n as int) =~= s@);
    total
}

/// What a query id asks for.
#[derive(Clone, Copy, Debug, PartialEq, Eq, Structural)]
pub enum QueryKind {
    Card,
    Artifact,
    Weapon,
    Character,
}

/// An id of 4 or 6 bytes names a card; one of 5 bytes an artifact set where
/// the artifact list has that key, and a weapon otherwise; any other id a
/// character.
pub open spec fn query_kind_of(id: Seq<char>, artifacts: Option<Seq<(String, MinimalArtifact)>>) -> QueryKind {
    let len = utf8_len(id);
    if len == 4 || len == 6 {
        QueryKind::Card
    } else if len == 5 {
        match artifacts {
            Some(sets) => if key_map(sets).contains_key(id) {
                QueryKind::Artifact
            } else {
                QueryKind::Weapon
            },
            None => QueryKind::Weapon,
        }
    } else {
        QueryKind::Character
    }
}

/// Whether the artifact list has the key `id`.
fn has_artifact(sets: &MinimalArtifactMap, id: &str) -> (r: bool)
    ensures
        r == key_map(sets@).contains_key(id@),
{
    let key = String::from_str(id);
    key_map_get(sets, &key).is_some()
}

/// What the query id asks for (see `query_kind_of`).
pub fn query_kind(id: &str, artifacts: &Option<MinimalArtifactMap>) -> (r: QueryKind)
    ensures
        r == query_kind_of(id@, match artifacts {
            Some(sets) => Some(sets@),
            None => None,
        }),
{
    let len = byte_len_capped(id);
    if len == 4 || len == 6 {
        QueryKind::Card
    } else if len == 5 {
        match artifacts {
            Some(sets) => if has_artifact(sets, id) {
                QueryKind::Artifact
            } else {
                QueryKind::Weapon
            },
            None => QueryKind::Weapon,
        }
    } else {
        QueryKind::Character
    }
}

/// One id of a query: what it asks for, and whether the glossary is to be
/// fetched before it.
pub struct QueryStep {
    pub id: String,
    pub kind: QueryKind,
    pub fetch_terms_first: bool,
}

/// The artifact list as entries.
pub open spec fn artifact_entries(artifacts: Option<MinimalArtifactMap>) -> Option<Seq<(String, MinimalArtifact)>> {
    match artifacts {
        Some(sets) => Some(sets@),
        None => None,
    }
}

/// How a query runs: its ids in order, each with what it asks for (see
/// `query_kind_of`); the glossary is fetched once, before the first id that
/// asks for a character.
pub fn plan_query(inputs: &str, artifacts: &Option<MinimalArtifactMap>) -> (r: Vec<QueryStep>)
    ensures
        r@.len() == ascii_words(inputs@).len(),
        forall|i: int|
            0 <= i < r@.len() ==> {
                &&& #[trigger] r@[i].id@ == ascii_words(inputs@)[i]
                &&& r@[i].kind == query_kind_of(r@[i].id@, artifact_entries(*artifacts))
                &&& r@[i].fetch_terms_first == (r@[i].kind == QueryKind::Character && forall|j: int|
                    0 <= j < i ==> r@[j].kind != QueryKind::Character)
            },
{
    let ids = split_ids(inputs);
    let mut steps: Vec<QueryStep> = Vec::new();
    let mut tried_terms = false;
    let n = ids.len();
    let mut i: usize = 0;
    while i < n
        invariant
            n == ids@.len(),
            string_views(ids@) == ascii_words(inputs@),
            0 <= i <= n,
            steps@.len() == i,
            tried_terms == exists|j: int| 0 <= j < i && #[trigger] steps@[j].kind == QueryKind::Character,
            forall|k: int|
                0 <= k < i ==> {
                    &&& #[trigger] steps@[k].id@ == ascii_words(inputs@)[k]
                    &&& steps@[k].kind == query_kind_of(steps@[k].id@, artifact_entries(*artifacts))
                    &&& steps@[k].fetch_terms_first == (steps@[k].kind == QueryKind::Character && forall|j: int|
                        0 <= j < k ==> steps@[j].kind != QueryKind::Character)
                },
        decreases n - i,
    {
        let id = ids[i].clone();
        assert(string_views(ids@)[i as int] == ids@[i as int]@);
        let kind = query_kind(id.as_str(), artifacts);
        let first = kind == QueryKind::Character && !tried_terms;
        if kind == QueryKind::Character {
            tried_terms = true;
        }
        let ghost before = steps@;
        steps.push(QueryStep { id, kind, fetch_terms_first: first });
        proof {
            assert forall|k: int| 0 <= k < i + 1 implies {
                &&& #[trigger] steps@[k].id@ == ascii_words(inputs@)[k]
                &&& steps@[k].kind == query_kind_of(steps@[k].id@, artifact_entries(*artifacts))
                &&& steps@[k].fetch_terms_first == (steps@[k].kind == QueryKind::Character && forall|j: int|
                    0 <= j < k ==> steps@[j].kind != QueryKind::Character)
            } by {
                if k < i {
                    assert(steps@[k] == before[k]);
                    assert forall|j: int| 0 <= j < k implies steps@[j] == before[j] by {};
                } else {
                    assert forall|j: int| 0 <= j < k implies steps@[j] == before[j] by {};
                }
            };
            if kind == QueryKind::Character {
                assert(steps@[i as int].kind == QueryKind::Character);
            } else if tried_terms {
                let w = choose|j: int| 0 <= j < i && #[trigger] before[j].kind == QueryKind::Character;
                assert(steps@[w] == before[w]);
                assert(steps@[w].kind == QueryKind::Character);
            } else {
                assert forall|j: int| 0 <= j < i + 1 implies #[trigger] steps@[j].kind != QueryKind::Character by {
                    if j < i {
                        assert(steps@[j] == before[j]);
                    }
                };
            }
        }
        i = i + 1;
    }
    steps
}

/// The piece keys of a set: `2`, the set's key, then `0` for the two-piece
/// bonus and `1` for the four-piece one.
pub open spec fn piece_key(key: Seq<char>, last: char) -> Seq<char> {
    seq!['2'] + key + seq![last]
}

/// A set's name and bonuses: the name and bonus of its piece `2{key}0`, and
/// the bonus of its piece `2{key}1`; the set must have both pieces.
pub fn artifact_access(artifact: &MinimalArtifact, key: &str) -> (r: ParsedArtifact)
    requires
        key_map(artifact.set@).contains_key(piece_key(key@, '0')),
        key_map(artifact.set@).contains_key(piece_key(key@, '1')),
    ensures
        r.name == key_map(artifact.set@)[piece_key(key@, '0')].name.en,
        r.two == key_map(artifact.set@)[piece_key(key@, '0')].desc.en,
        r.four == key_map(artifact.set@)[piece_key(key@, '1')].desc.en,
{
    let s = &artifact.set;
    let new_key = String::from_str("2").concat(key);
    let k0 = new_key.clone().concat("0");
    let k1 = new_key.concat("1");
    proof {
        reveal_strlit("2");
        reveal_strlit("0");
        reveal_strlit("1");
        assert(k0@ =~= piece_key(key@, '0'));
        assert(k1@ =~= piece_key(key@, '1'));
    }
    let fst = key_map_get(s, &k0).unwrap();
    let lst = key_map_get(s, &k1).unwrap();
    ParsedArtifact { name: fst.name.en.clone(), two: fst.desc.en.clone(), four: lst.desc.en.clone() }
}

/// A weapon in the form the program saves it: its name, type and rarity, the
/// stat of its last property, its passive with the values of refinement 1 and
/// 5 merged (see `compared_color_texts`), and the materials of all its
/// ascension phases together.  The weapon must have a property, its two
/// refinement texts the same number of segments, and its material totals
/// must fit in a `u32`.
pub fn build_parsed_weapon(weapon: Weapon) -> (r: ParsedWeapon)
    requires
        weapon.weapon_prop@.len() > 0,
        segment_count(weapon.refinement.r1.desc@, true) == segment_count(weapon.refinement.r5.desc@, true),
        keys_unique(weapon.materials@),
        total_cost(weapon.materials@) <= u32::MAX,
        forall|nm: Seq<char>| #[trigger] name_count(all_items(weapon.materials@), nm) <= u32::MAX,
    ensures
        r.name == weapon.name,
        r.weapon_type == weapon.weapon_type,
        r.rarity == weapon.rarity,
        r.substat == weapon.weapon_prop@.last().prop_type,
        r.effect@ == compared_color_texts(weapon.refinement.r1.desc@, weapon.refinement.r5.desc@),
        r.materials.cost == total_cost(weapon.materials@),
        totals_of(r.materials.mats@, all_items(weapon.materials@)),
        items_sorted(r.materials.mats@),
{
    let eff = compare_color_texts(weapon.refinement.r1.desc.as_str(), weapon.refinement.r5.desc.as_str());
    let mats = accumulate_materials(&weapon.materials);
    let last = weapon.weapon_prop.len() - 1;
    let substat = weapon.weapon_prop[last].prop_type.clone();
    ParsedWeapon {
        name: weapon.name,
        weapon_type: weapon.weapon_type,
        rarity: weapon.rarity,
        substat,
        effect: eff,
        materials: mats,
    }
}

/// A card is a character card where its type reads `Character`.
pub open spec fn is_character_card(card: CharacterTCG) -> bool {
    card.card_type@ == "Character"@
}

/// What a card must hold to be saved: a character card has its hit points, a
/// number of dice as cost and a map of talents; any other card a list of
/// costs and a single talent.
pub open spec fn card_is_complete(card: CharacterTCG) -> bool {
    if is_character_card(card) {
        card.hp is Some && card.cost is Character && card.talent is Character
    } else {
        card.cost is Talent && card.talent is Talent
    }
}

/// A card in the form the program saves it: its shown name (see
/// `custom_name`), type and tags, and its talents with their descriptions
/// filled in from the card's own values (see `card_tree`); a character card
/// with its hit points and dice, any other card with its costs.
pub fn build_parsed_card(id: &str, card: CharacterTCG) -> (r: ParsedCard)
    requires
        card_is_complete(card),
    ensures
        match r {
            ParsedCard::Character(c) => {
                &&& is_character_card(card)
                &&& c.name@ == custom_name(id@, card.name@)
                &&& c.card_type == card.card_type
                &&& card.hp == Some(c.hp)
                &&& card.cost == Cost::Character(c.cost)
                &&& c.tag == card.tag
                &&& keys_ascending(c.talents@)
                &&& match card.talent {
                    Talent::Character(m) => talents_converted(key_map(m@), key_map(c.talents@), card_tree(card)),
                    Talent::Talent(_) => false,
                }
            },
            ParsedCard::Talent(t) => {
                &&& !is_character_card(card)
                &&& t.name@ == custom_name(id@, card.name@)
                &&& t.card_type == card.card_type
                &&& card.cost == Cost::Talent(t.cost)
                &&& t.tag == card.tag
                &&& match card.talent {
                    Talent::Talent(e) => effect_converted(e, t.talents, card_tree(card)),
                    Talent::Character(_) => false,
                }
            },
        },
{
    let all_terms = card.get_tree();
    let talents = card.convert(&all_terms);
    let name = get_custom_name_from_id(id, &card.name);
    let ghost old_card = card;
    if card.card_type == String::from_str("Character") {
        let hp = match card.hp {
            Some(h) => h,
            None => 0,
        };
        let dice = match card.cost {
            Cost::Character(d) => d,
            Cost::Talent(_) => 0,
        };
        let map = match talents {
            ParsedTalent::Character(m) => m,
            ParsedTalent::Talent(_) => Vec::new(),
        };
        ParsedCard::Character(ParsedCharacterTCG {
            name,
            card_type: card.card_type,
            hp,
            cost: dice,
            tag: card.tag,
            talents: map,
        })
    } else {
        let costs = match card.cost {
            Cost::Talent(c) => c,
            Cost::Character(_) => Vec::new(),
        };
        let talent = match talents {
            ParsedTalent::Talent(t) => t,
            ParsedTalent::Character(_) => crate::parsed_tcg::ParsedTCGTalent { name: String::new(), desc: String::new() },
        };
        ParsedCard::Talent(ParsedTalentTCG {
            name,
            card_type: card.card_type,
            tag: card.tag,
            cost: costs,
            talents: talent,
        })
    }
}

/// The passives are in unlock order.
pub open spec fn passives_ordered(s: Seq<Passive>) -> bool {
    forall|i: int, j: int| 0 <= i < j < s.len() ==> unlock_order(s[i].unlock, s[j].unlock) <= 0
}

/// `out` is `v` rearranged by `perm` (`out[p]` is `v[perm[p]]`, no index
/// used twice) so that passives that unlock together keep their order.
pub open spec fn stable_arrangement(out: Seq<Passive>, v: Seq<Passive>, perm: Seq<int>) -> bool {
    &&& perm.len() == out.len()
    &&& out.len() == v.len()
    &&& forall|p: int| 0 <= p < out.len() ==> 0 <= #[trigger] perm[p] < v.len() && out[p] == v[perm[p]]
    &&& forall|p: int, q: int| 0 <= p < q < out.len() ==> perm[p] != perm[q]
    &&& forall|p: int, q: int|
        0 <= p < q < out.len() && unlock_order(out[p].unlock, out[q].unlock) == 0 ==> perm[p] < perm[q]
}

fn unlock_greater(a: &Unlock, b: &Unlock) -> (r: bool)
    ensures
        r == (unlock_order(*a, *b) > 0),
{
    match a.cmp(b) {
        core::cmp::Ordering::Greater => true,
        _ => false,
    }
}

/// The passives sorted by unlock, keeping the order of those that unlock
/// together (a stable sort).
pub fn sort_passives(v: Vec<Passive>) -> (out: Vec<Passive>)
    ensures
        passives_ordered(out@),
        exists|perm: Seq<int>| stable_arrangement(out@, v@, perm),
{
    let mut out: Vec<Passive> = Vec::new();
    let ghost mut perm: Seq<int> = Seq::empty();
    let ghost orig = v@;
    let mut rest = v;
    let mut i: usize = 0;
    let n = rest.len();
    while i < n
        invariant
            n == orig.len(),
            0 <= i <= n,
            rest@ == orig.skip(i as int),
            out@.len() == i,
            perm.len() == i,
            passives_ordered(out@),
            forall|p: int| 0 <= p < i ==> 0 <= #[trigger] perm[p] < i && out@[p] == orig[perm[p]],
            forall|p: int, q: int| 0 <= p < q < i ==> perm[p] != perm[q],
            forall|p: int, q: int|
                0 <= p < q < i && unlock_order(out@[p].unlock, out@[q].unlock) == 0 ==> perm[p] < perm[q],
        decreases n - i,
    {
        let x = rest.remove(0);
        assert(x == orig[i as int]);
        assert(rest@ =~= orig.skip(i + 1));
        let mut pos: usize = 0;
        while pos < out.len()
            invariant
                0 <= pos <= out@.len(),
                forall|q: int| 0 <= q < pos ==> unlock_order(#[trigger] out@[q].unlock, x.unlock) <= 0,
            ensures
                0 <= pos <= out@.len(),
                forall|q: int| 0 <= q < pos ==> unlock_order(#[trigger] out@[q].unlock, x.unlock) <= 0,
                pos < out@.len() ==> unlock_order(out@[pos as int].unlock, x.unlock) > 0,
            decreases out@.len() - pos,
        {
            if unlock_greater(&out[pos].unlock, &x.unlock) {
                break;
            }
            pos = pos + 1;
        }
        let ghost old_out = out@;
        let ghost old_perm = perm;
        proof {
            assert forall|q: int| pos <= q < old_out.len() implies unlock_order(x.unlock, #[trigger] old_out[q].unlock) < 0 by {
                unlock_order_antisymmetric(old_out[pos as int].unlock, x.unlock);
                if q > pos {
                    unlock_order_transitive(x.unlock, old_out[pos as int].unlock, old_out[q].unlock);
                    unlock_order_transitive(old_out[pos as int].unlock, old_out[q].unlock, x.unlock);
                    unlock_order_antisymmetric(old_out[q].unlock, x.unlock);
                }
            };
        }
        out.insert(pos, x);
        proof {
            perm = old_perm.insert(pos as int, i as int);
            let o = out@;
            assert(o =~= old_out.insert(pos as int, x));
            assert forall|a: int, b: int| 0 <= a < b < o.len() implies unlock_order(o[a].unlock, o[b].unlock) <= 0 by {
                if b < pos {
                } else if b == pos {
                    assert(o[a] == old_out[a]);
                } else if a < pos {
                    assert(o[b] == old_out[b - 1]);
                    unlock_order_transitive(old_out[a].unlock, x.unlock, old_out[b - 1].unlock);
                } else if a == pos {
                    assert(o[b] == old_out[b - 1]);
                } else {
                    assert(o[a] == old_out[a - 1]);
                    assert(o[b] == old_out[b - 1]);
                }
            };
            assert forall|p: int| 0 <= p < i + 1 implies 0 <= #[trigger] perm[p] < i + 1 && o[p] == orig[perm[p]] by {
                if p < pos {
                    assert(perm[p] == old_perm[p]);
                } else if p > pos {
                    assert(perm[p] == old_perm[p - 1]);
                }
            };
            assert forall|p: int, q: int| 0 <= p < q < i + 1 implies perm[p] != perm[q] by {
                if p < pos && q < pos {
                } else if p < pos && q == pos {
                    assert(old_perm[p] < i);
                } else if p < pos {
                    assert(perm[q] == old_perm[q - 1]);
                } else if p == pos {
                    assert(perm[q] == old_perm[q - 1]);
                    assert(old_perm[q - 1] < i);
                } else {
                    assert(perm[p] == old_perm[p - 1]);
                    assert(perm[q] == old_perm[q - 1]);
                }
            };
            assert forall|p: int, q: int|
                0 <= p < q < i + 1 && unlock_order(o[p].unlock, o[q].unlock) == 0 implies perm[p] < perm[q] by {
                if p < pos && q < pos {
                } else if p < pos && q == pos {
                    assert(old_perm[p] < i);
                } else if p < pos {
                    assert(perm[q] == old_perm[q - 1]);
                    assert(o[q] == old_out[q - 1]);
                } else if p == pos {
                    assert(o[q] == old_out[q - 1]);
                } else {
                    assert(perm[p] == old_perm[p - 1]);
                    assert(perm[q] == old_perm[q - 1]);
                    assert(o[p] == old_out[p - 1]);
                    assert(o[q] == old_out[q - 1]);
                }
            };
        }
        i = i + 1;
    }
    assert(stable_arrangement(out@, orig, perm));
    out
}

/// The glossary descriptions, by term name, that a list of term numbers
/// reaches: each term that the glossary has, in order, adds its cleaned
/// description (see `cleaned_text`), then the terms that its description
/// links to, found the same way, replacing what came before them under equal
/// names.  `fuel` bounds how deep the links are followed.
pub open spec fn terms_from(all: Map<Seq<char>, Terms>, terms: Seq<Seq<char>>, fuel: nat) -> Map<Seq<char>, Seq<char>>
    decreases fuel, terms.len(),
{
    if terms.len() == 0 {
        Map::empty()
    } else {
        let m = terms_from(all, terms.drop_last(), fuel);
        let t = terms.last();
        if all.contains_key(t) {
            let e = all[t];
            let m1 = m.insert(e.name@, cleaned_text(e.desc@, false));
            let links = link_numbers_from(e.desc@, 0);
            if links.len() > 0 && fuel > 0 {
                m1.union_prefer_right(terms_from(all, links, (fuel - 1) as nat))
            } else {
                m1
            }
        } else {
            m
        }
    }
}

/// Following the links from the terms never goes deeper than `fuel`.
pub open spec fn terms_resolve(all: Map<Seq<char>, Terms>, terms: Seq<Seq<char>>, fuel: nat) -> bool
    decreases fuel, terms.len(),
{
    if terms.len() == 0 {
        true
    } else {
        let t = terms.last();
        let last_ok = if all.contains_key(t) && link_numbers_from(all[t].desc@, 0).len() > 0 {
            if fuel > 0 {
                terms_resolve(all, link_numbers_from(all[t].desc@, 0), (fuel - 1) as nat)
            } else {
                false
            }
        } else {
            true
        };
        terms_resolve(all, terms.drop_last(), fuel) && last_ok
    }
}

proof fn lemma_resolve_prefix(all: Map<Seq<char>, Terms>, terms: Seq<Seq<char>>, fuel: nat, k: int)
    requires
        0 <= k <= terms.len(),
        terms_resolve(all, terms, fuel),
    ensures
        terms_resolve(all, terms.take(k), fuel),
    decreases terms.len() - k,
{
    if k < terms.len() {
        lemma_resolve_prefix(all, terms, fuel, k + 1);
        assert(terms.take(k + 1).drop_last() =~= terms.take(k));
    } else {
        assert(terms.take(k) =~= terms);
    }
}

/// The glossary descriptions that the terms reach (see `terms_from`), or
/// `None` where their links go deeper than `fuel`.
fn terms_with_fuel(all_terms: &TermMap, terms: &Vec<String>, fuel: usize) -> (r: Option<KeyMap<String>>)
    ensures
        match r {
            Some(m) => {
                &&& terms_resolve(key_map(all_terms@), string_views(terms@), fuel as nat)
                &&& keys_ascending(m@)
                &&& string_map(key_map(m@)) == terms_from(key_map(all_terms@), string_views(terms@), fuel as nat)
            },
            None => !terms_resolve(key_map(all_terms@), string_views(terms@), fuel as nat),
        },
    decreases fuel,
{
    let ghost am = key_map(all_terms@);
    let ghost ts = string_views(terms@);
    let mut relevant: KeyMap<String> = Vec::new();
    let n = terms.len();
    let mut i: usize = 0;
    assert(ts.take(0) =~= Seq::<Seq<char>>::empty());
    assert(string_map(key_map(relevant@)) =~= Map::<Seq<char>, Seq<char>>::empty());
    while i < n
        invariant
            am == key_map(all_terms@),
            ts == string_views(terms@),
            n == ts.len(),
            0 <= i <= n,
            keys_ascending(relevant@),
            terms_resolve(am, ts.take(i as int), fuel as nat),
            string_map(key_map(relevant@)) == terms_from(am, ts.take(i as int), fuel as nat),
        decreases n - i,
    {
        let ghost pre = ts.take(i as int);
        assert(ts.take(i + 1).drop_last() =~= pre);
        assert(ts.take(i + 1).last() == terms@[i as int]@);
        match key_map_get(all_terms, &terms[i]) {
            Some(res) => {
                let (clean_desc, more) = clean_text_colon(res.desc.as_str(), false);
                assert(string_views(more@) == link_numbers_from(res.desc@, 0));
                let ghost before = string_map(key_map(relevant@));
                key_map_insert(&mut relevant, res.name.clone(), clean_desc);
                assert(string_map(key_map(relevant@)) =~= before.insert(res.name@, cleaned_text(res.desc@, false)));
                if more.len() > 0 {
                    if fuel == 0 {
                        proof {
                            if terms_resolve(am, ts, fuel as nat) {
                                lemma_resolve_prefix(am, ts, fuel as nat, i + 1);
                            }
                        }
                        return None;
                    }
                    match terms_with_fuel(all_terms, &more, fuel - 1) {
                        Some(nested) => {
                            let ghost mid = key_map(relevant@);
                            key_map_append(&mut relevant, nested);
                            assert(string_map(key_map(relevant@)) =~= string_map(mid).union_prefer_right(string_map(key_map(nested@))));
                        },
                        None => {
                            proof {
                                if terms_resolve(am, ts, fuel as nat) {
                                    lemma_resolve_prefix(am, ts, fuel as nat, i + 1);
                                }
                            }
                            return None;
                        },
                    }
                }
            },
            None => {},
        }
        i = i + 1;
    }
    assert(ts.take(n as int) =~= ts);
    Some(relevant)
}

/// The glossary descriptions that the terms reach (see `terms_from`,
/// following links at most as deep as the glossary is long), or `None` where
/// their links go deeper than that, as a cycle of links does.
pub fn try_specific_terms(all_terms: &TermMap, terms: &Vec<String>) -> (r: Option<KeyMap<String>>)
    ensures
        match r {
            Some(m) => {
                &&& terms_resolve(key_map(all_terms@), string_views(terms@), all_terms@.len())
                &&& keys_ascending(m@)
                &&& string_map(key_map(m@)) == terms_from(key_map(all_terms@), string_views(terms@), all_terms@.len())
            },
            None => !terms_resolve(key_map(all_terms@), string_views(terms@), all_terms@.len()),
        },
{
    terms_with_fuel(all_terms, terms, all_terms.len())
}

/// The glossary descriptions that the terms reach (see `terms_from`); their
/// links must not go deeper than the glossary is long.
pub fn get_specific_terms(all_terms: &TermMap, terms: &Vec<String>) -> (r: KeyMap<String>)
    requires
        terms_resolve(key_map(all_terms@), string_views(terms@), all_terms@.len()),
    ensures
        keys_ascending(r@),
        string_map(key_map(r@)) == terms_from(key_map(all_terms@), string_views(terms@), all_terms@.len()),
{
    match try_specific_terms(all_terms, terms) {
        Some(m) => m,
        None => Vec::new(),
    }
}

/// The descriptions of the terms that a character's skills use: none
/// without a glossary or where the terms reach no description (see
/// `terms_from`).
pub open spec fn term_descs_of(
    all_terms: Option<Seq<(String, Terms)>>,
    skill_terms: Seq<Seq<char>>,
) -> Option<Map<Seq<char>, Seq<char>>> {
    match all_terms {
        Some(t) => {
            let m = terms_from(key_map(t), skill_terms, t.len());
            if m == Map::<Seq<char>, Seq<char>>::empty() {
                None
            } else {
                Some(m)
            }
        },
        None => None,
    }
}

/// A character in the form the program saves it: its shown name (see
/// `custom_name`), element, weapon and rarity, its special ascension stat,
/// the given skills, its passives in unlock order, its constellations, its
/// material totals (see `parse_materials`), and the descriptions of the terms
/// that its skills use (see `term_descs_of`).
pub fn build_parsed_character(
    id: &str,
    character: CharacterCore,
    skills: Vec<ParsedSkill>,
    skill_terms: &Vec<String>,
    all_terms: &Option<TermMap>,
) -> (r: ParsedCharacter)
    requires
        character.materials.talents@.len() > 0,
        sums_fit(all_parts(character.materials.ascensions@)),
        forall|t: int|
            0 <= t < character.materials.talents@.len() ==> sums_fit(
                #[trigger] all_parts(character.materials.talents@[t]@),
            ),
        match all_terms {
            Some(t) => terms_resolve(key_map(t@), string_views(skill_terms@), t@.len()),
            None => true,
        },
    ensures
        r.name@ == custom_name(id@, character.name@),
        r.vision == character.chara_info.vision,
        r.weapon == character.weapon,
        r.rarity == character.rarity,
        r.ascension_stat@ == match character.ascension_keys {
            Some(keys) => first_special_stat(keys@),
            None => Seq::empty(),
        },
        r.skills == skills,
        passives_ordered(r.passives@),
        exists|perm: Seq<int>| stable_arrangement(r.passives@, character.passives@, perm),
        r.constellations == character.constellations,
        sums_of(r.ascension_mats@, all_parts(character.materials.ascensions@)),
        materials_sorted(r.ascension_mats@),
        sums_of(r.talent_mats@, all_parts(character.materials.talents@[0]@)),
        materials_sorted(r.talent_mats@),
        match r.term_descs {
            Some(m) => keys_ascending(m@) && term_descs_of(
                match all_terms {
                    Some(t) => Some(t@),
                    None => None,
                },
                string_views(skill_terms@),
            ) == Some(string_map(key_map(m@))),
            None => term_descs_of(
                match all_terms {
                    Some(t) => Some(t@),
                    None => None,
                },
                string_views(skill_terms@),
            ) is None,
        },
{
    let ascension_stat = String::from_str(get_ascension_stat_option(
        match &character.ascension_keys {
            Some(k) => Some(k),
            None => None,
        },
    ));
    let term_descs = match all_terms {
        Some(t) => {
            let outcome = get_specific_terms(t, skill_terms);
            if outcome.len() == 0 {
                assert(string_map(key_map(outcome@)) =~= Map::<Seq<char>, Seq<char>>::empty());
                None
            } else {
                proof {
                    let k = outcome@.last().0@;
                    assert(key_map(outcome@).contains_key(k));
                    assert(string_map(key_map(outcome@)).contains_key(k));
                }
                Some(outcome)
            }
        },
        None => None,
    };
    let (ascension_mats, talent_mats) = parse_materials(&character.materials);
    let passives = sort_passives(character.passives);
    ParsedCharacter {
        name: get_custom_name_from_id(id, &character.name),
        vision: character.chara_info.vision,
        weapon: character.weapon,
        rarity: character.rarity,
        ascension_stat,
        skills,
        passives,
        constellations: character.constellations,
        ascension_mats,
        talent_mats,
        term_descs,
    }
}

} // verus!
