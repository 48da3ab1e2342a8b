//! The item lists that the window shows, their display names and search.
use vstd::prelude::*;
use vstd::string::{StringExecFns, StrSliceExecFns};
use crate::chars::{contains_seq, starts_at, str_contains, seq_less, str_less, lemma_seq_less_transitive, lemma_seq_less_total};
use crate::key_map::{KeyMap, keys_unique, keys_ascending};
use crate::base_models::hakushin_lists::{JustTheName, MinimalArtifact, MinimalArtifactSet, MinimalArtifactMap, MinimalNameMap};

verus! {

/// An item of a list: its id and its English name.
#[derive(Clone, Debug)]
pub struct ItemNames {
    pub key: String,
    pub name: String,
}

impl Default for ItemNames {
    fn default() -> (r: Self)
        ensures
            r.key@ == Seq::<char>::empty(),
            r.name@ == Seq::<char>::empty(),
    {
        ItemNames { key: String::new(), name: String::new() }
    }
}

/// The name given to an id in place of the listed one: the Traveler's
/// elemental forms, and the Wanderer's card.
pub open spec fn special_name(id: Seq<char>) -> Option<Seq<char>> {
    if id == "10000007-2"@ || id == "10000005-2"@ {
        Some("Traveler Pyro"@)
    } else if id == "10000007-3"@ || id == "10000005-3"@ {
        Some("Traveler Hydro"@)
    } else if id == "10000007-4"@ || id == "10000005-4"@ {
        Some("Traveler Anemo"@)
    } else if id == "10000007-6"@ || id == "10000005-6"@ {
        Some("Traveler Geo"@)
    } else if id == "10000007-7"@ || id == "10000005-7"@ {
        Some("Traveler Electro"@)
    } else if id == "10000007-8"@ || id == "10000005-8"@ {
        Some("Traveler Dendro"@)
    } else if id == "1506"@ {
        Some("Wanderer"@)
    } else {
        None
    }
}

/// ` (F)` for an id of the female Traveler, ` (M)` for the male one, and
/// nothing otherwise.
pub open spec fn gender_suffix(id: Seq<char>) -> Seq<char> {
    if contains_seq(id, "10000007"@) {
        " (F)"@
    } else if contains_seq(id, "10000005"@) {
        " (M)"@
    } else {
        Seq::empty()
    }
}

/// The name shown for an item: its special name or else its listed one,
/// followed by its gender suffix.
pub open spec fn custom_name(id: Seq<char>, name: Seq<char>) -> Seq<char> {
    let base = match special_name(id) {
        Some(n) => n,
        None => name,
    };
    base + gender_suffix(id)
}

/// The name shown for an item of a list (see `custom_name`).
pub fn get_custom_name(item: &ItemNames) -> (r: String)
    ensures
        r@ == custom_name(item.key@, item.name@),
{
    get_custom_name_from_id(item.key.as_str(), &item.name)
}

/// Whether `id` is one of the two given ids.
fn id_is_either(id: &String, a: &str, b: &str) -> (r: bool)
    ensures
        r == (id@ == a@ || id@ == b@),
{
    *id == String::from_str(a) || *id == String::from_str(b)
}

/// The name shown for the item with id `id` and listed name `name` (see
/// `custom_name`).
pub fn get_custom_name_from_id(id: &str, name: &String) -> (r: String)
    ensures
        r@ == custom_name(id@, name@),
{
    let key = String::from_str(id);
    let new_name = if id_is_either(&key, "10000007-2", "10000005-2") {
        String::from_str("Traveler Pyro")
    } else if id_is_either(&key, "10000007-3", "10000005-3") {
        String::from_str("Traveler Hydro")
    } else if id_is_either(&key, "10000007-4", "10000005-4") {
        String::from_str("Traveler Anemo")
    } else if id_is_either(&key, "10000007-6", "10000005-6") {
        String::from_str("Traveler Geo")
    } else if id_is_either(&key, "10000007-7", "10000005-7") {
        String::from_str("Traveler Electro")
    } else if id_is_either(&key, "10000007-8", "10000005-8") {
        String::from_str("Traveler Dendro")
    } else if key == String::from_str("1506") {
        String::from_str("Wanderer")
    } else {
        name.clone()
    };
    let gender = if str_contains(id, "10000007") {
        String::from_str(" (F)")
    } else if str_contains(id, "10000005") {
        String::from_str(" (M)")
    } else {
        String::new()
    };
    new_name.concat(gender.as_str())
}

/// The lower-case form of a text, as std's `str::to_lowercase` gives it.
pub uninterp spec fn lowercase_of(s: Seq<char>) -> Seq<char>;

/// std's `str::to_lowercase`: the text with every character mapped to its
/// Unicode lower-case form.  Its result is named `lowercase_of` of the text;
/// the Unicode tables behind it are not stated.
#[verifier::external_body]
fn to_lowercase(s: &str) -> (r: String)
    ensures
        r@ == lowercase_of(s@),
{
    s.to_lowercase()
}

/// An item matches a search when the search is empty, when its shown name
/// contains the search ignoring case, or when its id contains the search.
pub open spec fn item_matches(item: ItemNames, search: Seq<char>) -> bool {
    ||| search.len() == 0
    ||| contains_seq(lowercase_of(custom_name(item.key@, item.name@)), lowercase_of(search))
    ||| contains_seq(item.key@, search)
}

/// The items that match the search, in order.
pub open spec fn matching_items(items: Seq<ItemNames>, search: Seq<char>) -> Seq<ItemNames>
    decreases items.len(),
{
    if items.len() == 0 {
        Seq::empty()
    } else if item_matches(items.last(), search) {
        matching_items(items.drop_last(), search).push(items.last())
    } else {
        matching_items(items.drop_last(), search)
    }
}

/// An empty search keeps every item, in order.
pub proof fn empty_search_keeps_all(items: Seq<ItemNames>)
    ensures
        matching_items(items, Seq::empty()) == items,
    decreases items.len(),
{
    if items.len() > 0 {
        empty_search_keeps_all(items.drop_last());
        assert(items.drop_last().push(items.last()) =~= items);
    }
}

/// The element that the game numbers `d` among the Traveler's forms.
pub open spec fn element_of_index(d: char) -> Option<Seq<char>> {
    if d == '2' {
        Some(seq!['P', 'y', 'r', 'o'])
    } else if d == '3' {
        Some(seq!['H', 'y', 'd', 'r', 'o'])
    } else if d == '4' {
        Some(seq!['A', 'n', 'e', 'm', 'o'])
    } else if d == '6' {
        Some(seq!['G', 'e', 'o'])
    } else if d == '7' {
        Some(seq!['E', 'l', 'e', 'c', 't', 'r', 'o'])
    } else if d == '8' {
        Some(seq!['D', 'e', 'n', 'd', 'r', 'o'])
    } else {
        None
    }
}

/// The id of one of the Traveler's forms: `1000000g-d`, with `g` `7` for the
/// female Traveler and `5` for the male one, and `d` the element's number.
pub open spec fn traveler_id(g: char, d: char) -> Seq<char> {
    seq!['1', '0', '0', '0', '0', '0', '0', g, '-', d]
}

proof fn lemma_traveler_not_other(g: char, d: char, other: char)
    requires
        other != g,
    ensures
        !contains_seq(traveler_id(g, d), seq!['1', '0', '0', '0', '0', '0', '0', other]),
{
    let id = traveler_id(g, d);
    let pat = seq!['1', '0', '0', '0', '0', '0', '0', other];
    assert forall|i: int| 0 <= i <= id.len() - pat.len() implies !#[trigger] starts_at(id, i, pat) by {
        if starts_at(id, i, pat) {
            let sub = id.subrange(i, i + pat.len());
            if i == 0 {
                assert(sub[7] == pat[7]);
            } else {
                assert(sub[0] == pat[0]);
            }
        }
    }
}

/// Each form of the Traveler is shown as `Traveler ` and the element that
/// its id numbers (2 Pyro, 3 Hydro, 4 Anemo, 6 Geo, 7 Electro, 8 Dendro),
/// then ` (F)` for the female Traveler and ` (M)` for the male one.
pub proof fn travelers_are_shown_by_element(g: char, d: char, name: Seq<char>)
    requires
        g == '7' || g == '5',
        element_of_index(d) is Some,
    ensures
        custom_name(traveler_id(g, d), name) == seq!['T', 'r', 'a', 'v', 'e', 'l', 'e', 'r', ' ']
            + element_of_index(d).unwrap() + if g == '7' {
            seq![' ', '(', 'F', ')']
        } else {
            seq![' ', '(', 'M', ')']
        },
{
    let id = traveler_id(g, d);
    reveal_strlit("10000007-2");
    reveal_strlit("10000005-2");
    reveal_strlit("10000007-3");
    reveal_strlit("10000005-3");
    reveal_strlit("10000007-4");
    reveal_strlit("10000005-4");
    reveal_strlit("10000007-6");
    reveal_strlit("10000005-6");
    reveal_strlit("10000007-7");
    reveal_strlit("10000005-7");
    reveal_strlit("10000007-8");
    reveal_strlit("10000005-8");
    reveal_strlit("1506");
    reveal_strlit("Traveler Pyro");
    reveal_strlit("Traveler Hydro");
    reveal_strlit("Traveler Anemo");
    reveal_strlit("Traveler Geo");
    reveal_strlit("Traveler Electro");
    reveal_strlit("Traveler Dendro");
    reveal_strlit("10000007");
    reveal_strlit("10000005");
    reveal_strlit(" (F)");
    reveal_strlit(" (M)");
    assert(id[7] == g && id[9] == d && id.len() == 10);
    assert(id != "1506"@);
    let base = seq!['T', 'r', 'a', 'v', 'e', 'l', 'e', 'r', ' '] + element_of_index(d).unwrap();
    if d == '2' {
        assert(base =~= "Traveler Pyro"@);
        if g == '7' { assert(id =~= "10000007-2"@); } else { assert(id =~= "10000005-2"@); }
    } else if d == '3' {
        assert(base =~= "Traveler Hydro"@);
        if g == '7' { assert(id =~= "10000007-3"@); } else { assert(id =~= "10000005-3"@); }
    } else if d == '4' {
        assert(base =~= "Traveler Anemo"@);
        if g == '7' { assert(id =~= "10000007-4"@); } else { assert(id =~= "10000005-4"@); }
    } else if d == '6' {
        assert(base =~= "Traveler Geo"@);
        if g == '7' { assert(id =~= "10000007-6"@); } else { assert(id =~= "10000005-6"@); }
    } else if d == '7' {
        assert(base =~= "Traveler Electro"@);
        if g == '7' { assert(id =~= "10000007-7"@); } else { assert(id =~= "10000005-7"@); }
    } else {
        assert(base =~= "Traveler Dendro"@);
        if g == '7' { assert(id =~= "10000007-8"@); } else { assert(id =~= "10000005-8"@); }
    }
    assert(special_name(id) == Some(base));
    if g == '7' {
        assert(starts_at(id, 0, "10000007"@)) by {
            assert(id.subrange(0, 8) =~= "10000007"@);
        }
        assert(gender_suffix(id) == " (F)"@);
        assert(" (F)"@ =~= seq![' ', '(', 'F', ')']);
    } else {
        lemma_traveler_not_other(g, d, '7');
        assert("10000007"@ =~= seq!['1', '0', '0', '0', '0', '0', '0', '7']);
        assert(starts_at(id, 0, "10000005"@)) by {
            assert(id.subrange(0, 8) =~= "10000005"@);
        }
        assert(gender_suffix(id) == " (M)"@);
        assert(" (M)"@ =~= seq![' ', '(', 'M', ')']);
    }
}

/// A search keeps exactly the items that match it, in their order: the
/// result is the list filtered by `item_matches`, so every matching item of
/// the list is in it, however many others match, and nothing else is.
pub proof fn search_keeps_every_matching_item(items: Seq<ItemNames>, search: Seq<char>)
    ensures
        matching_items(items, search) == items.filter(|it: ItemNames| item_matches(it, search)),
        forall|i: int|
            0 <= i < items.len() && item_matches(#[trigger] items[i], search) ==> matching_items(
                items,
                search,
            ).contains(items[i]),
        forall|j: int|
            0 <= j < matching_items(items, search).len() ==> item_matches(
                #[trigger] matching_items(items, search)[j],
                search,
            ) && items.contains(matching_items(items, search)[j]),
    decreases items.len(),
{
    reveal(Seq::filter);
    if items.len() > 0 {
        let prev = items.drop_last();
        search_keeps_every_matching_item(prev, search);
        let r = matching_items(items, search);
        let rp = matching_items(prev, search);
        assert forall|i: int|
            0 <= i < items.len() && item_matches(#[trigger] items[i], search) implies r.contains(items[i]) by {
            if i < items.len() - 1 {
                assert(prev[i] == items[i]);
                let k = choose|k: int| 0 <= k < rp.len() && rp[k] == prev[i];
                assert(r[k] == rp[k]);
            } else {
                assert(r[r.len() - 1] == items.last());
            }
        }
        assert forall|j: int| 0 <= j < r.len() implies item_matches(#[trigger] r[j], search) && items.contains(
            r[j],
        ) by {
            if j < rp.len() {
                assert(r[j] == rp[j]);
                assert(item_matches(rp[j], search));
                let k = choose|k: int| 0 <= k < prev.len() && prev[k] == rp[j];
                assert(items[k] == prev[k]);
            } else {
                assert(r[j] == items.last());
                assert(items[items.len() - 1] == items.last());
            }
        }
    }
}

/// An item whose id is neither special nor one of the Traveler's is shown
/// under its listed name.
pub proof fn plain_ids_keep_their_name(id: Seq<char>, name: Seq<char>)
    requires
        special_name(id) is None,
        !contains_seq(id, "10000007"@),
        !contains_seq(id, "10000005"@),
    ensures
        custom_name(id, name) == name,
{
    assert(name + Seq::<char>::empty() =~= name);
}

/// The item that a reference points to.
pub open spec fn item_of(r: &ItemNames) -> ItemNames {
    *r
}

/// Whether an item matches the search (see `item_matches`).
fn matches_search(item: &ItemNames, search_term: &str, search_lower: &String) -> (r: bool)
    requires
        search_lower@ == lowercase_of(search_term@),
    ensures
        r == item_matches(*item, search_term@),
{
    if search_term.unicode_len() == 0 {
        return true;
    }
    let shown = get_custom_name(item);
    let shown_lower = to_lowercase(shown.as_str());
    str_contains(shown_lower.as_str(), search_lower.as_str()) || str_contains(item.key.as_str(), search_term)
}

/// The items that match the search (see `item_matches`), in order.
pub fn filter_items<'a>(items: &'a [ItemNames], search_term: &'a str) -> (r: Vec<&'a ItemNames>)
    ensures
        r@.map_values(|x: &ItemNames| item_of(x)) == matching_items(items@, search_term@),
{
    let search_lower = to_lowercase(search_term);
    let mut out: Vec<&'a ItemNames> = Vec::new();
    let n = items.len();
    let mut i: usize = 0;
    assert(items@.take(0) =~= Seq::<ItemNames>::empty());
    assert(out@.map_values(|x: &ItemNames| item_of(x)) =~= Seq::<ItemNames>::empty());
    while i < n
        invariant
            n == items@.len(),
            0 <= i <= n,
            search_lower@ == lowercase_of(search_term@),
            out@.map_values(|x: &ItemNames| item_of(x)) == matching_items(items@.take(i as int), search_term@),
        decreases n - i,
    {
        let ghost before = out@;
        assert(items@.take(i + 1).drop_last() =~= items@.take(i as int));
        let item = &items[i];
        if matches_search(item, search_term, &search_lower) {
            out.push(item);
            assert(out@.map_values(|x: &ItemNames| item_of(x)) =~= before.map_values(|x: &ItemNames| item_of(x)).push(*item));
        }
        i = i + 1;
    }
    assert(items@.take(n as int) =~= items@);
    out
}

/// An entry of a name list as a list item: its id and English name.
pub open spec fn name_item(e: (String, JustTheName)) -> ItemNames {
    ItemNames { key: e.0, name: e.1.en }
}

/// The entries of a name list as list items, in their ascending id order;
/// none where there is no list.
pub fn parse_just_names(option: &Option<MinimalNameMap>) -> (r: Vec<ItemNames>)
    requires
        match option {
            Some(map) => keys_ascending(map@),
            None => true,
        },
    ensures
        r@ == match option {
            Some(map) => map@.map_values(|e: (String, JustTheName)| name_item(e)),
            None => Seq::empty(),
        },
        forall|i: int, j: int| 0 <= i < j < r@.len() ==> seq_less(r@[i].key@, r@[j].key@),
{
    let mut display: Vec<ItemNames> = Vec::new();
    match option {
        Some(map) => {
            let n = map.len();
            let mut i: usize = 0;
            while i < n
                invariant
                    n == map@.len(),
                    0 <= i <= n,
                    display@ == map@.take(i as int).map_values(|e: (String, JustTheName)| name_item(e)),
                decreases n - i,
            {
                let item_name = ItemNames { key: map[i].0.clone(), name: map[i].1.en.clone() };
                display.push(item_name);
                assert(map@.take(i + 1).map_values(|e: (String, JustTheName)| name_item(e))
                    =~= map@.take(i as int).map_values(|e: (String, JustTheName)| name_item(e)).push(name_item(map@[i as int])));
                i = i + 1;
            }
            assert(map@.take(n as int) =~= map@);
            assert forall|i: int, j: int| 0 <= i < j < display@.len() implies seq_less(display@[i].key@, display@[j].key@) by {
                assert(display@[i] == name_item(map@[i]));
                assert(display@[j] == name_item(map@[j]));
            };
        },
        None => {},
    }
    display
}

/// The index of the piece whose id comes first.
pub open spec fn is_first_piece(set: Seq<(String, MinimalArtifactSet)>, k: int) -> bool {
    &&& 0 <= k < set.len()
    &&& forall|j: int| 0 <= j < set.len() && j != k ==> seq_less(set[k].0@, #[trigger] set[j].0@)
}

/// The piece of a set whose id comes first.
fn first_piece(set: &KeyMap<MinimalArtifactSet>) -> (r: usize)
    requires
        set@.len() > 0,
        keys_unique(set@),
    ensures
        is_first_piece(set@, r as int),
{
    let n = set.len();
    let mut best: usize = 0;
    let mut i: usize = 1;
    while i < n
        invariant
            n == set@.len(),
            keys_unique(set@),
            1 <= i <= n,
            0 <= best < i,
            forall|j: int| 0 <= j < i && j != best ==> seq_less(set@[best as int].0@, #[trigger] set@[j].0@),
        decreases n - i,
    {
        if str_less(set[i].0.as_str(), set[best].0.as_str()) {
            proof {
                assert forall|j: int| 0 <= j < i + 1 && j != i implies seq_less(set@[i as int].0@, #[trigger] set@[j].0@) by {
                    if j != best {
                        lemma_seq_less_transitive(set@[i as int].0@, set@[best as int].0@, set@[j].0@);
                    }
                };
            }
            best = i;
        } else {
            proof {
                lemma_seq_less_total(set@[i as int].0@, set@[best as int].0@);
                if best < i {
                    assert(set@[best as int].0@ != set@[i as int].0@);
                }
            }
        }
        i = i + 1;
    }
    best
}

/// The name of the piece of a set whose id comes first.
pub open spec fn first_piece_name(set: Seq<(String, MinimalArtifactSet)>) -> String {
    set[choose|k: int| is_first_piece(set, k)].1.name.en
}

/// A set has one piece whose id comes first.
proof fn lemma_first_piece_unique(set: Seq<(String, MinimalArtifactSet)>, k: int)
    requires
        is_first_piece(set, k),
    ensures
        first_piece_name(set) == set[k].1.name.en,
{
    let c = choose|c: int| is_first_piece(set, c);
    assert(is_first_piece(set, c));
    if c != k {
        assert(seq_less(set[k].0@, set[c].0@));
        assert(seq_less(set[c].0@, set[k].0@));
        lemma_seq_less_total(set[k].0@, set[c].0@);
    }
}

/// The artifact sets as list items, in their ascending id order, each named
/// after its piece with the first id; none where there is no list.  Every
/// set has a piece.
pub fn parse_artifacts(option: &Option<MinimalArtifactMap>) -> (r: Vec<ItemNames>)
    requires
        match option {
            Some(map) => keys_ascending(map@) && forall|i: int|
                0 <= i < map@.len() ==> #[trigger] map@[i].1.set@.len() > 0 && keys_ascending(map@[i].1.set@),
            None => true,
        },
    ensures
        match option {
            Some(map) => {
                &&& r@.len() == map@.len()
                &&& forall|i: int|
                    0 <= i < map@.len() ==> #[trigger] r@[i] == (ItemNames {
                        key: map@[i].0,
                        name: first_piece_name(map@[i].1.set@),
                    })
            },
            None => r@.len() == 0,
        },
        forall|i: int, j: int| 0 <= i < j < r@.len() ==> seq_less(r@[i].key@, r@[j].key@),
{
    let mut display: Vec<ItemNames> = Vec::new();
    match option {
        Some(map) => {
            let n = map.len();
            let mut i: usize = 0;
            while i < n
                invariant
                    n == map@.len(),
                    0 <= i <= n,
                    forall|q: int|
                        0 <= q < map@.len() ==> #[trigger] map@[q].1.set@.len() > 0 && keys_ascending(map@[q].1.set@),
                    display@.len() == i,
                    forall|q: int|
                        0 <= q < i ==> #[trigger] display@[q] == (ItemNames {
                            key: map@[q].0,
                            name: first_piece_name(map@[q].1.set@),
                        }),
                decreases n - i,
            {
                let set = &map[i].1.set;
                assert(map@[i as int].1.set@.len() > 0);
                let k = first_piece(set);
                let item_name = ItemNames { key: map[i].0.clone(), name: set[k].1.name.en.clone() };
                display.push(item_name);
                proof {
                    lemma_first_piece_unique(map@[i as int].1.set@, k as int);
                }
                i = i + 1;
            }
        },
        None => {},
    }
    display
}

/// The text followed by spaces up to `width` characters (what `{:<width}`
/// gives).
pub open spec fn padded(s: Seq<char>, width: int) -> Seq<char> {
    if s.len() >= width {
        s
    } else {
        s + Seq::new((width - s.len()) as nat, |i: int| ' ')
    }
}

/// The text followed by spaces up to `width` characters (see `padded`).
pub fn pad_right(s: &str, width: usize) -> (r: String)
    ensures
        r@ == padded(s@, width as int),
{
    let mut v = crate::chars::str_chars(s);
    let n = v.len();
    if n < width {
        let mut k: usize = n;
        while k < width
            invariant
                n <= k <= width,
                v@ == s@ + Seq::new((k - n) as nat, |i: int| ' '),
            decreases width - k,
        {
            v.push(' ');
            assert(v@ =~= s@ + Seq::new((k + 1 - n) as nat, |i: int| ' '));
            k = k + 1;
        }
    }
    crate::chars::chars_string(&v)
}

/// How a list shows an item: its id padded to `key_width`, `: `, and its
/// shown name (see `custom_name`) padded to `name_width`.
pub open spec fn item_label_of(item: ItemNames, key_width: int, name_width: int) -> Seq<char> {
    padded(item.key@, key_width) + ": "@ + padded(custom_name(item.key@, item.name@), name_width)
}

/// How a list shows an item (see `item_label_of`).
pub fn item_label(item: &ItemNames, key_width: usize, name_width: usize) -> (r: String)
    ensures
        r@ == item_label_of(*item, key_width as int, name_width as int),
{
    let name = get_custom_name(item);
    pad_right(item.key.as_str(), key_width).concat(": ").concat(pad_right(name.as_str(), name_width).as_str())
}

/// A list printed in rows of five: each entry's id padded to 10 characters,
/// `: `, its name padded to 20 and a space, a line break after every fifth
/// entry and after a last row that is not full.
pub open spec fn list_rows_of(entries: Seq<(Seq<char>, Seq<char>)>) -> Seq<char> {
    let body = rows_from(entries, 0);
    if entries.len() % 5 != 0 {
        body + seq!['\n']
    } else {
        body
    }
}

/// The printed entries from index `i` on (see `list_rows_of`).
pub open spec fn rows_from(entries: Seq<(Seq<char>, Seq<char>)>, i: int) -> Seq<char>
    decreases entries.len() - i,
{
    if i < 0 || i >= entries.len() {
        Seq::empty()
    } else {
        let cell = padded(entries[i].0, 10) + ": "@ + padded(entries[i].1, 20) + " "@;
        let brk = if (i + 1) % 5 == 0 {
            seq!['\n']
        } else {
            Seq::empty()
        };
        cell + brk + rows_from(entries, i + 1)
    }
}

/// The views of id and name pairs.
pub open spec fn pair_views(v: Seq<(String, String)>) -> Seq<(Seq<char>, Seq<char>)> {
    v.map_values(|e: (String, String)| (e.0@, e.1@))
}

/// A list printed in rows of five (see `list_rows_of`).
pub fn list_rows(entries: &Vec<(String, String)>) -> (r: String)
    ensures
        r@ == list_rows_of(pair_views(entries@)),
{
    let ghost ev = pair_views(entries@);
    let mut out = String::new();
    let n = entries.len();
    let mut i: usize = 0;
    while i < n
        invariant
            n == entries@.len(),
            ev == pair_views(entries@),
            0 <= i <= n,
            out@ + rows_from(ev, i as int) == rows_from(ev, 0),
        decreases n - i,
    {
        let ghost before = out@;
        out.append(pad_right(entries[i].0.as_str(), 10).as_str());
        out.append(": ");
        out.append(pad_right(entries[i].1.as_str(), 20).as_str());
        out.append(" ");
        if (i + 1) % 5 == 0 {
            out.append("\n");
            proof {
                reveal_strlit("\n");
            }
        }
        assert(before + (padded(ev[i as int].0, 10) + ": "@ + padded(ev[i as int].1, 20) + " "@ + (if (i + 1) % 5 == 0 {
            seq!['\n']
        } else {
            Seq::<char>::empty()
        }) + rows_from(ev, i + 1)) =~= out@ + rows_from(ev, i + 1));
        i = i + 1;
    }
    assert(out@ + rows_from(ev, n as int) =~= out@);
    if n % 5 != 0 {
        out.append("\n");
        proof {
            reveal_strlit("\n");
        }
    }
    out
}

} // verus!
