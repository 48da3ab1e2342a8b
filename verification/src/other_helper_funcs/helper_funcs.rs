//! Cleaning of description texts, comparison of refinement texts, and the
//! merging of material lists.
use vstd::prelude::*;
use crate::chars::{str_chars, chars_string};
use crate::markup::{
    find_char, lemma_find_char, Tag, Literals, replace_tags, replace_tags_exec, trim, trim_exec, link_text_from,
    link_numbers_from, extract_links,
};
use crate::color_segments::{
    SpecSegment, segments, segment_count, segment_views, color_segments, free_of,
    segment_without_brackets, lemma_segments_without_brackets,
};
use vstd::string::StringExecFns;
use crate::key_map::{KeyMap, keys_unique};
use crate::parsed_models::parsed_character::ParsedCharacter;
use crate::parsed_weapon::ParsedWeapon;
use crate::parsed_artifact::ParsedArtifact;
use crate::parsed_tcg::{ParsedCard, card_name};
use crate::parsed_models::parsed_character::ParsedConstellation;
use crate::base_models::character::{Constellation, HasDescription, constellation_description};
use crate::base_models::weapon::Materials;
use crate::materials_model::{total_materials, total_cost, all_items, name_count, totals_of, items_sorted};

verus! {

/// The plain text of a description: links replaced by their text, closing
/// colour tags replaced by `:` (when `keep_colon`) or removed, opening colour
/// tags and italic notes removed, newlines (escaped or not) turned into
/// spaces, runs of white space collapsed into one space, sprite icons removed
/// (unless `keep_colon`), and the ends trimmed.
pub open spec fn cleaned_text(input: Seq<char>, keep_colon: bool) -> Seq<char> {
    let colon = if keep_colon {
        seq![':']
    } else {
        Seq::empty()
    };
    let a = replace_tags(Tag::CloseColor, link_text_from(input, 0), colon);
    let b = replace_tags(Tag::OpenColor, a, Seq::empty());
    let c = replace_tags(Tag::Italic, b, Seq::empty());
    let d = replace_tags(Tag::Newline, c, seq![' ']);
    let e = replace_tags(Tag::WhiteRun, d, seq![' ']);
    if keep_colon {
        trim(e)
    } else {
        trim(replace_tags(Tag::Sprite, e, Seq::empty()))
    }
}

/// `clean_text_colon(input, false)`.
pub fn clean_text(input: &str) -> (r: (String, Vec<String>))
    ensures
        r.0@ == cleaned_text(input@, false),
        r.1@.map_values(|x: String| x@) == link_numbers_from(input@, 0),
{
    clean_text_colon(input, false)
}

/// Cleans a description (see `cleaned_text`) and returns the numbers of the
/// glossary terms that it links to, in order of appearance.
pub fn clean_text_colon(input: &str, keep_colon: bool) -> (r: (String, Vec<String>))
    ensures
        r.0@ == cleaned_text(input@, keep_colon),
        r.1@.map_values(|x: String| x@) == link_numbers_from(input@, 0),
{
    let lit = Literals::new();
    let chars = str_chars(input);
    let (linked, numbers) = extract_links(&chars);
    let colon: Vec<char> = if keep_colon {
        vec![':']
    } else {
        Vec::new()
    };
    let empty: Vec<char> = Vec::new();
    let space: Vec<char> = vec![' '];
    let a = replace_tags_exec(Tag::CloseColor, &lit, &linked, &colon);
    let b = replace_tags_exec(Tag::OpenColor, &lit, &a, &empty);
    let c = replace_tags_exec(Tag::Italic, &lit, &b, &empty);
    let d = replace_tags_exec(Tag::Newline, &lit, &c, &space);
    let e = replace_tags_exec(Tag::WhiteRun, &lit, &d, &space);
    let f = if keep_colon {
        trim_exec(&e)
    } else {
        let g = replace_tags_exec(Tag::Sprite, &lit, &e, &empty);
        trim_exec(&g)
    };
    proof {
        if keep_colon {
            assert(colon@ =~= seq![':']);
        } else {
            assert(colon@ =~= Seq::<char>::empty());
        }
        assert(empty@ =~= Seq::<char>::empty());
        assert(space@ =~= seq![' ']);
    }
    (chars_string(&f), numbers)
}

} // verus!

verus! {

/// What two refinement texts show for a pair of colour blocks: the number and
/// its suffix where both agree; otherwise `[n1|n2]` followed by the suffix if
/// both suffixes agree.  Nothing where either segment has no block.
pub open spec fn colored_pair_text(
    a: Option<(Seq<char>, Seq<char>)>,
    b: Option<(Seq<char>, Seq<char>)>,
) -> Seq<char> {
    match (a, b) {
        (Some((n1, s1)), Some((n2, s2))) => if n1 == n2 && s1 == s2 {
            n1 + s1
        } else {
            seq!['['] + n1 + seq!['|'] + n2 + seq![']'] + if s1 == s2 {
                s1
            } else {
                Seq::empty()
            }
        },
        _ => Seq::empty(),
    }
}

/// The merged text of two segment lists from index `i` on: each segment's
/// plain text (from the first list) followed by what its blocks show.
pub open spec fn compared_from(x: Seq<SpecSegment>, y: Seq<SpecSegment>, i: int) -> Seq<char>
    decreases x.len() - i,
{
    if i < 0 || i >= x.len() || i >= y.len() {
        Seq::empty()
    } else {
        x[i].0 + colored_pair_text(x[i].1, y[i].1) + compared_from(x, y, i + 1)
    }
}

/// The text of segments from index `i` on: each segment's plain text
/// followed by its block's number and suffix.
pub open spec fn segments_text(x: Seq<SpecSegment>, i: int) -> Seq<char>
    decreases x.len() - i,
{
    if i < 0 || i >= x.len() {
        Seq::empty()
    } else {
        let shown = match x[i].1 {
            Some((n, suffix)) => n + suffix,
            None => Seq::empty(),
        };
        x[i].0 + shown + segments_text(x, i + 1)
    }
}

proof fn lemma_compared_with_itself(x: Seq<SpecSegment>, i: int)
    ensures
        compared_from(x, x, i) == segments_text(x, i),
    decreases x.len() - i,
{
    if 0 <= i < x.len() {
        lemma_compared_with_itself(x, i + 1);
    }
}

/// A refinement text compared with itself marks no difference: it shows its
/// plain text and its coloured values as they are.
pub proof fn comparing_a_text_with_itself(t: Seq<char>)
    ensures
        compared_color_texts(t, t) == segments_text(segments(t, true), 0),
{
    lemma_compared_with_itself(segments(t, true), 0);
}

/// A text with each bracket `[x|y]` turned into `[y|x]`: from a `[`, `x`
/// runs to the first `|` after it and `y` from there to the first `]` after
/// that.  A `[` with no `|` and then `]` after it stays as it is.
pub open spec fn swap_brackets(t: Seq<char>) -> Seq<char>
    decreases t.len(),
{
    if t.len() == 0 {
        Seq::empty()
    } else {
        let m = find_char(t, 1, '|');
        let k = find_char(t, m + 1, ']');
        proof {
            lemma_find_char(t, 1, '|');
            lemma_find_char(t, m + 1, ']');
        }
        if t[0] == '[' && m < t.len() && k < t.len() {
            seq!['['] + t.subrange(m + 1, k) + seq!['|'] + t.subrange(1, m) + seq![']']
                + swap_brackets(t.subrange(k + 1, t.len() as int))
        } else {
            seq![t[0]] + swap_brackets(t.subrange(1, t.len() as int))
        }
    }
}

proof fn lemma_find_char_at(s: Seq<char>, j: int, k: int, c: char)
    requires
        0 <= j <= k < s.len(),
        s[k] == c,
        forall|i: int| j <= i < k ==> s[i] != c,
    ensures
        find_char(s, j, c) == k,
    decreases k - j,
{
    if j < k {
        lemma_find_char_at(s, j + 1, k, c);
    }
}

/// Text without `[` is left as it is.
proof fn lemma_swap_plain(p: Seq<char>, q: Seq<char>)
    requires
        free_of(p, '['),
    ensures
        swap_brackets(p + q) == p + swap_brackets(q),
    decreases p.len(),
{
    if p.len() == 0 {
        assert(p + q =~= q);
    } else {
        let t = p + q;
        let tail = p.subrange(1, p.len() as int);
        assert(t[0] == p[0]);
        assert(t.subrange(1, t.len() as int) =~= tail + q);
        lemma_swap_plain(tail, q);
        assert(seq![p[0]] + (tail + swap_brackets(q)) =~= p + swap_brackets(q));
    }
}

/// A bracket whose first part holds no `|` and whose second part holds no
/// `]` is swapped.
proof fn lemma_swap_bracket(n1: Seq<char>, n2: Seq<char>, rest: Seq<char>)
    requires
        free_of(n1, '|'),
        free_of(n2, ']'),
    ensures
        swap_brackets(seq!['['] + n1 + seq!['|'] + n2 + seq![']'] + rest) == seq!['['] + n2
            + seq!['|'] + n1 + seq![']'] + swap_brackets(rest),
{
    let t = seq!['['] + n1 + seq!['|'] + n2 + seq![']'] + rest;
    let m: int = n1.len() as int + 1;
    let k: int = m + 1 + n2.len();
    assert(t[m] == '|');
    assert forall|i: int| 1 <= i < m implies t[i] != '|' by {
        assert(t[i] == n1[i - 1]);
    }
    lemma_find_char_at(t, 1, m, '|');
    assert(t[k] == ']');
    assert forall|i: int| m + 1 <= i < k implies t[i] != ']' by {
        assert(t[i] == n2[i - m - 1]);
    }
    lemma_find_char_at(t, m + 1, k, ']');
    assert(t.subrange(m + 1, k) =~= n2);
    assert(t.subrange(1, m) =~= n1);
    assert(t.subrange(k + 1, t.len() as int) =~= rest);
}

proof fn lemma_swap_compared(x: Seq<SpecSegment>, y: Seq<SpecSegment>, i: int)
    requires
        0 <= i,
        forall|j: int| 0 <= j < x.len() ==> segment_without_brackets(#[trigger] x[j]),
        forall|j: int| 0 <= j < y.len() ==> segment_without_brackets(#[trigger] y[j]),
        forall|j: int| 0 <= j < x.len() && 0 <= j < y.len() ==> (#[trigger] x[j]).0 == y[j].0,
    ensures
        swap_brackets(compared_from(x, y, i)) == compared_from(y, x, i),
    decreases x.len() - i,
{
    if i < x.len() && i < y.len() {
        lemma_swap_compared(x, y, i + 1);
        let rest = compared_from(x, y, i + 1);
        let back = compared_from(y, x, i + 1);
        let p = x[i].0;
        let pair = colored_pair_text(x[i].1, y[i].1);
        let swapped = colored_pair_text(y[i].1, x[i].1);
        assert(segment_without_brackets(x[i]));
        assert(segment_without_brackets(y[i]));
        assert(compared_from(x, y, i) =~= p + (pair + rest));
        assert(compared_from(y, x, i) =~= p + (swapped + back));
        lemma_swap_plain(p, pair + rest);
        match (x[i].1, y[i].1) {
            (Some((n1, s1)), Some((n2, s2))) => {
                if n1 == n2 && s1 == s2 {
                    assert(free_of(n1 + s1, '[')) by {
                        assert forall|j: int| 0 <= j < (n1 + s1).len() implies (n1 + s1)[j]
                            != '[' by {
                            if j < n1.len() {
                                assert((n1 + s1)[j] == n1[j]);
                            } else {
                                assert((n1 + s1)[j] == s1[j - n1.len()]);
                            }
                        }
                    }
                    lemma_swap_plain(n1 + s1, rest);
                } else {
                    let suffix = if s1 == s2 {
                        s1
                    } else {
                        Seq::empty()
                    };
                    assert(free_of(n1, '|'));
                    assert(free_of(n2, ']'));
                    lemma_swap_plain(suffix, rest);
                    lemma_swap_bracket(n1, n2, suffix + rest);
                    assert(pair + rest =~= seq!['['] + n1 + seq!['|'] + n2 + seq![']'] + (suffix
                        + rest));
                    assert(swapped + back =~= seq!['['] + n2 + seq!['|'] + n1 + seq![']'] + (
                    suffix + back));
                }
            },
            _ => {
                assert(pair + rest =~= rest);
                assert(swapped + back =~= back);
            },
        }
    }
}

/// Swapping the two texts of a comparison swaps each bracket: where neither
/// text holds `[` and their segments' plain texts agree one by one, comparing
/// the second text with the first gives what comparing the first with the
/// second gives, with each `[x|y]` turned into `[y|x]`.
pub proof fn swapping_the_texts_swaps_the_brackets(a: Seq<char>, b: Seq<char>)
    requires
        free_of(a, '['),
        free_of(b, '['),
        forall|i: int|
            0 <= i < segments(a, true).len() && 0 <= i < segments(b, true).len() ==> (
            #[trigger] segments(a, true)[i]).0 == segments(b, true)[i].0,
    ensures
        compared_color_texts(b, a) == swap_brackets(compared_color_texts(a, b)),
{
    lemma_segments_without_brackets(a, 0, -1);
    lemma_segments_without_brackets(b, 0, -1);
    lemma_swap_compared(segments(a, true), segments(b, true), 0);
}

/// The text that `compare_color_texts` gives for two refinement texts.
pub open spec fn compared_color_texts(text1: Seq<char>, text2: Seq<char>) -> Seq<char> {
    compared_from(segments(text1, true), segments(text2, true), 0)
}

/// Merges the descriptions of a weapon's first and fifth refinement: the
/// text is kept, and each coloured number that differs is shown as
/// `[first|fifth]` (see `compared_color_texts`).  The two texts must split
/// into the same number of segments.
pub fn compare_color_texts(text1: &str, text2: &str) -> (r: String)
    requires
        segment_count(text1@, true) == segment_count(text2@, true),
    ensures
        r@ == compared_color_texts(text1@, text2@),
{
    let x = color_segments(text1);
    let y = color_segments(text2);
    let ghost xs = segment_views(x@);
    let ghost ys = segment_views(y@);
    let mut out = String::new();
    let n = x.len();
    let mut i: usize = 0;
    while i < n
        invariant
            n == x@.len(),
            x@.len() == y@.len(),
            xs == segment_views(x@),
            ys == segment_views(y@),
            0 <= i <= n,
            out@ + compared_from(xs, ys, i as int) == compared_from(xs, ys, 0),
        decreases n - i,
    {
        let ghost before = out@;
        let a = &x[i];
        let b = &y[i];
        assert(xs[i as int] == a@);
        assert(ys[i as int] == b@);
        out.append(a.plain.as_str());
        match (&a.colored, &b.colored) {
            (Some((n1, s1)), Some((n2, s2))) => {
                if *n1 == *n2 && *s1 == *s2 {
                    out.append(n1.as_str());
                    out.append(s1.as_str());
                } else {
                    out.append("[");
                    out.append(n1.as_str());
                    out.append("|");
                    out.append(n2.as_str());
                    out.append("]");
                    if *s1 == *s2 {
                        out.append(s1.as_str());
                    }
                    proof {
                        reveal_strlit("[");
                        reveal_strlit("|");
                        reveal_strlit("]");
                    }
                }
            },
            _ => {},
        }
        assert(before + (xs[i as int].0 + colored_pair_text(xs[i as int].1, ys[i as int].1)
            + compared_from(xs, ys, i + 1)) =~= out@ + compared_from(xs, ys, i + 1));
        i = i + 1;
    }
    assert(out@ + compared_from(xs, ys, i as int) =~= out@);
    out
}

/// The materials of all ascension phases together: the Mora costs added up,
/// and the items merged by name (counts added, the highest rank kept),
/// ordered by rank and then by name.
pub fn accumulate_materials(materials_map: &KeyMap<Materials>) -> (r: Materials)
    requires
        keys_unique(materials_map@),
        total_cost(materials_map@) <= u32::MAX,
        forall|nm: Seq<char>| #[trigger] name_count(all_items(materials_map@), nm) <= u32::MAX,
    ensures
        r.cost == total_cost(materials_map@),
        totals_of(r.mats@, all_items(materials_map@)),
        items_sorted(r.mats@),
{
    total_materials(materials_map)
}

/// A saved item: a character, a weapon, an artifact set or a card.
#[derive(Debug)]
pub enum Parsed {
    C(ParsedCharacter),
    W(ParsedWeapon),
    A(ParsedArtifact),
    T(ParsedCard),
}

/// The name under which an item is saved: its own name, with ` TCG` after a
/// card's.
pub open spec fn parsed_name(p: Parsed) -> Seq<char> {
    match p {
        Parsed::C(c) => c.name@,
        Parsed::W(w) => w.name@,
        Parsed::A(a) => a.name@,
        Parsed::T(t) => card_name(t)@ + seq![' ', 'T', 'C', 'G'],
    }
}

impl Parsed {
    /// The name under which the item is saved (see `parsed_name`).
    pub fn name(&self) -> (r: String)
        ensures
            r@ == parsed_name(*self),
    {
        match self {
            Parsed::C(parsed_character) => parsed_character.name.clone(),
            Parsed::W(parsed_weapon) => parsed_weapon.name.clone(),
            Parsed::A(parsed_artifact) => parsed_artifact.name.clone(),
            Parsed::T(parsed_card) => {
                let name = parsed_card.name();
                let r = name.clone().concat(" TCG");
                proof {
                    reveal_strlit(" TCG");
                }
                r
            },
        }
    }
}

/// Each constellation's name with the description that it shows (see
/// `constellation_description`); the constellations are left as they were.
pub fn convert_constellations(constellations: &mut Vec<Constellation>) -> (r: Vec<ParsedConstellation>)
    ensures
        final(constellations)@ == old(constellations)@,
        r@.len() == old(constellations)@.len(),
        forall|i: int|
            0 <= i < r@.len() ==> {
                &&& #[trigger] r@[i].name == old(constellations)@[i].name
                &&& r@[i].desc == constellation_description(old(constellations)@[i])
            },
{
    let mut cons: Vec<ParsedConstellation> = Vec::new();
    let n = constellations.len();
    let mut i: usize = 0;
    while i < n
        invariant
            n == constellations@.len(),
            constellations@ == old(constellations)@,
            0 <= i <= n,
            cons@.len() == i,
            forall|k: int|
                0 <= k < i ==> {
                    &&& #[trigger] cons@[k].name == constellations@[k].name
                    &&& cons@[k].desc == constellation_description(constellations@[k])
                },
        decreases n - i,
    {
        let name = constellations[i].name.clone();
        let desc = constellations[i].description().clone();
        cons.push(ParsedConstellation { name, desc });
        i = i + 1;
    }
    cons
}

} // verus!
