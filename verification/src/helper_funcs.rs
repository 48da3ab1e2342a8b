//! Description helpers that keep a colon for each closing colour tag and
//! compare whole colour blocks; `other_helper_funcs` holds the variants that
//! also follow glossary links and compare coloured numbers.
use vstd::prelude::*;
use crate::chars::{str_chars, chars_string};
use crate::markup::{Tag, Literals, replace_tags, replace_tags_exec, trim, trim_exec};
use crate::color_segments::{SpecSegment, segments, segment_views, whole_color_segments};
use vstd::string::StringExecFns;
use crate::key_map::{KeyMap, keys_unique};
use crate::parsed_models::parsed_character::ParsedCharacter;
use crate::parsed_weapon::ParsedWeapon;
use crate::parsed_artifact::ParsedArtifact;
use crate::base_models::weapon::Materials;
use crate::materials_model::{total_materials, total_cost, all_items, name_count, totals_of, items_sorted};

verus! {

/// The plain text of a description: closing colour tags
/// replaced by `:`, opening colour tags and italic notes removed, newlines
/// turned into spaces, white space collapsed, the ends trimmed.
pub open spec fn colon_cleaned_text(input: Seq<char>) -> Seq<char> {
    let a = replace_tags(Tag::CloseColor, input, seq![':']);
    let b = replace_tags(Tag::OpenColor, a, Seq::empty());
    let c = replace_tags(Tag::Italic, b, Seq::empty());
    let d = replace_tags(Tag::Newline, c, seq![' ']);
    trim(replace_tags(Tag::WhiteRun, d, seq![' ']))
}

/// Cleans a description (see `colon_cleaned_text`).
pub fn clean_text(input: &str) -> (r: String)
    ensures
        r@ == colon_cleaned_text(input@),
{
    let lit = Literals::new();
    let chars = str_chars(input);
    let colon: Vec<char> = vec![':'];
    let empty: Vec<char> = Vec::new();
    let space: Vec<char> = vec![' '];
    let a = replace_tags_exec(Tag::CloseColor, &lit, &chars, &colon);
    let b = replace_tags_exec(Tag::OpenColor, &lit, &a, &empty);
    let c = replace_tags_exec(Tag::Italic, &lit, &b, &empty);
    let d = replace_tags_exec(Tag::Newline, &lit, &c, &space);
    let e = replace_tags_exec(Tag::WhiteRun, &lit, &d, &space);
    let f = trim_exec(&e);
    proof {
        assert(colon@ =~= seq![':']);
        assert(empty@ =~= Seq::<char>::empty());
        assert(space@ =~= seq![' ']);
    }
    chars_string(&f)
}

} // verus!

verus! {

/// What two texts show for a pair of colour blocks: the
/// contents where they agree, `[c1|c2]` where they differ, nothing where
/// either segment has no block.
pub open spec fn block_pair_text(
    a: Option<(Seq<char>, Seq<char>)>,
    b: Option<(Seq<char>, Seq<char>)>,
) -> Seq<char> {
    match (a, b) {
        (Some((c1, _)), Some((c2, _))) => if c1 == c2 {
            c1
        } else {
            seq!['['] + c1 + seq!['|'] + c2 + seq![']']
        },
        _ => Seq::empty(),
    }
}

pub open spec fn blocks_compared_from(x: Seq<SpecSegment>, y: Seq<SpecSegment>, i: int) -> Seq<
    char,
>
    decreases x.len() - i,
{
    if i < 0 || i >= x.len() || i >= y.len() {
        Seq::empty()
    } else {
        x[i].0 + block_pair_text(x[i].1, y[i].1) + blocks_compared_from(x, y, i + 1)
    }
}

/// The two texts split into the same segments with equal plain text.
pub open spec fn same_structure(text1: Seq<char>, text2: Seq<char>) -> bool {
    let x = segments(text1, false);
    let y = segments(text2, false);
    &&& x.len() == y.len()
    &&& forall|i: int| 0 <= i < x.len() ==> #[trigger] x[i].0 == y[i].0
}

/// Merges two texts with the same structure: the text is
/// kept and each colour block whose contents differ is shown as `[c1|c2]`.
pub fn compare_color_texts(text1: &str, text2: &str) -> (r: String)
    requires
        same_structure(text1@, text2@),
    ensures
        r@ == blocks_compared_from(segments(text1@, false), segments(text2@, false), 0),
{
    let x = whole_color_segments(text1);
    let y = whole_color_segments(text2);
    let ghost xs = segment_views(x@);
    let ghost ys = segment_views(y@);
    let mut out = String::new();
    let n = x.len();
    let mut i: usize = 0;
    while i < n
        invariant
            n == x@.len(),
            x@.len() == y@.len(),
            xs == segment_views(x@),
            ys == segment_views(y@),
            0 <= i <= n,
            out@ + blocks_compared_from(xs, ys, i as int) == blocks_compared_from(xs, ys, 0),
        decreases n - i,
    {
        let ghost before = out@;
        let a = &x[i];
        let b = &y[i];
        assert(xs[i as int] == a@);
        assert(ys[i as int] == b@);
        out.append(a.plain.as_str());
        match (&a.colored, &b.colored) {
            (Some((c1, _)), Some((c2, _))) => {
                if *c1 == *c2 {
                    out.append(c1.as_str());
                } else {
                    out.append("[");
                    out.append(c1.as_str());
                    out.append("|");
                    out.append(c2.as_str());
                    out.append("]");
                    proof {
                        reveal_strlit("[");
                        reveal_strlit("|");
                        reveal_strlit("]");
                    }
                }
            },
            _ => {},
        }
        assert(before + (xs[i as int].0 + block_pair_text(xs[i as int].1, ys[i as int].1)
            + blocks_compared_from(xs, ys, i + 1)) =~= out@ + blocks_compared_from(xs, ys, i + 1));
        i = i + 1;
    }
    assert(out@ + blocks_compared_from(xs, ys, i as int) =~= out@);
    out
}

/// The materials of all ascension phases together: the Mora costs added up,
/// and the items merged by name (counts added, the highest rank kept),
/// ordered by rank and then by name.
pub fn accumulate_materials(materials_map: &KeyMap<Materials>) -> (r: Materials)
    requires
        keys_unique(materials_map@),
        total_cost(materials_map@) <= u32::MAX,
        forall|nm: Seq<char>| #[trigger] name_count(all_items(materials_map@), nm) <= u32::MAX,
    ensures
        r.cost == total_cost(materials_map@),
        totals_of(r.mats@, all_items(materials_map@)),
        items_sorted(r.mats@),
{
    total_materials(materials_map)
}

/// A saved item: a character, a weapon or an artifact set.
#[derive(Debug)]
pub enum Parsed {
    C(ParsedCharacter),
    W(ParsedWeapon),
    A(ParsedArtifact),
}

impl Parsed {
    /// The item's name.
    pub fn name(&self) -> (r: &String)
        ensures
            *r == match *self {
                Parsed::C(c) => c.name,
                Parsed::W(w) => w.name,
                Parsed::A(a) => a.name,
            },
    {
        match self {
            Parsed::C(parsed_character) => &parsed_character.name,
            Parsed::W(parsed_weapon) => &parsed_weapon.name,
            Parsed::A(parsed_artifact) => &parsed_artifact.name,
        }
    }
}

} // verus!
