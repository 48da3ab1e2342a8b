//! The rich-text markup that the game's data uses in its descriptions:
//! colour tags, hyperlinks to glossary terms, italic notes, sprite icons,
//! escaped newlines, and the passes that turn it into plain text.
//!
//! Each pass reads the text from left to right; wherever a tag starts, the
//! whole tag is consumed and replaced, and scanning resumes after it.  The
//! specifications below state, for every position, what the rest of the
//! output is.
use vstd::prelude::*;
use crate::chars::{starts_at, matches_at, is_white_space, white_space, is_ascii_digit, is_decimal_digit, decimal_digit, is_ascii_upper, extend_chars, copy_range, chars_string};
use crate::key_map::{KeyMap, key_map, key_map_get};

verus! {

// ---------------------------------------------------------------------
// Searching.
// ---------------------------------------------------------------------

/// The first index `k >= j` with `s[k] == c`, or `s.len()` if there is none.
pub open spec fn find_char(s: Seq<char>, j: int, c: char) -> int
    decreases s.len() - j,
{
    if j >= s.len() {
        s.len() as int
    } else if s[j] == c {
        j
    } else {
        find_char(s, j + 1, c)
    }
}

pub proof fn lemma_find_char(s: Seq<char>, j: int, c: char)
    requires
        0 <= j,
    ensures
        j <= find_char(s, j, c) || (j > s.len() && find_char(s, j, c) == s.len()),
        find_char(s, j, c) <= s.len(),
        find_char(s, j, c) < s.len() ==> s[find_char(s, j, c)] == c,
        forall|k: int| j <= k < find_char(s, j, c) ==> s[k] != c,
    decreases s.len() - j,
{
    if j < s.len() && s[j] != c {
        lemma_find_char(s, j + 1, c);
    }
}

pub fn find_char_exec(v: &Vec<char>, j: usize, c: char) -> (r: usize)
    requires
        j <= v@.len(),
    ensures
        r as int == find_char(v@, j as int, c),
{
    let mut k = j;
    while k < v.len()
        invariant
            j <= k <= v@.len(),
            find_char(v@, k as int, c) == find_char(v@, j as int, c),
        decreases v@.len() - k,
    {
        if v[k] == c {
            return k;
        }
        k = k + 1;
    }
    k
}

/// The first index `k >= j` where either a newline stands or `close` starts;
/// `s.len()` if there is none.  (A lazy `.*?` followed by `close` cannot
/// cross a newline.)
pub open spec fn find_close_or_newline(s: Seq<char>, j: int, close: Seq<char>) -> int
    decreases s.len() - j,
{
    if j >= s.len() {
        s.len() as int
    } else if s[j] == '\n' || starts_at(s, j, close) {
        j
    } else {
        find_close_or_newline(s, j + 1, close)
    }
}

pub proof fn lemma_find_close_or_newline(s: Seq<char>, j: int, close: Seq<char>)
    requires
        0 <= j <= s.len(),
    ensures
        j <= find_close_or_newline(s, j, close) <= s.len(),
        forall|k: int|
            j <= k < find_close_or_newline(s, j, close) ==> s[k] != '\n' && !starts_at(
                s,
                k,
                close,
            ),
    decreases s.len() - j,
{
    if j < s.len() && !(s[j] == '\n' || starts_at(s, j, close)) {
        lemma_find_close_or_newline(s, j + 1, close);
    }
}

pub fn find_close_or_newline_exec(v: &Vec<char>, j: usize, close: &Vec<char>) -> (r: usize)
    requires
        j <= v@.len(),
    ensures
        r as int == find_close_or_newline(v@, j as int, close@),
{
    let mut k = j;
    while k < v.len()
        invariant
            j <= k <= v@.len(),
            find_close_or_newline(v@, k as int, close@) == find_close_or_newline(
                v@,
                j as int,
                close@,
            ),
        decreases v@.len() - k,
    {
        if v[k] == '\n' || matches_at(v, k, close) {
            return k;
        }
        k = k + 1;
    }
    k
}

/// The last index `k` with `lo <= k < hi` and `s[k] == c`, or `-1`.
pub open spec fn find_last_char(s: Seq<char>, lo: int, hi: int, c: char) -> int
    decreases hi - lo,
{
    if hi <= lo {
        -1
    } else if s[hi - 1] == c {
        hi - 1
    } else {
        find_last_char(s, lo, hi - 1, c)
    }
}

pub proof fn lemma_find_last_char(s: Seq<char>, lo: int, hi: int, c: char)
    ensures
        find_last_char(s, lo, hi, c) == -1 || lo <= find_last_char(s, lo, hi, c) < hi,
    decreases hi - lo,
{
    if hi > lo && s[hi - 1] != c {
        lemma_find_last_char(s, lo, hi - 1, c);
    }
}

pub fn find_last_char_exec(v: &Vec<char>, lo: usize, hi: usize, c: char) -> (r: Option<usize>)
    requires
        lo <= hi <= v@.len(),
    ensures
        match r {
            Some(k) => find_last_char(v@, lo as int, hi as int, c) == k as int,
            None => find_last_char(v@, lo as int, hi as int, c) == -1,
        },
{
    let mut h = hi;
    while h > lo
        invariant
            lo <= h <= hi,
            hi <= v@.len(),
            find_last_char(v@, lo as int, h as int, c) == find_last_char(
                v@,
                lo as int,
                hi as int,
                c,
            ),
        decreases h - lo,
    {
        if v[h - 1] == c {
            return Some(h - 1);
        }
        h = h - 1;
    }
    None
}

/// The first index `k >= j` whose character is not white space (or `s.len()`).
pub open spec fn skip_white(s: Seq<char>, j: int) -> int
    decreases s.len() - j,
{
    if j >= s.len() {
        s.len() as int
    } else if is_white_space(s[j]) {
        skip_white(s, j + 1)
    } else {
        j
    }
}

pub proof fn lemma_skip_white(s: Seq<char>, j: int)
    requires
        0 <= j <= s.len(),
    ensures
        j <= skip_white(s, j) <= s.len(),
        skip_white(s, j) < s.len() ==> !is_white_space(s[skip_white(s, j)]),
        forall|k: int| j <= k < skip_white(s, j) ==> is_white_space(s[k]),
    decreases s.len() - j,
{
    if j < s.len() && is_white_space(s[j]) {
        lemma_skip_white(s, j + 1);
    }
}

pub fn skip_white_exec(v: &Vec<char>, j: usize) -> (r: usize)
    requires
        j <= v@.len(),
    ensures
        r as int == skip_white(v@, j as int),
{
    let mut k = j;
    while k < v.len()
        invariant
            j <= k <= v@.len(),
            skip_white(v@, k as int) == skip_white(v@, j as int),
        decreases v@.len() - k,
    {
        if !white_space(v[k]) {
            return k;
        }
        k = k + 1;
    }
    k
}

/// The first index `k >= j` whose character is not an ASCII digit (or `s.len()`).
pub open spec fn skip_digits(s: Seq<char>, j: int) -> int
    decreases s.len() - j,
{
    if j >= s.len() {
        s.len() as int
    } else if is_ascii_digit(s[j]) {
        skip_digits(s, j + 1)
    } else {
        j
    }
}

pub proof fn lemma_skip_digits(s: Seq<char>, j: int)
    requires
        0 <= j <= s.len(),
    ensures
        j <= skip_digits(s, j) <= s.len(),
        skip_digits(s, j) < s.len() ==> !is_ascii_digit(s[skip_digits(s, j)]),
        forall|k: int| j <= k < skip_digits(s, j) ==> is_ascii_digit(s[k]),
    decreases s.len() - j,
{
    if j < s.len() && is_ascii_digit(s[j]) {
        lemma_skip_digits(s, j + 1);
    }
}

pub fn skip_digits_exec(v: &Vec<char>, j: usize) -> (r: usize)
    requires
        j <= v@.len(),
    ensures
        r as int == skip_digits(v@, j as int),
{
    let mut k = j;
    while k < v.len()
        invariant
            j <= k <= v@.len(),
            skip_digits(v@, k as int) == skip_digits(v@, j as int),
        decreases v@.len() - k,
    {
        if !('0' <= v[k] && v[k] <= '9') {
            return k;
        }
        k = k + 1;
    }
    k
}

/// The first index `k >= j` whose character is not a Unicode decimal digit
/// (or `s.len()`).
pub open spec fn skip_decimal(s: Seq<char>, j: int) -> int
    decreases s.len() - j,
{
    if j >= s.len() {
        s.len() as int
    } else if is_decimal_digit(s[j]) {
        skip_decimal(s, j + 1)
    } else {
        j
    }
}

pub proof fn lemma_skip_decimal(s: Seq<char>, j: int)
    requires
        0 <= j <= s.len(),
    ensures
        j <= skip_decimal(s, j) <= s.len(),
        skip_decimal(s, j) < s.len() ==> !is_decimal_digit(s[skip_decimal(s, j)]),
        forall|k: int| j <= k < skip_decimal(s, j) ==> is_decimal_digit(s[k]),
    decreases s.len() - j,
{
    if j < s.len() && is_decimal_digit(s[j]) {
        lemma_skip_decimal(s, j + 1);
    }
}

pub fn skip_decimal_exec(v: &Vec<char>, j: usize) -> (r: usize)
    requires
        j <= v@.len(),
    ensures
        r as int == skip_decimal(v@, j as int),
{
    let mut k = j;
    while k < v.len()
        invariant
            j <= k <= v@.len(),
            skip_decimal(v@, k as int) == skip_decimal(v@, j as int),
        decreases v@.len() - k,
    {
        if !decimal_digit(v[k]) {
            return k;
        }
        k = k + 1;
    }
    k
}

// ---------------------------------------------------------------------
// Literals.
// ---------------------------------------------------------------------

pub open spec fn close_color_tag() -> Seq<char> {
    seq!['<', '/', 'c', 'o', 'l', 'o', 'r', '>']
}

pub open spec fn open_color_prefix() -> Seq<char> {
    seq!['<', 'c', 'o', 'l', 'o', 'r', '=']
}

pub open spec fn open_italic_tag() -> Seq<char> {
    seq!['<', 'i', '>']
}

pub open spec fn close_italic_tag() -> Seq<char> {
    seq!['<', '/', 'i', '>']
}

pub open spec fn sprite_prefix() -> Seq<char> {
    seq!['{', 'S', 'P', 'R', 'I', 'T', 'E', '_', 'P', 'R', 'E', 'S', 'E', 'T', '#']
}

pub fn close_color_chars() -> (r: Vec<char>)
    ensures
        r@ == close_color_tag(),
{
    let r = vec!['<', '/', 'c', 'o', 'l', 'o', 'r', '>'];
    assert(r@ =~= close_color_tag());
    r
}

pub fn open_color_chars() -> (r: Vec<char>)
    ensures
        r@ == open_color_prefix(),
{
    let r = vec!['<', 'c', 'o', 'l', 'o', 'r', '='];
    assert(r@ =~= open_color_prefix());
    r
}

pub fn open_italic_chars() -> (r: Vec<char>)
    ensures
        r@ == open_italic_tag(),
{
    let r = vec!['<', 'i', '>'];
    assert(r@ =~= open_italic_tag());
    r
}

pub fn close_italic_chars() -> (r: Vec<char>)
    ensures
        r@ == close_italic_tag(),
{
    let r = vec!['<', '/', 'i', '>'];
    assert(r@ =~= close_italic_tag());
    r
}

pub fn sprite_chars() -> (r: Vec<char>)
    ensures
        r@ == sprite_prefix(),
{
    let r = vec!['{', 'S', 'P', 'R', 'I', 'T', 'E', '_', 'P', 'R', 'E', 'S', 'E', 'T', '#'];
    assert(r@ =~= sprite_prefix());
    r
}

} // verus!

verus! {

// ---------------------------------------------------------------------
// Tags and the passes that replace them.
// ---------------------------------------------------------------------

/// The kinds of markup that a single replacing pass looks for.
#[derive(Clone, Copy, Debug, PartialEq, Eq)]
pub enum Tag {
    /// The closing colour tag `</color>`.
    CloseColor,
    /// An opening colour tag: `<color=` up to and including the next `>`.
    OpenColor,
    /// An italic note: `<i>` up to the first `</i>` on the same line.
    Italic,
    /// An escaped newline (a backslash followed by `n`) or a newline.
    Newline,
    /// A run of white space.
    WhiteRun,
    /// A sprite icon: `{SPRITE_PRESET#` up to the last `}` before the next `>`.
    Sprite,
    /// In card texts, any of an opening colour tag, `</color>`, or a sprite.
    CardTag,
}

/// Where an opening colour tag that starts at `i` ends (exclusive), or -1.
pub open spec fn open_color_end(s: Seq<char>, i: int) -> int {
    if starts_at(s, i, open_color_prefix()) {
        let g = find_char(s, i + 7, '>');
        if g < s.len() {
            g + 1
        } else {
            -1
        }
    } else {
        -1
    }
}

/// Where a sprite that starts at `i` ends (exclusive), or -1.
pub open spec fn sprite_end(s: Seq<char>, i: int) -> int {
    if starts_at(s, i, sprite_prefix()) {
        let limit = find_char(s, i + 15, '>');
        let k = find_last_char(s, i + 15, limit, '}');
        if k >= 0 {
            k + 1
        } else {
            -1
        }
    } else {
        -1
    }
}

/// Where an italic note that starts at `i` ends (exclusive), or -1.
pub open spec fn italic_end(s: Seq<char>, i: int) -> int {
    if starts_at(s, i, open_italic_tag()) {
        let k = find_close_or_newline(s, i + 3, close_italic_tag());
        if k < s.len() && starts_at(s, k, close_italic_tag()) {
            k + 4
        } else {
            -1
        }
    } else {
        -1
    }
}

/// Where a tag of kind `tag` that starts at index `i` of `s` ends
/// (exclusive), or -1 when none starts there.
pub open spec fn tag_end(tag: Tag, s: Seq<char>, i: int) -> int {
    match tag {
        Tag::CloseColor => if starts_at(s, i, close_color_tag()) {
            i + 8
        } else {
            -1
        },
        Tag::OpenColor => open_color_end(s, i),
        Tag::Italic => italic_end(s, i),
        Tag::Newline => if 0 <= i && i + 1 < s.len() && s[i] == '\\' && s[i + 1] == 'n' {
            i + 2
        } else if 0 <= i < s.len() && s[i] == '\n' {
            i + 1
        } else {
            -1
        },
        Tag::WhiteRun => if 0 <= i < s.len() && is_white_space(s[i]) {
            skip_white(s, i)
        } else {
            -1
        },
        Tag::Sprite => sprite_end(s, i),
        Tag::CardTag => if open_color_end(s, i) != -1 {
            open_color_end(s, i)
        } else if starts_at(s, i, close_color_tag()) {
            i + 8
        } else {
            sprite_end(s, i)
        },
    }
}

pub proof fn lemma_tag_end(tag: Tag, s: Seq<char>, i: int)
    requires
        0 <= i < s.len(),
    ensures
        tag_end(tag, s, i) == -1 || i < tag_end(tag, s, i) <= s.len(),
{
    if starts_at(s, i, open_color_prefix()) {
        lemma_find_char(s, i + 7, '>');
    }
    if starts_at(s, i, sprite_prefix()) {
        lemma_find_char(s, i + 15, '>');
        let limit = find_char(s, i + 15, '>');
        lemma_find_last_char(s, i + 15, limit, '}');
    }
    if starts_at(s, i, open_italic_tag()) {
        lemma_find_close_or_newline(s, i + 3, close_italic_tag());
    }
    if is_white_space(s[i]) {
        lemma_skip_white(s, i);
    }
}

/// The output of replacing every tag of kind `tag` in `s`, from index `i`
/// on, with `rep`: scanning left to right, a tag that starts at `i` is
/// replaced as a whole and scanning resumes after it; any other character
/// is kept.
pub open spec fn replace_tags_from(tag: Tag, s: Seq<char>, i: int, rep: Seq<char>) -> Seq<char>
    decreases s.len() - i,
{
    if i < 0 || i >= s.len() {
        Seq::empty()
    } else if i < tag_end(tag, s, i) <= s.len() {
        rep + replace_tags_from(tag, s, tag_end(tag, s, i), rep)
    } else {
        seq![s[i]] + replace_tags_from(tag, s, i + 1, rep)
    }
}

/// `s` with every tag of kind `tag` replaced by `rep`.
pub open spec fn replace_tags(tag: Tag, s: Seq<char>, rep: Seq<char>) -> Seq<char> {
    replace_tags_from(tag, s, 0, rep)
}

/// The literal character sequences that the tag matchers compare against.
pub struct Literals {
    pub close_color: Vec<char>,
    pub open_color: Vec<char>,
    pub open_italic: Vec<char>,
    pub close_italic: Vec<char>,
    pub sprite: Vec<char>,
}

impl Literals {
    pub open spec fn wf(&self) -> bool {
        &&& self.close_color@ == close_color_tag()
        &&& self.open_color@ == open_color_prefix()
        &&& self.open_italic@ == open_italic_tag()
        &&& self.close_italic@ == close_italic_tag()
        &&& self.sprite@ == sprite_prefix()
    }

    pub fn new() -> (r: Literals)
        ensures
            r.wf(),
    {
        Literals {
            close_color: close_color_chars(),
            open_color: open_color_chars(),
            open_italic: open_italic_chars(),
            close_italic: close_italic_chars(),
            sprite: sprite_chars(),
        }
    }
}

fn open_color_end_exec(lit: &Literals, v: &Vec<char>, i: usize) -> (r: Option<usize>)
    requires
        lit.wf(),
        i < v@.len(),
    ensures
        match r {
            Some(e) => open_color_end(v@, i as int) == e as int,
            None => open_color_end(v@, i as int) == -1,
        },
{
    let _len = v.len();
    if matches_at(v, i, &lit.open_color) {
        assert(lit.open_color@.len() == 7);
        let g = find_char_exec(v, i + 7, '>');
        if g < v.len() {
            Some(g + 1)
        } else {
            None
        }
    } else {
        None
    }
}

fn sprite_end_exec(lit: &Literals, v: &Vec<char>, i: usize) -> (r: Option<usize>)
    requires
        lit.wf(),
        i < v@.len(),
    ensures
        match r {
            Some(e) => sprite_end(v@, i as int) == e as int,
            None => sprite_end(v@, i as int) == -1,
        },
{
    let _len = v.len();
    if matches_at(v, i, &lit.sprite) {
        assert(lit.sprite@.len() == 15);
        let limit = find_char_exec(v, i + 15, '>');
        proof {
            lemma_find_char(v@, i + 15, '>');
        }
        match find_last_char_exec(v, i + 15, limit, '}') {
            Some(k) => {
                proof {
                    lemma_find_last_char(v@, i + 15, limit as int, '}');
                }
                Some(k + 1)
            },
            None => None,
        }
    } else {
        None
    }
}

/// Executable `tag_end`: `Some(end)` where a tag starts at `i`.
pub fn tag_end_exec(tag: Tag, lit: &Literals, v: &Vec<char>, i: usize) -> (r: Option<usize>)
    requires
        lit.wf(),
        i < v@.len(),
    ensures
        match r {
            Some(e) => tag_end(tag, v@, i as int) == e as int,
            None => tag_end(tag, v@, i as int) == -1,
        },
{
    let _len = v.len();
    match tag {
        Tag::CloseColor => if matches_at(v, i, &lit.close_color) {
            assert(lit.close_color@.len() == 8);
            Some(i + 8)
        } else {
            None
        },
        Tag::OpenColor => open_color_end_exec(lit, v, i),
        Tag::Italic => {
            if matches_at(v, i, &lit.open_italic) {
                assert(lit.open_italic@.len() == 3);
                let k = find_close_or_newline_exec(v, i + 3, &lit.close_italic);
                if k < v.len() && matches_at(v, k, &lit.close_italic) {
                    assert(lit.close_italic@.len() == 4);
                    Some(k + 4)
                } else {
                    None
                }
            } else {
                None
            }
        },
        Tag::Newline => {
            if i + 1 < v.len() && v[i] == '\\' && v[i + 1] == 'n' {
                Some(i + 2)
            } else if v[i] == '\n' {
                Some(i + 1)
            } else {
                None
            }
        },
        Tag::WhiteRun => {
            if white_space(v[i]) {
                Some(skip_white_exec(v, i))
            } else {
                None
            }
        },
        Tag::Sprite => sprite_end_exec(lit, v, i),
        Tag::CardTag => {
            match open_color_end_exec(lit, v, i) {
                Some(e) => Some(e),
                None => if matches_at(v, i, &lit.close_color) {
                    assert(lit.close_color@.len() == 8);
                    Some(i + 8)
                } else {
                    sprite_end_exec(lit, v, i)
                },
            }
        },
    }
}

/// Replaces every tag of kind `tag` in `s` with `rep`.
pub fn replace_tags_exec(tag: Tag, lit: &Literals, s: &Vec<char>, rep: &Vec<char>) -> (r: Vec<
    char,
>)
    requires
        lit.wf(),
    ensures
        r@ == replace_tags(tag, s@, rep@),
{
    let mut out: Vec<char> = Vec::new();
    let mut i: usize = 0;
    while i < s.len()
        invariant
            lit.wf(),
            0 <= i <= s@.len(),
            out@ + replace_tags_from(tag, s@, i as int, rep@) == replace_tags(tag, s@, rep@),
        decreases s@.len() - i,
    {
        proof {
            lemma_tag_end(tag, s@, i as int);
        }
        let ghost old_out = out@;
        match tag_end_exec(tag, lit, s, i) {
            Some(e) => {
                extend_chars(&mut out, rep);
                assert(old_out + (rep@ + replace_tags_from(tag, s@, e as int, rep@)) =~= out@
                    + replace_tags_from(tag, s@, e as int, rep@));
                i = e;
            },
            None => {
                out.push(s[i]);
                assert(old_out + (seq![s@[i as int]] + replace_tags_from(tag, s@, i + 1, rep@))
                    =~= out@ + replace_tags_from(tag, s@, i + 1, rep@));
                i = i + 1;
            },
        }
    }
    assert(out@ + replace_tags_from(tag, s@, i as int, rep@) =~= out@);
    out
}

} // verus!

verus! {

// ---------------------------------------------------------------------
// Trimming.
// ---------------------------------------------------------------------

/// One past the last index before `j` whose character is not white space
/// (0 if there is none).
pub open spec fn trim_end_index(s: Seq<char>, j: int) -> int
    decreases j,
{
    if j <= 0 {
        0
    } else if is_white_space(s[j - 1]) {
        trim_end_index(s, j - 1)
    } else {
        j
    }
}

pub proof fn lemma_trim_end_index(s: Seq<char>, j: int)
    requires
        0 <= j <= s.len(),
    ensures
        0 <= trim_end_index(s, j) <= j,
        trim_end_index(s, j) > 0 ==> !is_white_space(s[trim_end_index(s, j) - 1]),
        forall|k: int| trim_end_index(s, j) <= k < j ==> is_white_space(s[k]),
    decreases j,
{
    if j > 0 && is_white_space(s[j - 1]) {
        lemma_trim_end_index(s, j - 1);
    }
}

/// `s` without its leading and trailing white space (what `str::trim` gives).
pub open spec fn trim(s: Seq<char>) -> Seq<char> {
    let a = skip_white(s, 0);
    let b = trim_end_index(s, s.len() as int);
    if a < b {
        s.subrange(a, b)
    } else {
        Seq::empty()
    }
}

pub fn trim_exec(v: &Vec<char>) -> (r: Vec<char>)
    ensures
        r@ == trim(v@),
{
    let a = skip_white_exec(v, 0);
    let mut b = v.len();
    while b > 0
        invariant
            0 <= b <= v@.len(),
            trim_end_index(v@, b as int) == trim_end_index(v@, v@.len() as int),
        ensures
            b == trim_end_index(v@, v@.len() as int),
        decreases b,
    {
        if !white_space(v[b - 1]) {
            break;
        }
        b = b - 1;
    }
    if a < b {
        copy_range(v, a, b)
    } else {
        Vec::new()
    }
}

// ---------------------------------------------------------------------
// Hyperlinks to glossary terms: `{LINK#N123}text{/LINK}`.
// ---------------------------------------------------------------------

pub open spec fn link_open() -> Seq<char> {
    seq!['{', 'L', 'I', 'N', 'K', '#']
}

pub open spec fn link_close() -> Seq<char> {
    seq!['{', '/', 'L', 'I', 'N', 'K', '}']
}

/// Where the digits of a link that starts at `i` end.
pub open spec fn link_digits_end(s: Seq<char>, i: int) -> int {
    skip_decimal(s, i + 7)
}

/// Where the linked text of a link that starts at `i` ends.
pub open spec fn link_text_end(s: Seq<char>, i: int) -> int {
    find_close_or_newline(s, link_digits_end(s, i) + 1, link_close())
}

/// A link starts at `i`: `{LINK#`, an upper-case ASCII letter, one or more
/// decimal digits, `}`, then text up to the first `{/LINK}` on the same line.
pub open spec fn link_at(s: Seq<char>, i: int) -> bool {
    &&& starts_at(s, i, link_open())
    &&& i + 6 < s.len()
    &&& is_ascii_upper(s[i + 6])
    &&& link_digits_end(s, i) > i + 7
    &&& link_digits_end(s, i) < s.len()
    &&& s[link_digits_end(s, i)] == '}'
    &&& link_text_end(s, i) < s.len()
    &&& starts_at(s, link_text_end(s, i), link_close())
}

/// Where a link that starts at `i` ends (exclusive).
pub open spec fn link_end(s: Seq<char>, i: int) -> int {
    link_text_end(s, i) + 7
}

/// The text from index `i` on with every link replaced by its linked text.
pub open spec fn link_text_from(s: Seq<char>, i: int) -> Seq<char>
    decreases s.len() - i,
{
    if i < 0 || i >= s.len() {
        Seq::empty()
    } else if link_at(s, i) && i < link_end(s, i) <= s.len() {
        s.subrange(link_digits_end(s, i) + 1, link_text_end(s, i)) + link_text_from(
            s,
            link_end(s, i),
        )
    } else {
        seq![s[i]] + link_text_from(s, i + 1)
    }
}

/// The numbers (the digits after the letter) of the links from index `i`
/// on, in order.
pub open spec fn link_numbers_from(s: Seq<char>, i: int) -> Seq<Seq<char>>
    decreases s.len() - i,
{
    if i < 0 || i >= s.len() {
        Seq::empty()
    } else if link_at(s, i) && i < link_end(s, i) <= s.len() {
        seq![s.subrange(i + 7, link_digits_end(s, i))] + link_numbers_from(s, link_end(s, i))
    } else {
        link_numbers_from(s, i + 1)
    }
}

pub fn link_open_chars() -> (r: Vec<char>)
    ensures
        r@ == link_open(),
{
    let r = vec!['{', 'L', 'I', 'N', 'K', '#'];
    assert(r@ =~= link_open());
    r
}

pub fn link_close_chars() -> (r: Vec<char>)
    ensures
        r@ == link_close(),
{
    let r = vec!['{', '/', 'L', 'I', 'N', 'K', '}'];
    assert(r@ =~= link_close());
    r
}

/// Whether a link starts at `i`; if so, where its digits end, where its
/// text ends, and where it ends.
fn link_at_exec(v: &Vec<char>, i: usize, open: &Vec<char>, close: &Vec<char>) -> (r: Option<
    (usize, usize),
>)
    requires
        i < v@.len(),
        open@ == link_open(),
        close@ == link_close(),
    ensures
        match r {
            Some((d, t)) => link_at(v@, i as int) && d == link_digits_end(v@, i as int) && t
                == link_text_end(v@, i as int) && i < link_end(v@, i as int) <= v@.len() && i + 7
                < d < t,
            None => !link_at(v@, i as int),
        },
{
    let _len = v.len();
    if !matches_at(v, i, open) {
        return None;
    }
    assert(open@.len() == 6);
    if !(i + 6 < v.len() && 'A' <= v[i + 6] && v[i + 6] <= 'Z') {
        return None;
    }
    let d = skip_decimal_exec(v, i + 7);
    proof {
        lemma_skip_decimal(v@, i + 7);
    }
    if !(d > i + 7 && d < v.len() && v[d] == '}') {
        return None;
    }
    let t = find_close_or_newline_exec(v, d + 1, close);
    proof {
        lemma_find_close_or_newline(v@, d + 1, close@);
    }
    if t < v.len() && matches_at(v, t, close) {
        assert(close@.len() == 7);
        Some((d, t))
    } else {
        None
    }
}

/// The text with every link replaced by its linked text, and the links'
/// numbers in order.
pub fn extract_links(v: &Vec<char>) -> (r: (Vec<char>, Vec<String>))
    ensures
        r.0@ == link_text_from(v@, 0),
        r.1@.map_values(|x: String| x@) == link_numbers_from(v@, 0),
{
    let open = link_open_chars();
    let close = link_close_chars();
    let mut text: Vec<char> = Vec::new();
    let mut nums: Vec<String> = Vec::new();
    let mut i: usize = 0;
    while i < v.len()
        invariant
            0 <= i <= v@.len(),
            open@ == link_open(),
            close@ == link_close(),
            text@ + link_text_from(v@, i as int) == link_text_from(v@, 0),
            nums@.map_values(|x: String| x@) + link_numbers_from(v@, i as int) == link_numbers_from(
                v@,
                0,
            ),
        decreases v@.len() - i,
    {
        let ghost old_text = text@;
        let ghost old_nums = nums@.map_values(|x: String| x@);
        match link_at_exec(v, i, &open, &close) {
            Some((d, t)) => {
                let inner = copy_range(v, d + 1, t);
                extend_chars(&mut text, &inner);
                let digits = copy_range(v, i + 7, d);
                nums.push(chars_string(&digits));
                let e = t + 7;
                assert(old_text + (inner@ + link_text_from(v@, e as int)) =~= text@
                    + link_text_from(v@, e as int));
                assert(nums@.map_values(|x: String| x@) =~= old_nums.push(digits@));
                assert(old_nums + (seq![digits@] + link_numbers_from(v@, e as int)) =~= nums@.map_values(
                    |x: String| x@,
                ) + link_numbers_from(v@, e as int));
                i = e;
            },
            None => {
                text.push(v[i]);
                assert(old_text + (seq![v@[i as int]] + link_text_from(v@, i + 1)) =~= text@
                    + link_text_from(v@, i + 1));
                i = i + 1;
            },
        }
    }
    assert(text@ + link_text_from(v@, i as int) =~= text@);
    assert(nums@.map_values(|x: String| x@) + link_numbers_from(v@, i as int) =~= nums@.map_values(
        |x: String| x@,
    ));
    (text, nums)
}

} // verus!

verus! {

// ---------------------------------------------------------------------
// Value references in card texts: `$[key]`.
// ---------------------------------------------------------------------

/// Where a value reference `$[key]` that starts at `i` has its `]`, or -1.
/// The key is one or more characters other than `]`.
pub open spec fn key_ref_close(s: Seq<char>, i: int) -> int {
    if 0 <= i && i + 1 < s.len() && s[i] == '$' && s[i + 1] == '[' {
        let k = find_char(s, i + 2, ']');
        if i + 2 < k < s.len() {
            k
        } else {
            -1
        }
    } else {
        -1
    }
}

/// What a reference to `key` becomes: the key's value, or `[key]` when the
/// key has none.
pub open spec fn key_value(key: Seq<char>, values: Map<Seq<char>, Seq<char>>) -> Seq<char> {
    if values.contains_key(key) {
        values[key]
    } else {
        seq!['['] + key + seq![']']
    }
}

/// The text from index `i` on with every value reference replaced (see
/// `key_value`).
pub open spec fn substitute_from(s: Seq<char>, i: int, values: Map<Seq<char>, Seq<char>>) -> Seq<
    char,
>
    decreases s.len() - i,
{
    if i < 0 || i >= s.len() {
        Seq::empty()
    } else if key_ref_close(s, i) != -1 && i < key_ref_close(s, i) < s.len() {
        key_value(s.subrange(i + 2, key_ref_close(s, i)), values) + substitute_from(
            s,
            key_ref_close(s, i) + 1,
            values,
        )
    } else {
        seq![s[i]] + substitute_from(s, i + 1, values)
    }
}

/// The string values of a map of strings.
pub open spec fn string_map(m: Map<Seq<char>, String>) -> Map<Seq<char>, Seq<char>> {
    m.map_values(|x: String| x@)
}

/// Replaces every value reference `$[key]` in `v` by the key's value in
/// `values`, or by `[key]` where it has none.
pub fn substitute_keys(v: &Vec<char>, values: &KeyMap<String>) -> (r: Vec<char>)
    ensures
        r@ == substitute_from(v@, 0, string_map(key_map(values@))),
{
    let ghost tree = string_map(key_map(values@));
    let mut out: Vec<char> = Vec::new();
    let mut i: usize = 0;
    while i < v.len()
        invariant
            0 <= i <= v@.len(),
            tree == string_map(key_map(values@)),
            out@ + substitute_from(v@, i as int, tree) == substitute_from(v@, 0, tree),
        decreases v@.len() - i,
    {
        let ghost before = out@;
        let mut close: Option<usize> = None;
        if i + 1 < v.len() && v[i] == '$' && v[i + 1] == '[' {
            let k = find_char_exec(v, i + 2, ']');
            if i + 2 < k && k < v.len() {
                close = Some(k);
            }
        }
        match close {
            Some(k) => {
                let key_chars = copy_range(v, i + 2, k);
                let key = chars_string(&key_chars);
                match key_map_get(values, &key) {
                    Some(value) => {
                        out.append(&mut crate::chars::str_chars(value.as_str()));
                    },
                    None => {
                        out.push('[');
                        extend_chars(&mut out, &key_chars);
                        out.push(']');
                    },
                }
                assert(before + (key_value(v@.subrange(i + 2, k as int), tree) + substitute_from(
                    v@,
                    k + 1,
                    tree,
                )) =~= out@ + substitute_from(v@, k + 1, tree));
                i = k + 1;
            },
            None => {
                out.push(v[i]);
                assert(before + (seq![v@[i as int]] + substitute_from(v@, i + 1, tree)) =~= out@
                    + substitute_from(v@, i + 1, tree));
                i = i + 1;
            },
        }
    }
    assert(out@ + substitute_from(v@, i as int, tree) =~= out@);
    out
}

} // verus!
