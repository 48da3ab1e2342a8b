//! Splitting a refinement text into segments: each segment is the plain
//! text up to a colour block (`<color=#RRGGBBAA>...</color>`) or up to the
//! end of the text, with the block's contents.
//!
//! A segment's plain text never holds a newline: text that precedes a newline
//! without a colour block in between belongs to no segment.  Segments are
//! found left to right, each starting where the previous one ended; an empty
//! segment that would end exactly where the previous one ended is skipped.
use vstd::prelude::*;
use crate::chars::{starts_at, matches_at, is_decimal_digit, decimal_digit, copy_range, chars_string};
use crate::markup::{
    find_char, lemma_find_char, find_char_exec, skip_decimal, lemma_skip_decimal, skip_decimal_exec,
    close_color_tag, close_color_chars,
};

verus! {

pub open spec fn color_open_prefix() -> Seq<char> {
    seq!['<', 'c', 'o', 'l', 'o', 'r', '=', '#']
}

pub open spec fn is_hex_digit(c: char) -> bool {
    ||| ('0' <= c && c <= '9')
    ||| ('a' <= c && c <= 'f')
    ||| ('A' <= c && c <= 'F')
}

/// An opening tag `<color=#` + eight hexadecimal digits + `>` starts at `q`.
pub open spec fn color_open_at(s: Seq<char>, q: int) -> bool {
    &&& starts_at(s, q, color_open_prefix())
    &&& q + 17 <= s.len()
    &&& forall|j: int| q + 8 <= j < q + 16 ==> is_hex_digit(#[trigger] s[j])
    &&& s[q + 16] == '>'
}

/// Where the longest prefix from `c` of the form `(D%?/)*D%?` ends, with `D`
/// one or more decimal digits (Unicode's `Nd`); -1 when no digit stands at `c`.
pub open spec fn number_end(s: Seq<char>, c: int) -> int
    decreases s.len() - c,
{
    if c < 0 || c >= s.len() || !is_decimal_digit(s[c]) {
        -1
    } else {
        let d = skip_decimal(s, c);
        let p = if d < s.len() && s[d] == '%' {
            d + 1
        } else {
            d
        };
        if c < p && p + 1 < s.len() && s[p] == '/' && is_decimal_digit(s[p + 1]) {
            number_end(s, p + 1)
        } else {
            p
        }
    }
}

/// A character that may stand in the number of a colour block.
pub open spec fn is_number_char(c: char) -> bool {
    is_decimal_digit(c) || c == '%' || c == '/'
}

pub proof fn lemma_number_end(s: Seq<char>, c: int)
    requires
        0 <= c,
    ensures
        number_end(s, c) == -1 || (c < number_end(s, c) <= s.len() && forall|j: int|
            c <= j < number_end(s, c) ==> s[j] != '<'),
        forall|j: int| c <= j < number_end(s, c) ==> is_number_char(#[trigger] s[j]),
    decreases s.len() - c,
{
    if 0 <= c < s.len() && is_decimal_digit(s[c]) {
        lemma_skip_decimal(s, c);
        let d = skip_decimal(s, c);
        let p = if d < s.len() && s[d] == '%' {
            d + 1
        } else {
            d
        };
        if c < p && p + 1 < s.len() && s[p] == '/' && is_decimal_digit(s[p + 1]) {
            lemma_number_end(s, p + 1);
        }
    }
}

/// A colour block starting at `q`: `Some((end, split))` where the block ends
/// at `end` (exclusive) and its contents, from `q + 17` to `end - 8`, are
/// split at `split`.  With `numeric`, the contents must start with a number
/// (see `number_end`) and `split` is where the number ends; otherwise the
/// contents are taken whole and `split == end - 8`.
pub open spec fn color_block_at(s: Seq<char>, q: int, numeric: bool) -> Option<(int, int)> {
    if !color_open_at(s, q) {
        None
    } else {
        let k = find_char(s, q + 17, '<');
        if !(k < s.len() && starts_at(s, k, close_color_tag())) {
            None
        } else if !numeric {
            Some((k + 8, k))
        } else if number_end(s, q + 17) == -1 {
            None
        } else {
            Some((k + 8, number_end(s, q + 17)))
        }
    }
}

pub proof fn lemma_color_block_at(s: Seq<char>, q: int, numeric: bool)
    requires
        0 <= q,
    ensures
        color_block_at(s, q, numeric) matches Some((e, n)) ==> q + 17 <= n <= e - 8 && e
            <= s.len() && q < e,
{
    if color_open_at(s, q) {
        lemma_find_char(s, q + 17, '<');
        lemma_number_end(s, q + 17);
        let k = find_char(s, q + 17, '<');
        if numeric && number_end(s, q + 17) != -1 && k < s.len() {
            let n = number_end(s, q + 17);
            if n > k {
                assert(s[k] != '<');
            }
        }
    }
}

/// From `q` on, the first place where a colour block starts or the text
/// ends, provided no newline comes first: `Some((q_end, block))`.
pub open spec fn scan_plain(s: Seq<char>, q: int, numeric: bool) -> Option<
    (int, Option<(int, int)>),
>
    decreases s.len() - q,
{
    if q < 0 || q > s.len() {
        None
    } else if color_block_at(s, q, numeric) is Some {
        Some((q, color_block_at(s, q, numeric)))
    } else if q == s.len() {
        Some((q, None))
    } else if s[q] == '\n' {
        None
    } else {
        scan_plain(s, q + 1, numeric)
    }
}

pub proof fn lemma_scan_plain(s: Seq<char>, q: int, numeric: bool)
    requires
        0 <= q,
    ensures
        scan_plain(s, q, numeric) matches Some((q2, b)) ==> q <= q2 <= s.len() && match b {
            Some((e, n)) => q2 + 17 <= n <= e - 8 && e <= s.len(),
            None => q2 == s.len(),
        },
        scan_plain(s, q, numeric) matches Some((q2, b)) ==> (b is Some ==> b == color_block_at(
            s,
            q2,
            numeric,
        )),
    decreases s.len() - q,
{
    if q <= s.len() {
        lemma_color_block_at(s, q, numeric);
        if color_block_at(s, q, numeric) is None && q < s.len() && s[q] != '\n' {
            lemma_scan_plain(s, q + 1, numeric);
        }
    }
}

/// The leftmost match at or after `p`: `Some((start, q_end, block))`.
pub open spec fn find_segment(s: Seq<char>, p: int, numeric: bool) -> Option<
    (int, int, Option<(int, int)>),
>
    decreases s.len() + 1 - p,
{
    if p < 0 || p > s.len() {
        None
    } else {
        match scan_plain(s, p, numeric) {
            Some((q, b)) => Some((p, q, b)),
            None => find_segment(s, p + 1, numeric),
        }
    }
}

pub proof fn lemma_find_segment(s: Seq<char>, p: int, numeric: bool)
    requires
        0 <= p,
    ensures
        find_segment(s, p, numeric) matches Some((st, q, b)) ==> p <= st <= q <= s.len()
            && match b {
            Some((e, n)) => q + 17 <= n <= e - 8 && e <= s.len(),
            None => q == s.len(),
        },
        find_segment(s, p, numeric) matches Some((st, q, b)) ==> (b is Some ==> b == color_block_at(
            s,
            q,
            numeric,
        )),
    decreases s.len() + 1 - p,
{
    if p <= s.len() {
        lemma_scan_plain(s, p, numeric);
        if scan_plain(s, p, numeric) is None {
            lemma_find_segment(s, p + 1, numeric);
        }
    }
}

/// Where a match `(start, q, block)` ends.
pub open spec fn match_end(q: int, b: Option<(int, int)>) -> int {
    match b {
        Some((e, _)) => e,
        None => q,
    }
}

/// One segment: its plain text, and the contents of its colour block, if it
/// has one, split in two.
pub type SpecSegment = (Seq<char>, Option<(Seq<char>, Seq<char>)>);

pub open spec fn segment_of(s: Seq<char>, st: int, q: int, b: Option<(int, int)>) -> SpecSegment {
    (
        s.subrange(st, q),
        match b {
            Some((e, n)) => Some((s.subrange(q + 17, n), s.subrange(n, e - 8))),
            None => None,
        },
    )
}

/// The segments found from `pos` on, where the previous match ended at
/// `last_end` (-1 before the first).
pub open spec fn segments_from(s: Seq<char>, pos: int, last_end: int, numeric: bool) -> Seq<
    SpecSegment,
>
    decreases s.len() + 1 - pos, (if last_end == pos {
        0int
    } else {
        1int
    }),
{
    if pos < 0 || pos > s.len() {
        Seq::empty()
    } else {
        match find_segment(s, pos, numeric) {
            None => Seq::empty(),
            Some((st, q, b)) => {
                let e = match_end(q, b);
                if st == e && e == last_end {
                    segments_from(s, pos + 1, last_end, numeric)
                } else if pos <= st <= q <= e <= s.len() && (pos < e || last_end != pos) {
                    seq![segment_of(s, st, q, b)] + segments_from(s, e, e, numeric)
                } else {
                    Seq::empty()
                }
            },
        }
    }
}

/// The segments of a text.
pub open spec fn segments(s: Seq<char>, numeric: bool) -> Seq<SpecSegment> {
    segments_from(s, 0, -1, numeric)
}

/// No character of `t` is `c`.
pub open spec fn free_of(t: Seq<char>, c: char) -> bool {
    forall|j: int| 0 <= j < t.len() ==> t[j] != c
}

/// A segment whose plain text and suffix hold no `[` and whose number is
/// made of digits, `%` and `/`.
pub open spec fn segment_without_brackets(seg: SpecSegment) -> bool {
    &&& free_of(seg.0, '[')
    &&& match seg.1 {
        Some((n, suffix)) => {
            &&& forall|j: int| 0 <= j < n.len() ==> is_number_char(#[trigger] n[j])
            &&& free_of(suffix, '[')
        },
        None => true,
    }
}

/// The refinement segments of a text that holds no `[` hold none either,
/// and their numbers are made of digits, `%` and `/`.
pub proof fn lemma_segments_without_brackets(s: Seq<char>, pos: int, last_end: int)
    requires
        0 <= pos,
        free_of(s, '['),
    ensures
        forall|i: int|
            0 <= i < segments_from(s, pos, last_end, true).len() ==> segment_without_brackets(
                #[trigger] segments_from(s, pos, last_end, true)[i],
            ),
    decreases s.len() + 1 - pos, (if last_end == pos {
        0int
    } else {
        1int
    }),
{
    if pos <= s.len() {
        lemma_find_segment(s, pos, true);
        match find_segment(s, pos, true) {
            None => {},
            Some((st, q, b)) => {
                let e = match_end(q, b);
                if st == e && e == last_end {
                    lemma_segments_without_brackets(s, pos + 1, last_end);
                    assert(segments_from(s, pos, last_end, true) == segments_from(s, pos + 1, last_end, true));
                } else if pos <= st <= q <= e <= s.len() && (pos < e || last_end != pos) {
                    lemma_segments_without_brackets(s, e, e);
                    let seg = segment_of(s, st, q, b);
                    match b {
                        Some((e2, n)) => {
                            lemma_number_end(s, q + 17);
                            assert(n == number_end(s, q + 17));
                            let num = s.subrange(q + 17, n);
                            assert forall|j: int| 0 <= j < num.len() implies is_number_char(
                                #[trigger] num[j],
                            ) by {
                                assert(num[j] == s[q + 17 + j]);
                            }
                            let suffix = s.subrange(n, e2 - 8);
                            assert forall|j: int| 0 <= j < suffix.len() implies suffix[j] != '[' by {
                                assert(suffix[j] == s[n + j]);
                            }
                        },
                        None => {},
                    }
                    assert forall|j: int| 0 <= j < seg.0.len() implies seg.0[j] != '[' by {
                        assert(seg.0[j] == s[st + j]);
                    }
                    assert(segment_without_brackets(seg));
                    let rest = segments_from(s, e, e, true);
                    assert(segments_from(s, pos, last_end, true) == seq![seg] + rest);
                    assert forall|i: int|
                        0 <= i < segments_from(s, pos, last_end, true).len() implies segment_without_brackets(
                        #[trigger] segments_from(s, pos, last_end, true)[i],
                    ) by {
                        if i > 0 {
                            assert(segments_from(s, pos, last_end, true)[i] == rest[i - 1]);
                        }
                    }
                }
            },
        }
    }
}

/// One segment of a text.
#[derive(Debug)]
pub struct ColorSegment {
    /// The plain text before the colour block (or before the end).
    pub plain: String,
    /// The colour block's contents split in two (for refinement texts, the
    /// number and the rest), if the segment has a block.
    pub colored: Option<(String, String)>,
}

impl View for ColorSegment {
    type V = SpecSegment;

    open spec fn view(&self) -> SpecSegment {
        (
            self.plain@,
            match self.colored {
                Some((a, b)) => Some((a@, b@)),
                None => None,
            },
        )
    }
}

pub open spec fn int_block(b: Option<(usize, usize)>) -> Option<(int, int)> {
    match b {
        Some((e, n)) => Some((e as int, n as int)),
        None => None,
    }
}

pub open spec fn int_scan(r: Option<(usize, Option<(usize, usize)>)>) -> Option<
    (int, Option<(int, int)>),
> {
    match r {
        Some((q, b)) => Some((q as int, int_block(b))),
        None => None,
    }
}

pub open spec fn int_segment(r: Option<(usize, usize, Option<(usize, usize)>)>) -> Option<
    (int, int, Option<(int, int)>),
> {
    match r {
        Some((st, q, b)) => Some((st as int, q as int, int_block(b))),
        None => None,
    }
}

fn color_open_at_exec(v: &Vec<char>, q: usize, prefix: &Vec<char>) -> (r: bool)
    requires
        prefix@ == color_open_prefix(),
        q <= v@.len(),
    ensures
        r == color_open_at(v@, q as int),
{
    let _len = v.len();
    if !matches_at(v, q, prefix) {
        return false;
    }
    if !(v.len() - q >= 17) {
        return false;
    }
    let mut j = q + 8;
    while j < q + 16
        invariant
            q + 8 <= j <= q + 16,
            q + 17 <= v@.len(),
            _len == v@.len(),
            forall|k: int| q + 8 <= k < j ==> is_hex_digit(#[trigger] v@[k]),
        decreases q + 16 - j,
    {
        let c = v[j];
        if !(('0' <= c && c <= '9') || ('a' <= c && c <= 'f') || ('A' <= c && c <= 'F')) {
            return false;
        }
        j = j + 1;
    }
    v[q + 16] == '>'
}

fn number_end_exec(v: &Vec<char>, c: usize) -> (r: Option<usize>)
    requires
        c <= v@.len(),
    ensures
        match r {
            Some(n) => number_end(v@, c as int) == n as int,
            None => number_end(v@, c as int) == -1,
        },
{
    let len = v.len();
    let mut x = c;
    let ghost c0 = c as int;
    if !(x < v.len() && decimal_digit(v[x])) {
        return None;
    }
    loop
        invariant
            c0 <= x < v@.len(),
            c0 == c as int,
            len == v@.len(),
            is_decimal_digit(v@[x as int]),
            number_end(v@, x as int) == number_end(v@, c0),
        decreases v@.len() - x,
    {
        let d = skip_decimal_exec(v, x);
        proof {
            lemma_skip_decimal(v@, x as int);
        }
        assert(d <= len);
        let p = if d < v.len() && v[d] == '%' {
            d + 1
        } else {
            d
        };
        if x < p && p < v.len() - 1 && v[p] == '/' && decimal_digit(v[p + 1]) {
            x = p + 1;
        } else {
            return Some(p);
        }
    }
}

fn color_block_exec(v: &Vec<char>, q: usize, numeric: bool, prefix: &Vec<char>, close: &Vec<
    char,
>) -> (r: Option<(usize, usize)>)
    requires
        prefix@ == color_open_prefix(),
        close@ == close_color_tag(),
        q <= v@.len(),
    ensures
        color_block_at(v@, q as int, numeric) == int_block(r),
{
    let _len = v.len();
    if !color_open_at_exec(v, q, prefix) {
        return None;
    }
    let k = find_char_exec(v, q + 17, '<');
    if !(k < v.len() && matches_at(v, k, close)) {
        return None;
    }
    assert(close@.len() == 8);
    if !numeric {
        Some((k + 8, k))
    } else {
        match number_end_exec(v, q + 17) {
            Some(n) => Some((k + 8, n)),
            None => None,
        }
    }
}

fn scan_plain_exec(v: &Vec<char>, q: usize, numeric: bool, prefix: &Vec<char>, close: &Vec<
    char,
>) -> (r: Option<(usize, Option<(usize, usize)>)>)
    requires
        prefix@ == color_open_prefix(),
        close@ == close_color_tag(),
        q <= v@.len(),
    ensures
        scan_plain(v@, q as int, numeric) == int_scan(r),
{
    let mut k = q;
    let ghost q0 = q as int;
    loop
        invariant
            q0 <= k <= v@.len(),
            q0 == q as int,
            prefix@ == color_open_prefix(),
            close@ == close_color_tag(),
            scan_plain(v@, k as int, numeric) == scan_plain(v@, q0, numeric),
        decreases v@.len() - k,
    {
        match color_block_exec(v, k, numeric, prefix, close) {
            Some((e, n)) => {
                assert(color_block_at(v@, k as int, numeric) == Some((e as int, n as int)));
                assert(scan_plain(v@, k as int, numeric) == Some((k as int, Some((e as int, n as int)))));
                return Some((k, Some((e, n))));
            },
            None => {},
        }
        if k == v.len() {
            return Some((k, None));
        }
        if v[k] == '\n' {
            return None;
        }
        k = k + 1;
    }
}

fn find_segment_exec(v: &Vec<char>, p: usize, numeric: bool, prefix: &Vec<char>, close: &Vec<
    char,
>) -> (r: Option<(usize, usize, Option<(usize, usize)>)>)
    requires
        prefix@ == color_open_prefix(),
        close@ == close_color_tag(),
        p <= v@.len(),
    ensures
        find_segment(v@, p as int, numeric) == int_segment(r),
{
    let mut k = p;
    let ghost p0 = p as int;
    loop
        invariant
            p0 <= k <= v@.len(),
            p0 == p as int,
            prefix@ == color_open_prefix(),
            close@ == close_color_tag(),
            find_segment(v@, k as int, numeric) == find_segment(v@, p0, numeric),
        decreases v@.len() - k,
    {
        match scan_plain_exec(v, k, numeric, prefix, close) {
            Some((q, b)) => {
                return Some((k, q, b));
            },
            None => {},
        }
        if k == v.len() {
            return None;
        }
        k = k + 1;
    }
}

pub open spec fn segment_views(v: Seq<ColorSegment>) -> Seq<SpecSegment> {
    v.map_values(|x: ColorSegment| x@)
}

/// The segments of `v` (see `segments`).
pub fn segments_exec(v: &Vec<char>, numeric: bool) -> (r: Vec<ColorSegment>)
    ensures
        segment_views(r@) == segments(v@, numeric),
{
    let prefix = color_prefix_chars();
    let close = close_color_chars();
    let mut out: Vec<ColorSegment> = Vec::new();
    let mut pos: usize = 0;
    let mut last_end: Option<usize> = None;
    let ghost mut le: int = -1;
    loop
        invariant
            0 <= pos <= v@.len(),
            prefix@ == color_open_prefix(),
            close@ == close_color_tag(),
            segment_views(out@) + segments_from(v@, pos as int, le, numeric) == segments(
                v@,
                numeric,
            ),
            match last_end {
                Some(l) => l == pos && le == pos,
                None => le < pos,
            },
        decreases v@.len() + 1 - pos, (if last_end is Some {
            0int
        } else {
            1int
        }),
    {
        proof {
            lemma_find_segment(v@, pos as int, numeric);
        }
        match find_segment_exec(v, pos, numeric, &prefix, &close) {
            None => {
                assert(segment_views(out@) + segments_from(v@, pos as int, le, numeric)
                    =~= segment_views(out@));
                return out;
            },
            Some((st, q, b)) => {
                let e = match b {
                    Some((e0, _)) => e0,
                    None => q,
                };
                let skip = match last_end {
                    Some(l) => st == e && e == l,
                    None => false,
                };
                if skip {
                    if pos == v.len() {
                        assert(segments_from(v@, pos + 1, le, numeric) =~= Seq::<
                            SpecSegment,
                        >::empty());
                        assert(segment_views(out@) + Seq::<SpecSegment>::empty()
                            =~= segment_views(out@));
                        return out;
                    }
                    pos = pos + 1;
                    last_end = None;
                } else {
                    let plain = chars_string(&copy_range(v, st, q));
                    let colored = match b {
                        Some((e0, n)) => Some(
                            (
                                chars_string(&copy_range(v, q + 17, n)),
                                chars_string(&copy_range(v, n, e0 - 8)),
                            ),
                        ),
                        None => None,
                    };
                    let seg = ColorSegment { plain, colored };
                    let ghost old_views = segment_views(out@);
                    let ghost sb: Option<(int, int)> = match b {
                        Some((e0, n)) => Some((e0 as int, n as int)),
                        None => None,
                    };
                    out.push(seg);
                    proof {
                        assert(segment_views(out@) =~= old_views.push(
                            segment_of(v@, st as int, q as int, sb),
                        ));
                        assert(old_views + (seq![segment_of(v@, st as int, q as int, sb)]
                            + segments_from(v@, e as int, e as int, numeric)) =~= segment_views(
                            out@,
                        ) + segments_from(v@, e as int, e as int, numeric));
                        le = e as int;
                    }
                    pos = e;
                    last_end = Some(e);
                }
            },
        }
    }
}

pub fn color_prefix_chars() -> (r: Vec<char>)
    ensures
        r@ == color_open_prefix(),
{
    let r = vec!['<', 'c', 'o', 'l', 'o', 'r', '=', '#'];
    assert(r@ =~= color_open_prefix());
    r
}

} // verus!

verus! {

/// The segments of a refinement text, colour blocks split into their
/// number and the rest (see `segments`).
pub fn color_segments(text: &str) -> (r: Vec<ColorSegment>)
    ensures
        segment_views(r@) == segments(text@, true),
{
    segments_exec(&crate::chars::str_chars(text), true)
}

/// The segments of a text, colour blocks taken whole (the second part of
/// each block is empty).
pub fn whole_color_segments(text: &str) -> (r: Vec<ColorSegment>)
    ensures
        segment_views(r@) == segments(text@, false),
{
    segments_exec(&crate::chars::str_chars(text), false)
}

/// The number of segments of a refinement text (see `segments`).
pub open spec fn segment_count(text: Seq<char>, numeric: bool) -> nat {
    segments(text, numeric).len()
}

} // verus!
