//! The parameter lines of a skill: which lines are shown, where their value
//! placeholders are, and which values fill each one.
use vstd::prelude::*;
use crate::chars::{is_ascii_digit, is_ascii_upper, starts_at, str_chars, chars_string, matches_at, extend_chars};
use crate::markup::{skip_digits, lemma_skip_digits, skip_digits_exec};

verus! {

/// The parameter lines that a skill shows: those before the first empty
/// line, with each `×` written `x`.
pub open spec fn shown_lines(descs: Seq<String>) -> Seq<Seq<char>>
    decreases descs.len(),
{
    if descs.len() == 0 || descs[0]@.len() == 0 {
        Seq::empty()
    } else {
        seq![times_to_x(descs[0]@)] + shown_lines(descs.drop_first())
    }
}

/// The text with each `×` written `x`.
pub open spec fn times_to_x(s: Seq<char>) -> Seq<char> {
    s.map_values(|c: char| if c == '×' { 'x' } else { c })
}

/// The parameter lines that a skill shows (see `shown_lines`).
pub fn param_templates(descs: &Vec<String>) -> (r: Vec<String>)
    ensures
        r@.map_values(|x: String| x@) == shown_lines(descs@),
{
    let mut out: Vec<String> = Vec::new();
    let n = descs.len();
    let mut i: usize = 0;
    assert(descs@.skip(0) =~= descs@);
    assert(out@.map_values(|x: String| x@) =~= Seq::<Seq<char>>::empty());
    while i < n
        invariant
            n == descs@.len(),
            0 <= i <= n,
            out@.map_values(|x: String| x@) + shown_lines(descs@.skip(i as int)) == shown_lines(descs@),
        decreases n - i,
    {
        assert(descs@.skip(i as int)[0] == descs@[i as int]);
        assert(descs@.skip(i as int).drop_first() =~= descs@.skip(i + 1));
        let chars = str_chars(descs[i].as_str());
        if chars.len() == 0 {
            assert(shown_lines(descs@.skip(i as int)) =~= Seq::<Seq<char>>::empty());
            assert(out@.map_values(|x: String| x@) + Seq::<Seq<char>>::empty() =~= out@.map_values(|x: String| x@));
            return out;
        }
        let mut line: Vec<char> = Vec::new();
        let m = chars.len();
        let mut j: usize = 0;
        while j < m
            invariant
                m == chars@.len(),
                0 <= j <= m,
                line@ == times_to_x(chars@.take(j as int)),
            decreases m - j,
        {
            let c = chars[j];
            line.push(if c == '×' { 'x' } else { c });
            assert(times_to_x(chars@.take(j + 1)) =~= times_to_x(chars@.take(j as int)).push(if c == '×' { 'x' } else { c }));
            j = j + 1;
        }
        assert(chars@.take(m as int) =~= chars@);
        let ghost before = out@.map_values(|x: String| x@);
        out.push(chars_string(&line));
        assert(out@.map_values(|x: String| x@) =~= before.push(line@));
        assert(before.push(line@) + shown_lines(descs@.skip(i + 1)) =~= before + shown_lines(descs@.skip(i as int)));
        i = i + 1;
    }
    assert(shown_lines(descs@.skip(n as int)) =~= Seq::<Seq<char>>::empty());
    assert(out@.map_values(|x: String| x@) + Seq::<Seq<char>>::empty() =~= out@.map_values(|x: String| x@));
    out
}

/// The opening of a value placeholder.
pub open spec fn param_open() -> Seq<char> {
    seq!['{', 'p', 'a', 'r', 'a', 'm']
}

/// The first index `k >= j` whose character is neither an ASCII upper-case
/// letter nor an ASCII digit (or `s.len()`).
pub open spec fn skip_format(s: Seq<char>, j: int) -> int
    decreases s.len() - j,
{
    if j >= s.len() {
        s.len() as int
    } else if is_ascii_upper(s[j]) || is_ascii_digit(s[j]) {
        skip_format(s, j + 1)
    } else {
        j
    }
}

proof fn lemma_skip_format(s: Seq<char>, j: int)
    requires
        0 <= j <= s.len(),
    ensures
        j <= skip_format(s, j) <= s.len(),
    decreases s.len() - j,
{
    if j < s.len() && (is_ascii_upper(s[j]) || is_ascii_digit(s[j])) {
        lemma_skip_format(s, j + 1);
    }
}

fn skip_format_exec(v: &Vec<char>, j: usize) -> (r: usize)
    requires
        j <= v@.len(),
    ensures
        r as int == skip_format(v@, j as int),
{
    let mut k = j;
    while k < v.len()
        invariant
            j <= k <= v@.len(),
            skip_format(v@, k as int) == skip_format(v@, j as int),
        decreases v@.len() - k,
    {
        let c = v[k];
        if !(('A' <= c && c <= 'Z') || ('0' <= c && c <= '9')) {
            return k;
        }
        k = k + 1;
    }
    k
}

/// Where the colon of a placeholder at `i` stands: after `{param` and its
/// digits.
pub open spec fn param_colon(s: Seq<char>, i: int) -> int {
    skip_digits(s, i + 6)
}

/// Where the closing brace of a placeholder at `i` stands.
pub open spec fn param_brace(s: Seq<char>, i: int) -> int {
    skip_format(s, param_colon(s, i) + 1)
}

/// A value placeholder `{param<digits>:<format>}` starts at `i`: the digits
/// are ASCII digits and the format ASCII upper-case letters and digits, each
/// at least one.
pub open spec fn param_at(s: Seq<char>, i: int) -> bool {
    let d = param_colon(s, i);
    let u = param_brace(s, i);
    &&& starts_at(s, i, param_open())
    &&& d > i + 6
    &&& d < s.len()
    &&& s[d] == ':'
    &&& u > d + 1
    &&& u < s.len()
    &&& s[u] == '}'
}

/// A placeholder: its digits and its format.
pub struct Placeholder {
    pub digits: String,
    pub format: String,
}

/// The digits and formats of the placeholders from index `i` on, scanning
/// left to right and skipping over each placeholder found.
pub open spec fn placeholders_from(s: Seq<char>, i: int) -> Seq<(Seq<char>, Seq<char>)>
    decreases s.len() - i,
{
    if i < 0 || i >= s.len() {
        Seq::empty()
    } else if param_at(s, i) {
        let d = param_colon(s, i);
        let u = param_brace(s, i);
        seq![(s.subrange(i + 6, d), s.subrange(d + 1, u))] + placeholders_from(s, u + 1)
    } else {
        placeholders_from(s, i + 1)
    }
}

/// The text from index `i` on with its `k`-th and later placeholders
/// replaced by `reps[k]`, `reps[k + 1]`, and so on.
pub open spec fn filled_from(s: Seq<char>, i: int, reps: Seq<Seq<char>>, k: int) -> Seq<char>
    decreases s.len() - i,
{
    if i < 0 || i >= s.len() {
        Seq::empty()
    } else if param_at(s, i) {
        reps[k] + filled_from(s, param_brace(s, i) + 1, reps, k + 1)
    } else {
        seq![s[i]] + filled_from(s, i + 1, reps, k)
    }
}

/// The end of the placeholder at `i`, if one starts there.
fn param_end_exec(v: &Vec<char>, open: &Vec<char>, i: usize) -> (r: Option<(usize, usize)>)
    requires
        open@ == param_open(),
        i < v@.len(),
    ensures
        match r {
            Some((d, u)) => param_at(v@, i as int) && d == param_colon(v@, i as int) && u == param_brace(
                v@,
                i as int,
            ),
            None => !param_at(v@, i as int),
        },
{
    if !matches_at(v, i, open) {
        return None;
    }
    let _len = v.len();
    assert(param_open().len() == 6);
    assert(i + 6 <= v@.len());
    let d = skip_digits_exec(v, i + 6);
    proof {
        lemma_skip_digits(v@, i + 6);
    }
    if d == i + 6 || d >= v.len() || v[d] != ':' {
        return None;
    }
    let u = skip_format_exec(v, d + 1);
    proof {
        lemma_skip_format(v@, d + 1);
    }
    if u == d + 1 || u >= v.len() || v[u] != '}' {
        return None;
    }
    Some((d, u))
}

fn param_open_chars() -> (r: Vec<char>)
    ensures
        r@ == param_open(),
{
    let r = vec!['{', 'p', 'a', 'r', 'a', 'm'];
    assert(r@ =~= param_open());
    r
}

/// The placeholders of a parameter line, in order (see `placeholders_from`).
pub fn find_placeholders(line: &str) -> (r: Vec<Placeholder>)
    ensures
        r@.map_values(|p: Placeholder| (p.digits@, p.format@)) == placeholders_from(line@, 0),
{
    let v = str_chars(line);
    let open = param_open_chars();
    let mut out: Vec<Placeholder> = Vec::new();
    let mut i: usize = 0;
    assert(out@.map_values(|p: Placeholder| (p.digits@, p.format@)) =~= Seq::<(Seq<char>, Seq<char>)>::empty());
    while i < v.len()
        invariant
            v@ == line@,
            open@ == param_open(),
            0 <= i <= v@.len(),
            out@.map_values(|p: Placeholder| (p.digits@, p.format@)) + placeholders_from(v@, i as int)
                == placeholders_from(v@, 0),
        decreases v@.len() - i,
    {
        match param_end_exec(&v, &open, i) {
            Some((d, u)) => {
                let ghost before = out@.map_values(|p: Placeholder| (p.digits@, p.format@));
                let digits = chars_string(&crate::chars::copy_range(&v, i + 6, d));
                let format = chars_string(&crate::chars::copy_range(&v, d + 1, u));
                out.push(Placeholder { digits, format });
                assert(out@.map_values(|p: Placeholder| (p.digits@, p.format@)) =~= before.push(
                    (v@.subrange(i + 6, d as int), v@.subrange(d + 1, u as int)),
                ));
                assert(before.push((v@.subrange(i + 6, d as int), v@.subrange(d + 1, u as int)))
                    + placeholders_from(v@, u + 1) =~= before + placeholders_from(v@, i as int));
                i = u + 1;
            },
            None => {
                i = i + 1;
            },
        }
    }
    assert(out@.map_values(|p: Placeholder| (p.digits@, p.format@)) + Seq::<(Seq<char>, Seq<char>)>::empty()
        =~= out@.map_values(|p: Placeholder| (p.digits@, p.format@)));
    out
}

/// A parameter line with its placeholders replaced, in order, by the given
/// texts (one for each placeholder, see `filled_from`).
pub fn fill_placeholders(line: &str, reps: &Vec<String>) -> (r: String)
    requires
        reps@.len() == placeholders_from(line@, 0).len(),
    ensures
        r@ == filled_from(line@, 0, reps@.map_values(|x: String| x@), 0),
{
    let v = str_chars(line);
    let open = param_open_chars();
    let ghost rs = reps@.map_values(|x: String| x@);
    let mut out: Vec<char> = Vec::new();
    let mut i: usize = 0;
    let mut k: usize = 0;
    let rn = reps.len();
    while i < v.len()
        invariant
            rn == reps@.len(),
            v@ == line@,
            open@ == param_open(),
            rs == reps@.map_values(|x: String| x@),
            reps@.len() == placeholders_from(v@, 0).len(),
            0 <= i <= v@.len(),
            k + placeholders_from(v@, i as int).len() == placeholders_from(v@, 0).len(),
            out@ + filled_from(v@, i as int, rs, k as int) == filled_from(v@, 0, rs, 0),
        decreases v@.len() - i,
    {
        match param_end_exec(&v, &open, i) {
            Some((d, u)) => {
                let ghost before = out@;
                let rep = str_chars(reps[k].as_str());
                extend_chars(&mut out, &rep);
                assert(before + (rs[k as int] + filled_from(v@, u + 1, rs, k + 1)) =~= out@ + filled_from(v@, u + 1, rs, k + 1));
                i = u + 1;
                k = k + 1;
            },
            None => {
                let ghost before = out@;
                out.push(v[i]);
                assert(before + (seq![v@[i as int]] + filled_from(v@, i + 1, rs, k as int)) =~= out@ + filled_from(v@, i + 1, rs, k as int));
                i = i + 1;
            },
        }
    }
    assert(out@ + filled_from(v@, i as int, rs, k as int) =~= out@);
    chars_string(&out)
}

/// The number that a run of ASCII digits stands for.
pub open spec fn digits_value(s: Seq<char>) -> int
    decreases s.len(),
{
    if s.len() == 0 {
        0
    } else {
        digits_value(s.drop_last()) * 10 + (s.last() as int - '0' as int)
    }
}

/// The number that a placeholder's digits stand for, or `None` where it does
/// not fit in a `usize` (what `str::parse::<usize>` gives for them).
pub fn param_index(digits: &str) -> (r: Option<usize>)
    requires
        digits@.len() > 0,
        forall|i: int| 0 <= i < digits@.len() ==> is_ascii_digit(#[trigger] digits@[i]),
    ensures
        match r {
            Some(v) => v == digits_value(digits@),
            None => digits_value(digits@) > usize::MAX,
        },
{
    let v = str_chars(digits);
    let mut value: usize = 0;
    let mut i: usize = 0;
    assert(v@.take(0) =~= Seq::<char>::empty());
    while i < v.len()
        invariant
            v@ == digits@,
            0 <= i <= v@.len(),
            forall|j: int| 0 <= j < v@.len() ==> is_ascii_digit(#[trigger] v@[j]),
            value == digits_value(v@.take(i as int)),
        decreases v@.len() - i,
    {
        let c = v[i];
        let d = (c as u32 - '0' as u32) as usize;
        assert(v@.take(i + 1).drop_last() =~= v@.take(i as int));
        assert(d == c as int - '0' as int);
        match value.checked_mul(10) {
            Some(t) => match t.checked_add(d) {
                Some(nv) => {
                    value = nv;
                },
                None => {
                    proof {
                        lemma_digits_value_grows(v@, i + 1);
                    }
                    return None;
                },
            },
            None => {
                proof {
                    lemma_digits_value_grows(v@, i + 1);
                }
                return None;
            },
        }
        i = i + 1;
    }
    assert(v@.take(v@.len() as int) =~= v@);
    Some(value)
}

/// The value of a prefix of digits is at most that of the whole.
pub proof fn lemma_digits_value_grows(s: Seq<char>, k: int)
    requires
        0 <= k <= s.len(),
        forall|j: int| 0 <= j < s.len() ==> is_ascii_digit(#[trigger] s[j]),
    ensures
        digits_value(s.take(k)) <= digits_value(s),
    decreases s.len() - k,
{
    if k < s.len() {
        lemma_digits_value_grows(s, k + 1);
        assert(s.take(k + 1).drop_last() =~= s.take(k));
        assert(is_ascii_digit(s[k]));
        lemma_digits_value_nonneg(s.take(k));
        assert(digits_value(s.take(k)) * 10 >= digits_value(s.take(k))) by (nonlinear_arith)
            requires
                digits_value(s.take(k)) >= 0,
        ;
    } else {
        assert(s.take(k) =~= s);
    }
}

pub proof fn lemma_digits_value_nonneg(s: Seq<char>)
    requires
        forall|j: int| 0 <= j < s.len() ==> is_ascii_digit(#[trigger] s[j]),
    ensures
        digits_value(s) >= 0,
    decreases s.len(),
{
    if s.len() > 0 {
        assert(is_ascii_digit(s[s.len() - 1]));
        lemma_digits_value_nonneg(s.drop_last());
    }
}

/// Which values fill a placeholder.
#[derive(Clone, Copy, Debug, PartialEq, Eq, Structural)]
pub enum ParamChoice {
    /// The placeholder stays as it is.
    Unchanged,
    /// The level-1 value alone.
    Single,
    /// The values at levels 1, 9 and 12.
    Triple,
}

/// Which values fill the placeholder with (one-based) number `index`, given
/// how many values each level has and whether the level-1 and level-9 values
/// at that position are equal: none where level 1 has no such value; the
/// level-1 value alone where level 9 has none there or the same one, or
/// level 12 has none there; all three otherwise.
pub open spec fn param_choice(index: int, n0_len: int, n9_len: int, n12_len: int, n0_equals_n9: bool) -> ParamChoice {
    let idx = index - 1;
    if idx >= n0_len {
        ParamChoice::Unchanged
    } else if n9_len == 0 || idx >= n9_len || n0_equals_n9 || idx >= n12_len {
        ParamChoice::Single
    } else {
        ParamChoice::Triple
    }
}

/// Which values fill a placeholder (see `param_choice`); placeholders are
/// numbered from one.
pub fn choose_param(index: usize, n0_len: usize, n9_len: usize, n12_len: usize, n0_equals_n9: bool) -> (r: ParamChoice)
    requires
        index >= 1,
    ensures
        r == param_choice(index as int, n0_len as int, n9_len as int, n12_len as int, n0_equals_n9),
{
    let idx = index - 1;
    if idx >= n0_len {
        ParamChoice::Unchanged
    } else if n9_len == 0 || idx >= n9_len || n0_equals_n9 || idx >= n12_len {
        ParamChoice::Single
    } else {
        ParamChoice::Triple
    }
}

/// A placeholder is left as it is exactly when level 1 has no value at its
/// position; it shows all three levels exactly when levels 1, 9 and 12 all
/// have a value there and the level-1 and level-9 values differ; otherwise
/// it shows the level-1 value alone.  The choice depends on the placeholder's
/// number only through whether each level has a value at its position.
pub proof fn placeholders_show_three_levels_where_they_differ(
    index: int,
    other: int,
    n0_len: int,
    n9_len: int,
    n12_len: int,
    n0_equals_n9: bool,
)
    requires
        index >= 1,
        other >= 1,
    ensures
        (param_choice(index, n0_len, n9_len, n12_len, n0_equals_n9) == ParamChoice::Unchanged) <==> index
            > n0_len,
        (param_choice(index, n0_len, n9_len, n12_len, n0_equals_n9) == ParamChoice::Triple) <==> (index
            <= n0_len && index <= n9_len && index <= n12_len && !n0_equals_n9),
        (param_choice(index, n0_len, n9_len, n12_len, n0_equals_n9) == ParamChoice::Single) <==> (index
            <= n0_len && (index > n9_len || index > n12_len || n0_equals_n9)),
        index <= n0_len && index <= n9_len && index <= n12_len && other <= n0_len && other <= n9_len
            && other <= n12_len ==> param_choice(index, n0_len, n9_len, n12_len, n0_equals_n9)
            == param_choice(other, n0_len, n9_len, n12_len, n0_equals_n9),
{
}

} // verus!
