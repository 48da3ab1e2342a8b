//! How saved items are compared and reported: the rendering of text
//! differences, and the names of the files and messages that come of a save.
use vstd::prelude::*;
use vstd::string::StringExecFns;
use crate::chars::{str_chars, chars_string, copy_range, utf8_len, utf8_width, utf8_width_exec, lemma_utf8_len_grows};
use crate::key_map::{KeyMap, key_map, keys_unique, keys_ascending, key_map_insert};
use crate::markup::{string_map, trim, trim_exec};
use crate::chars::{is_ascii_digit, decimal, decimal_string, lemma_decimal_injective};
use crate::character_funcs::skill_funcs::{digits_value, lemma_digits_value_grows, lemma_digits_value_nonneg};
use crate::other_helper_funcs::helper_funcs::{Parsed, parsed_name};

verus! {

/// One step of a diff as difflib's `SequenceMatcher::get_opcodes` reports
/// it: its tag and the byte ranges of the old and new texts that it covers.
pub struct DiffOp {
    pub tag: String,
    pub first_start: usize,
    pub first_end: usize,
    pub second_start: usize,
    pub second_end: usize,
}

/// A diff step as plain values.
pub open spec fn op_view(o: DiffOp) -> (Seq<char>, int, int, int, int) {
    (o.tag@, o.first_start as int, o.first_end as int, o.second_start as int, o.second_end as int)
}

/// The steps that difflib's `SequenceMatcher` finds between the UTF-8 bytes
/// of two texts.
pub uninterp spec fn diff_opcodes(old: Seq<char>, new: Seq<char>) -> Seq<(Seq<char>, int, int, int, int)>;

/// Where a list of diff steps ends in the old and the new text (in bytes):
/// where its last step ends, or at the starts where there is no step.
pub open spec fn ops_end(ops: Seq<(Seq<char>, int, int, int, int)>) -> (int, int) {
    if ops.len() == 0 {
        (0, 0)
    } else {
        (ops.last().2, ops.last().4)
    }
}

/// A step of one of difflib's four kinds, with the shape of its kind: an
/// `equal` step covers as many bytes of both texts, a `delete` step none of
/// the new text, an `insert` step none of the old one.
pub open spec fn op_shaped(op: (Seq<char>, int, int, int, int)) -> bool {
    &&& op.1 <= op.2
    &&& op.3 <= op.4
    &&& {
        ||| (op.0 == "equal"@ && op.2 - op.1 == op.4 - op.3)
        ||| (op.0 == "delete"@ && op.3 == op.4)
        ||| (op.0 == "insert"@ && op.1 == op.2)
        ||| op.0 == "replace"@
    }
}

/// Steps that cover the bytes of both texts one after another from their
/// starts: each step begins where the one before it ended.
pub open spec fn ops_chained(ops: Seq<(Seq<char>, int, int, int, int)>) -> bool
    decreases ops.len(),
{
    ops.len() == 0 || {
        &&& ops_chained(ops.drop_last())
        &&& op_shaped(ops.last())
        &&& ops.last().1 == ops_end(ops.drop_last()).0
        &&& ops.last().3 == ops_end(ops.drop_last()).1
    }
}

/// difflib's `SequenceMatcher::new` on the two texts' bytes, then
/// `get_opcodes`.  Its result is named `diff_opcodes` of the two texts: the
/// matching algorithm is not stated.  What is stated is the shape of the
/// result that `get_opcodes` builds from the matching blocks: the steps
/// cover the bytes of both texts in order, from the starts to the ends, each
/// of its kind (see `op_shaped`), and an `equal` step covers equal bytes, so
/// equal text where both of its ranges fall on character boundaries.
#[verifier::external_body]
fn sequence_opcodes(old: &String, new: &String) -> (r: Vec<DiffOp>)
    ensures
        r@.map_values(|o: DiffOp| op_view(o)) == diff_opcodes(old@, new@),
        ops_chained(r@.map_values(|o: DiffOp| op_view(o))),
        ops_end(r@.map_values(|o: DiffOp| op_view(o))) == (utf8_len(old@), utf8_len(new@)),
        forall|i: int|
            0 <= i < r@.len() && r@[i].tag@ == "equal"@ && byte_slice(
                old@,
                r@[i].first_start as int,
                r@[i].first_end as int,
            ) is Some && byte_slice(new@, r@[i].second_start as int, r@[i].second_end as int) is Some
                ==> #[trigger] byte_slice(old@, r@[i].first_start as int, r@[i].first_end as int)
                == byte_slice(new@, r@[i].second_start as int, r@[i].second_end as int),
{
    let mut matcher = difflib::sequencematcher::SequenceMatcher::<u8>::new(old, new);
    matcher.get_opcodes().into_iter().map(|op| DiffOp {
        tag: op.tag,
        first_start: op.first_start,
        first_end: op.first_end,
        second_start: op.second_start,
        second_end: op.second_end,
    }).collect()
}

/// A character of the text starts at byte `b` of its UTF-8 form (or `b` is
/// the text's length in bytes).
pub open spec fn byte_boundary(s: Seq<char>, b: int) -> bool {
    exists|k: int| 0 <= k <= s.len() && #[trigger] utf8_len(s.take(k)) == b
}

/// The characters at bytes `b` to `e` of the text, where both are character
/// boundaries and `b <= e` (what slicing a `str` by bytes gives); `None`
/// where slicing would panic.
pub open spec fn byte_slice(s: Seq<char>, b: int, e: int) -> Option<Seq<char>> {
    if byte_boundary(s, b) && byte_boundary(s, e) && b <= e {
        let kb = choose|k: int| 0 <= k <= s.len() && #[trigger] utf8_len(s.take(k)) == b;
        let ke = choose|k: int| 0 <= k <= s.len() && #[trigger] utf8_len(s.take(k)) == e;
        Some(s.subrange(kb, ke))
    } else {
        None
    }
}

proof fn lemma_utf8_len_strict(s: Seq<char>, j: int, k: int)
    requires
        0 <= j < k <= s.len(),
    ensures
        utf8_len(s.take(j)) < utf8_len(s.take(k)),
    decreases k - j,
{
    assert(s.take(k).drop_last() =~= s.take(k - 1));
    if j < k - 1 {
        lemma_utf8_len_strict(s, j, k - 1);
    }
}

/// The character index at which byte `b` of the text starts, if a character
/// starts there (or `b` is the end).
fn char_index_at(chars: &Vec<char>, b: usize) -> (r: Option<usize>)
    ensures
        match r {
            Some(k) => k <= chars@.len() && utf8_len(chars@.take(k as int)) == b,
            None => !byte_boundary(chars@, b as int),
        },
{
    let n = chars.len();
    let mut k: usize = 0;
    let mut total: u128 = 0;
    assert(chars@.take(0) =~= Seq::<char>::empty());
    loop
        invariant
            n == chars@.len(),
            0 <= k <= n,
            total == utf8_len(chars@.take(k as int)),
            forall|j: int| 0 <= j < k ==> utf8_len(#[trigger] chars@.take(j)) < b,
        decreases n - k,
    {
        if total == b as u128 {
            return Some(k);
        }
        if total > b as u128 || k == n {
            proof {
                assert forall|j: int| 0 <= j <= chars@.len() implies #[trigger] utf8_len(chars@.take(j)) != b by {
                    if j > k {
                        lemma_utf8_len_strict(chars@, k as int, j);
                    }
                };
            }
            return None;
        }
        assert(chars@.take(k + 1).drop_last() =~= chars@.take(k as int));
        total = total + utf8_width_exec(chars[k]) as u128;
        k = k + 1;
    }
}

/// The characters at bytes `b` to `e` of the text (see `byte_slice`).
fn slice_bytes(chars: &Vec<char>, b: usize, e: usize) -> (r: Option<Vec<char>>)
    ensures
        match r {
            Some(v) => byte_slice(chars@, b as int, e as int) == Some(v@),
            None => byte_slice(chars@, b as int, e as int) is None,
        },
{
    let kb = char_index_at(chars, b);
    let ke = char_index_at(chars, e);
    match (kb, ke) {
        (Some(x), Some(y)) => {
            if b <= e {
                proof {
                    let cb = choose|k: int| 0 <= k <= chars@.len() && #[trigger] utf8_len(chars@.take(k)) == b;
                    let ce = choose|k: int| 0 <= k <= chars@.len() && #[trigger] utf8_len(chars@.take(k)) == e;
                    if cb < x {
                        lemma_utf8_len_strict(chars@, cb, x as int);
                    } else if cb > x {
                        lemma_utf8_len_strict(chars@, x as int, cb);
                    }
                    if ce < y {
                        lemma_utf8_len_strict(chars@, ce, y as int);
                    } else if ce > y {
                        lemma_utf8_len_strict(chars@, y as int, ce);
                    }
                    if x > y {
                        lemma_utf8_len_strict(chars@, y as int, x as int);
                    }
                }
                Some(copy_range(chars, x, y))
            } else {
                None
            }
        },
        _ => None,
    }
}

/// How one step of a diff is shown: equal text as it is, deleted text as
/// `-<old>`, inserted text as `+<new>`, replaced text as `<old -> new>`, and
/// a step of any other tag not at all.
pub open spec fn op_piece(tag: Seq<char>, old_slice: Seq<char>, new_slice: Seq<char>) -> Seq<char> {
    if tag == "equal"@ {
        old_slice
    } else if tag == "delete"@ {
        "-<"@ + old_slice + ">"@
    } else if tag == "insert"@ {
        "+<"@ + new_slice + ">"@
    } else if tag == "replace"@ {
        "<"@ + old_slice + " -> "@ + new_slice + ">"@
    } else {
        Seq::empty()
    }
}

/// The steps shown one after the other (see `op_piece`), or `None` where a
/// step's byte range does not fall on character boundaries.
pub open spec fn rendered_ops(old: Seq<char>, new: Seq<char>, ops: Seq<(Seq<char>, int, int, int, int)>) -> Option<Seq<char>>
    decreases ops.len(),
{
    if ops.len() == 0 {
        Some(Seq::empty())
    } else {
        match rendered_ops(old, new, ops.drop_last()) {
            Some(prev) => {
                let op = ops.last();
                match (byte_slice(old, op.1, op.2), byte_slice(new, op.3, op.4)) {
                    (Some(a), Some(b)) => Some(prev + op_piece(op.0, a, b)),
                    _ => None,
                }
            },
            None => None,
        }
    }
}

/// The difference of two texts as a single line (see `rendered_ops`), or
/// `None` where difflib's steps do not fall on character boundaries.
pub open spec fn text_diff(old: Seq<char>, new: Seq<char>) -> Option<Seq<char>> {
    rendered_ops(old, new, diff_opcodes(old, new))
}

/// The given diff steps shown one after the other (see `rendered_ops`).
fn render_ops(old_string: &String, new_string: &String, opcodes: &Vec<DiffOp>) -> (r: Option<String>)
    ensures
        match r {
            Some(s) => rendered_ops(old_string@, new_string@, opcodes@.map_values(|o: DiffOp| op_view(o))) == Some(s@),
            None => rendered_ops(old_string@, new_string@, opcodes@.map_values(|o: DiffOp| op_view(o))) is None,
        },
{
    let ghost ops = opcodes@.map_values(|o: DiffOp| op_view(o));
    let old_chars = str_chars(old_string.as_str());
    let new_chars = str_chars(new_string.as_str());
    let equal = String::from_str("equal");
    let delete = String::from_str("delete");
    let insert = String::from_str("insert");
    let replace = String::from_str("replace");
    let mut final_line = String::new();
    let n = opcodes.len();
    let mut i: usize = 0;
    assert(ops.take(0) =~= Seq::<(Seq<char>, int, int, int, int)>::empty());
    while i < n
        invariant
            n == opcodes@.len(),
            ops == opcodes@.map_values(|o: DiffOp| op_view(o)),
            old_chars@ == old_string@,
            new_chars@ == new_string@,
            equal@ == "equal"@,
            delete@ == "delete"@,
            insert@ == "insert"@,
            replace@ == "replace"@,
            0 <= i <= n,
            rendered_ops(old_string@, new_string@, ops.take(i as int)) == Some(final_line@),
        decreases n - i,
    {
        let op = &opcodes[i];
        assert(ops.take(i + 1).drop_last() =~= ops.take(i as int));
        assert(ops.take(i + 1).last() == op_view(*op));
        let old_slice = slice_bytes(&old_chars, op.first_start, op.first_end);
        let new_slice = slice_bytes(&new_chars, op.second_start, op.second_end);
        match (old_slice, new_slice) {
            (Some(a), Some(b)) => {
                let a_text = chars_string(&a);
                let b_text = chars_string(&b);
                if op.tag == equal {
                    final_line.append(a_text.as_str());
                } else if op.tag == delete {
                    final_line.append("-<");
                    final_line.append(a_text.as_str());
                    final_line.append(">");
                } else if op.tag == insert {
                    final_line.append("+<");
                    final_line.append(b_text.as_str());
                    final_line.append(">");
                } else if op.tag == replace {
                    final_line.append("<");
                    final_line.append(a_text.as_str());
                    final_line.append(" -> ");
                    final_line.append(b_text.as_str());
                    final_line.append(">");
                }
            },
            _ => {
                proof {
                    lemma_rendered_none_stays(old_string@, new_string@, ops, i as int + 1);
                }
                return None;
            },
        }
        i = i + 1;
    }
    assert(ops.take(n as int) =~= ops);
    Some(final_line)
}

/// Once a step cannot be shown, no longer list of steps can be.
proof fn lemma_rendered_none_stays(old: Seq<char>, new: Seq<char>, ops: Seq<(Seq<char>, int, int, int, int)>, k: int)
    requires
        0 <= k <= ops.len(),
        rendered_ops(old, new, ops.take(k)) is None,
    ensures
        rendered_ops(old, new, ops) is None,
    decreases ops.len() - k,
{
    if k < ops.len() {
        assert(ops.take(k + 1).drop_last() =~= ops.take(k));
        lemma_rendered_none_stays(old, new, ops, k + 1);
    } else {
        assert(ops.take(k) =~= ops);
    }
}

/// What a shown step keeps of the old text: the text of an `equal`,
/// `delete` or `replace` step.
pub open spec fn old_shown(tag: Seq<char>, old_slice: Seq<char>) -> Seq<char> {
    if tag == "insert"@ {
        Seq::empty()
    } else {
        old_slice
    }
}

/// What a shown step gives of the new text: the text shown for an `equal`
/// step, and the new text of an `insert` or `replace` step.
pub open spec fn new_shown(tag: Seq<char>, old_slice: Seq<char>, new_slice: Seq<char>) -> Seq<char> {
    if tag == "equal"@ {
        old_slice
    } else if tag == "delete"@ {
        Seq::empty()
    } else {
        new_slice
    }
}

/// The old and the new text as the shown steps give them back (see
/// `old_shown` and `new_shown`), or `None` where a step cannot be shown.
pub open spec fn shown_texts(old: Seq<char>, new: Seq<char>, ops: Seq<(Seq<char>, int, int, int, int)>) -> Option<
    (Seq<char>, Seq<char>),
>
    decreases ops.len(),
{
    if ops.len() == 0 {
        Some((Seq::empty(), Seq::empty()))
    } else {
        match shown_texts(old, new, ops.drop_last()) {
            Some((p, q)) => {
                let op = ops.last();
                match (byte_slice(old, op.1, op.2), byte_slice(new, op.3, op.4)) {
                    (Some(a), Some(b)) => Some((p + old_shown(op.0, a), q + new_shown(op.0, a, b))),
                    _ => None,
                }
            },
            None => None,
        }
    }
}

proof fn lemma_byte_index_unique(s: Seq<char>, j: int, k: int)
    requires
        0 <= j <= s.len(),
        0 <= k <= s.len(),
        utf8_len(s.take(j)) == utf8_len(s.take(k)),
    ensures
        j == k,
{
    if j < k {
        lemma_utf8_len_strict(s, j, k);
    } else if k < j {
        lemma_utf8_len_strict(s, k, j);
    }
}

/// The characters between two character boundaries.
proof fn lemma_byte_slice_at(s: Seq<char>, j: int, k: int)
    requires
        0 <= j <= k <= s.len(),
    ensures
        byte_slice(s, utf8_len(s.take(j)), utf8_len(s.take(k))) == Some(s.subrange(j, k)),
{
    let b = utf8_len(s.take(j));
    let e = utf8_len(s.take(k));
    assert(byte_boundary(s, b));
    assert(byte_boundary(s, e));
    if j < k {
        lemma_utf8_len_strict(s, j, k);
    }
    let kb = choose|x: int| 0 <= x <= s.len() && #[trigger] utf8_len(s.take(x)) == b;
    let ke = choose|x: int| 0 <= x <= s.len() && #[trigger] utf8_len(s.take(x)) == e;
    lemma_byte_index_unique(s, kb, j);
    lemma_byte_index_unique(s, ke, k);
}

/// An empty byte range holds no characters.
proof fn lemma_byte_slice_empty(s: Seq<char>, b: int)
    requires
        byte_slice(s, b, b) is Some,
    ensures
        byte_slice(s, b, b) == Some(Seq::<char>::empty()),
{
    assert(byte_boundary(s, b));
    let k = choose|k: int| 0 <= k <= s.len() && #[trigger] utf8_len(s.take(k)) == b;
    lemma_byte_slice_at(s, k, k);
    assert(s.subrange(k, k) =~= Seq::<char>::empty());
}

/// Two adjacent byte slices make the slice over both.
proof fn lemma_byte_slice_concat(s: Seq<char>, x: int, y: int, z: int)
    requires
        byte_slice(s, x, y) is Some,
        byte_slice(s, y, z) is Some,
    ensures
        byte_slice(s, x, z) == Some(byte_slice(s, x, y).unwrap() + byte_slice(s, y, z).unwrap()),
{
    let kx = choose|k: int| 0 <= k <= s.len() && #[trigger] utf8_len(s.take(k)) == x;
    let ky = choose|k: int| 0 <= k <= s.len() && #[trigger] utf8_len(s.take(k)) == y;
    let kz = choose|k: int| 0 <= k <= s.len() && #[trigger] utf8_len(s.take(k)) == z;
    if kx > ky {
        lemma_utf8_len_strict(s, ky, kx);
    }
    if ky > kz {
        lemma_utf8_len_strict(s, kz, ky);
    }
    lemma_byte_slice_at(s, kx, ky);
    lemma_byte_slice_at(s, ky, kz);
    lemma_byte_slice_at(s, kx, kz);
    assert(s.subrange(kx, ky) + s.subrange(ky, kz) =~= s.subrange(kx, kz));
}

/// The shown steps give back the bytes of both texts up to where they end.
proof fn lemma_shown_texts(old: Seq<char>, new: Seq<char>, ops: Seq<(Seq<char>, int, int, int, int)>)
    requires
        ops_chained(ops),
        rendered_ops(old, new, ops) is Some,
        forall|i: int|
            0 <= i < ops.len() && ops[i].0 == "equal"@ && byte_slice(old, ops[i].1, ops[i].2) is Some
                && byte_slice(new, ops[i].3, ops[i].4) is Some ==> #[trigger] byte_slice(
                old,
                ops[i].1,
                ops[i].2,
            ) == byte_slice(new, ops[i].3, ops[i].4),
    ensures
        byte_slice(old, 0, ops_end(ops).0) is Some,
        byte_slice(new, 0, ops_end(ops).1) is Some,
        shown_texts(old, new, ops) == Some(
            (byte_slice(old, 0, ops_end(ops).0).unwrap(), byte_slice(new, 0, ops_end(ops).1).unwrap()),
        ),
    decreases ops.len(),
{
    if ops.len() == 0 {
        lemma_byte_slice_at(old, 0, 0);
        lemma_byte_slice_at(new, 0, 0);
        assert(old.take(0).len() == 0);
        assert(new.take(0).len() == 0);
        assert(old.subrange(0, 0) =~= Seq::<char>::empty());
        assert(new.subrange(0, 0) =~= Seq::<char>::empty());
        assert(byte_slice(old, 0, 0) == Some(Seq::<char>::empty()));
        assert(byte_slice(new, 0, 0) == Some(Seq::<char>::empty()));
    } else {
        reveal_strlit("equal");
        reveal_strlit("delete");
        reveal_strlit("insert");
        reveal_strlit("replace");
        assert("equal"@.len() == 5 && "insert"@.len() == 6 && "delete"@.len() == 6 && "replace"@.len() == 7);
        assert("delete"@[0] != "insert"@[0]);
        let prev = ops.drop_last();
        let op = ops.last();
        assert forall|i: int|
            0 <= i < prev.len() && prev[i].0 == "equal"@ && byte_slice(old, prev[i].1, prev[i].2) is Some
                && byte_slice(new, prev[i].3, prev[i].4) is Some implies #[trigger] byte_slice(
            old,
            prev[i].1,
            prev[i].2,
        ) == byte_slice(new, prev[i].3, prev[i].4) by {
            assert(prev[i] == ops[i]);
        }
        lemma_shown_texts(old, new, prev);
        let e = ops_end(prev);
        let a = byte_slice(old, op.1, op.2).unwrap();
        let b = byte_slice(new, op.3, op.4).unwrap();
        assert(op_shaped(op));
        assert(op.1 == e.0 && op.3 == e.1);
        assert(rendered_ops(old, new, prev) is Some);
        assert(byte_slice(old, op.1, op.2) is Some);
        assert(byte_slice(new, op.3, op.4) is Some);
        lemma_byte_slice_concat(old, 0, e.0, op.2);
        lemma_byte_slice_concat(new, 0, e.1, op.4);
        if op.0 == "equal"@ {
            assert(ops[ops.len() - 1] == op);
        }
        let p = byte_slice(old, 0, e.0).unwrap();
        let q = byte_slice(new, 0, e.1).unwrap();
        assert(p + Seq::<char>::empty() =~= p);
        assert(q + Seq::<char>::empty() =~= q);
        assert(shown_texts(old, new, ops) == Some((p + old_shown(op.0, a), q + new_shown(op.0, a, b))));
        assert(byte_slice(old, 0, op.2) == Some(p + a));
        assert(byte_slice(new, 0, op.4) == Some(q + b));
        if op.0 == "insert"@ {
            assert(op.1 == op.2);
            lemma_byte_slice_empty(old, op.1);
            assert(a == Seq::<char>::empty());
            assert(p + a =~= p);
            assert(old_shown(op.0, a) == Seq::<char>::empty());
        } else {
            assert(old_shown(op.0, a) == a);
        }
        if op.0 == "equal"@ {
            let last = ops.len() - 1;
            assert(ops[last] == op);
            assert(byte_slice(old, ops[last].1, ops[last].2) == byte_slice(new, ops[last].3, ops[last].4));
            assert(new_shown(op.0, a, b) == b);
        } else if op.0 == "delete"@ {
            assert(op.3 == op.4);
            lemma_byte_slice_empty(new, op.3);
            assert(b == Seq::<char>::empty());
            assert(q + b =~= q);
            assert(new_shown(op.0, a, b) == Seq::<char>::empty());
        } else {
            assert(new_shown(op.0, a, b) == b);
        }
        assert(p + old_shown(op.0, a) == byte_slice(old, 0, op.2).unwrap());
        assert(q + new_shown(op.0, a, b) == byte_slice(new, 0, op.4).unwrap());
    }
}

/// The difference of two texts as a single line (see `text_diff`); difflib's
/// steps must fall on character boundaries.  The line gives back both texts:
/// its equal, deleted and replaced parts make the old text, and its equal,
/// inserted and replacing parts the new one (see `shown_texts`).
pub fn difflib_calc(old_string: &String, new_string: &String) -> (r: String)
    requires
        text_diff(old_string@, new_string@) is Some,
    ensures
        text_diff(old_string@, new_string@) == Some(r@),
        shown_texts(old_string@, new_string@, diff_opcodes(old_string@, new_string@)) == Some(
            (old_string@, new_string@),
        ),
{
    let opcodes = sequence_opcodes(old_string, new_string);
    proof {
        let ops = diff_opcodes(old_string@, new_string@);
        assert forall|i: int|
            0 <= i < ops.len() && ops[i].0 == "equal"@ && byte_slice(old_string@, ops[i].1, ops[i].2)
                is Some && byte_slice(new_string@, ops[i].3, ops[i].4) is Some implies #[trigger] byte_slice(
            old_string@,
            ops[i].1,
            ops[i].2,
        ) == byte_slice(new_string@, ops[i].3, ops[i].4) by {
            assert(ops[i] == op_view(opcodes@[i]));
        }
        lemma_shown_texts(old_string@, new_string@, ops);
        lemma_byte_slice_at(old_string@, 0, old_string@.len() as int);
        lemma_byte_slice_at(new_string@, 0, new_string@.len() as int);
        assert(old_string@.take(0).len() == 0);
        assert(new_string@.take(0).len() == 0);
        assert(old_string@.take(old_string@.len() as int) =~= old_string@);
        assert(new_string@.take(new_string@.len() as int) =~= new_string@);
        assert(old_string@.subrange(0, old_string@.len() as int) =~= old_string@);
        assert(new_string@.subrange(0, new_string@.len() as int) =~= new_string@);
    }
    match render_ops(old_string, new_string, &opcodes) {
        Some(s) => s,
        None => String::new(),
    }
}

/// The difference of two texts as a single line (see `text_diff`), or `None`
/// where difflib's steps split a character.
pub fn try_difflib_calc(old_string: &String, new_string: &String) -> (r: Option<String>)
    ensures
        match r {
            Some(s) => text_diff(old_string@, new_string@) == Some(s@),
            None => text_diff(old_string@, new_string@) is None,
        },
{
    let opcodes = sequence_opcodes(old_string, new_string);
    if render_ops(old_string, new_string, &opcodes).is_some() {
        Some(difflib_calc(old_string, new_string))
    } else {
        None
    }
}

/// One difference between a saved item and its new form, with the values
/// written out as JSON: an added or removed value (compact), or the old and
/// new forms (pretty-printed) of a modified value or of one whose type
/// changed.
pub enum DiffEntry {
    Added { location: String, value: String },
    Removed { location: String, value: String },
    Modified { location: String, old: String, new: String },
    TypeChanged { location: String, old: String, new: String },
}

/// A difference can be shown: the steps of a modification fall on character
/// boundaries (see `text_diff`).
pub open spec fn entry_renderable(d: DiffEntry) -> bool {
    match d {
        DiffEntry::Modified { old, new, .. } => text_diff(old@, new@) is Some,
        DiffEntry::TypeChanged { old, new, .. } => text_diff(old@, new@) is Some,
        _ => true,
    }
}

/// A difference as its location and a line: `+ value`, `- value`, or `~` (a
/// modification) or `#` (a change of type) then the two forms' difference
/// (see `text_diff`).
pub open spec fn entry_line(d: DiffEntry) -> (Seq<char>, Seq<char>) {
    match d {
        DiffEntry::Added { location, value } => (location@, "+ "@ + value@),
        DiffEntry::Removed { location, value } => (location@, "- "@ + value@),
        DiffEntry::Modified { location, old, new } => (location@, "~ "@ + text_diff(old@, new@).unwrap()),
        DiffEntry::TypeChanged { location, old, new } => (location@, "# "@ + text_diff(old@, new@).unwrap()),
    }
}

/// A difference as its location and a line (see `entry_line`).
pub fn format_for_difflib(diff: &DiffEntry) -> (r: (String, String))
    requires
        entry_renderable(*diff),
    ensures
        (r.0@, r.1@) == entry_line(*diff),
{
    match diff {
        DiffEntry::Added { location, value } => (location.clone(), String::from_str("+ ").concat(value.as_str())),
        DiffEntry::Removed { location, value } => (location.clone(), String::from_str("- ").concat(value.as_str())),
        DiffEntry::Modified { location, old, new } => {
            let d = difflib_calc(old, new);
            (location.clone(), String::from_str("~ ").concat(d.as_str()))
        },
        DiffEntry::TypeChanged { location, old, new } => {
            let d = difflib_calc(old, new);
            (location.clone(), String::from_str("# ").concat(d.as_str()))
        },
    }
}

/// Whether a difference can be shown (see `entry_renderable`).
fn renderable(diff: &DiffEntry) -> (r: bool)
    ensures
        r == entry_renderable(*diff),
{
    match diff {
        DiffEntry::Modified { old, new, .. } => try_difflib_calc(old, new).is_some(),
        DiffEntry::TypeChanged { old, new, .. } => try_difflib_calc(old, new).is_some(),
        _ => true,
    }
}

/// The differences by location, a later one replacing an earlier one at the
/// same location.
pub open spec fn diff_lines(d: Seq<DiffEntry>) -> Map<Seq<char>, Seq<char>>
    decreases d.len(),
{
    if d.len() == 0 {
        Map::empty()
    } else {
        let (k, v) = entry_line(d.last());
        diff_lines(d.drop_last()).insert(k, v)
    }
}

/// The differences by location (see `diff_lines`); each must be showable.
pub fn collect_diffs(diffs: &Vec<DiffEntry>) -> (r: KeyMap<String>)
    requires
        forall|i: int| 0 <= i < diffs@.len() ==> entry_renderable(#[trigger] diffs@[i]),
    ensures
        keys_ascending(r@),
        string_map(key_map(r@)) == diff_lines(diffs@),
{
    let mut out: KeyMap<String> = Vec::new();
    let n = diffs.len();
    let mut i: usize = 0;
    assert(diffs@.take(0) =~= Seq::<DiffEntry>::empty());
    assert(string_map(key_map(out@)) =~= Map::<Seq<char>, Seq<char>>::empty());
    while i < n
        invariant
            n == diffs@.len(),
            0 <= i <= n,
            forall|j: int| 0 <= j < diffs@.len() ==> entry_renderable(#[trigger] diffs@[j]),
            keys_ascending(out@),
            string_map(key_map(out@)) == diff_lines(diffs@.take(i as int)),
        decreases n - i,
    {
        assert(diffs@.take(i + 1).drop_last() =~= diffs@.take(i as int));
        assert(diffs@.take(i + 1).last() == diffs@[i as int]);
        let (key, val) = format_for_difflib(&diffs[i]);
        let ghost before = string_map(key_map(out@));
        key_map_insert(&mut out, key, val);
        assert(string_map(key_map(out@)) =~= before.insert(key@, val@));
        i = i + 1;
    }
    assert(diffs@.take(n as int) =~= diffs@);
    out
}

/// The differences by location (see `diff_lines`), or `None` where one of
/// them cannot be shown.
pub fn try_collect_diffs(diffs: &Vec<DiffEntry>) -> (r: Option<KeyMap<String>>)
    ensures
        match r {
            Some(m) => keys_ascending(m@) && string_map(key_map(m@)) == diff_lines(diffs@),
            None => exists|i: int| 0 <= i < diffs@.len() && !entry_renderable(#[trigger] diffs@[i]),
        },
{
    let n = diffs.len();
    let mut i: usize = 0;
    while i < n
        invariant
            n == diffs@.len(),
            0 <= i <= n,
            forall|j: int| 0 <= j < i ==> entry_renderable(#[trigger] diffs@[j]),
        decreases n - i,
    {
        if !renderable(&diffs[i]) {
            return None;
        }
        i = i + 1;
    }
    Some(collect_diffs(diffs))
}

/// The file name without a final `.json`.
pub open spec fn without_json(name: Seq<char>) -> Seq<char> {
    if name.len() >= 5 && name.subrange(name.len() - 5, name.len() as int) == ".json"@ {
        name.subrange(0, name.len() - 5)
    } else {
        name
    }
}

/// The file name without a final `.json` (see `without_json`).
pub fn strip_json_suffix(name: &str) -> (r: String)
    ensures
        r@ == without_json(name@),
{
    let v = str_chars(name);
    let suffix = str_chars(".json");
    proof {
        reveal_strlit(".json");
    }
    if v.len() >= 5 && crate::chars::matches_at(&v, v.len() - 5, &suffix) {
        chars_string(&copy_range(&v, 0, v.len() - 5))
    } else {
        String::from_str(name)
    }
}

/// The name under which the differences of an item are saved: the item's
/// name and the date, then ` (n)` where `counter` is `n > 0`.
pub open spec fn diff_file_name_of(name: Seq<char>, date: Seq<char>, counter: nat) -> Seq<char> {
    if counter == 0 {
        name + " "@ + date
    } else {
        name + " "@ + date + " ("@ + decimal(counter) + ")"@
    }
}

/// The name under which the differences of an item are saved (see
/// `diff_file_name_of`).
pub fn diff_file_name(name: &str, date: &str, counter: u64) -> (r: String)
    ensures
        r@ == diff_file_name_of(name@, date@, counter as nat),
{
    let base = String::from_str(name).concat(" ").concat(date);
    if counter == 0 {
        base
    } else {
        base.concat(" (").concat(decimal_string(counter).as_str()).concat(")")
    }
}

/// The path of a JSON file in a folder: `folder/file.json`.
pub fn json_path(folder: &str, file_name: &str) -> (r: String)
    ensures
        r@ == folder@ + "/"@ + file_name@ + ".json"@,
{
    String::from_str(folder).concat("/").concat(file_name).concat(".json")
}

/// A numbered file path: `stem.json` for the first file of a kind, then
/// `stem (n).json` for the `n`-th one after it.
pub open spec fn numbered_path(stem: Seq<char>, counter: nat) -> Seq<char> {
    if counter == 0 {
        stem + ".json"@
    } else {
        stem + " ("@ + decimal(counter) + ")"@ + ".json"@
    }
}

/// The numbered path of `stem` (see `numbered_path`).
pub fn numbered_json_path(stem: &str, counter: u64) -> (r: String)
    ensures
        r@ == numbered_path(stem@, counter as nat),
{
    if counter == 0 {
        String::from_str(stem).concat(".json")
    } else {
        String::from_str(stem).concat(" (").concat(decimal_string(counter).as_str()).concat(
            ")",
        ).concat(".json")
    }
}

/// Distinct numbers give distinct paths.
proof fn lemma_numbered_path_injective(stem: Seq<char>, a: nat, b: nat)
    requires
        numbered_path(stem, a) == numbered_path(stem, b),
    ensures
        a == b,
{
    reveal_strlit(" (");
    reveal_strlit(")");
    reveal_strlit(".json");
    if a != 0 && b != 0 {
        let pa = numbered_path(stem, a);
        let pb = numbered_path(stem, b);
        let da = decimal(a);
        let db = decimal(b);
        assert(pa.len() == stem.len() + 2 + da.len() + 6);
        assert(pb.len() == stem.len() + 2 + db.len() + 6);
        let from: int = stem.len() as int + 2;
        assert(pa.subrange(from, from + da.len()) =~= da);
        assert(pb.subrange(from, from + db.len()) =~= db);
        lemma_decimal_injective(a, b);
    } else if a != 0 || b != 0 {
        let n = if a != 0 {
            a
        } else {
            b
        };
        assert(numbered_path(stem, n).len() == stem.len() + 2 + decimal(n).len() + 6);
        assert(numbered_path(stem, 0).len() == stem.len() + 5);
    }
}

/// `p` is one of the paths in `existing`.
pub open spec fn path_taken(existing: Seq<String>, p: Seq<char>) -> bool {
    exists|i: int| 0 <= i < existing.len() && #[trigger] existing[i]@ == p
}

/// No more numbered paths of one stem can be taken than there are paths.
proof fn lemma_taken_paths_bound(existing: Seq<String>, stem: Seq<char>, n: nat)
    requires
        forall|c: nat| c < n ==> path_taken(existing, #[trigger] numbered_path(stem, c)),
    ensures
        n <= existing.len(),
{
    broadcast use vstd::seq_lib::seq_to_set_is_finite;
    let e = existing.map_values(|s: String| s@);
    let x = vstd::set_lib::set_int_range(0, n as int);
    let f = |i: int| numbered_path(stem, i as nat);
    vstd::set_lib::lemma_int_range(0, n as int);
    assert(vstd::relations::injective_on(f, x)) by {
        assert forall|i: int, j: int|
            x.contains(i) && x.contains(j) && #[trigger] f(i) == #[trigger] f(j) implies i == j by {
            lemma_numbered_path_injective(stem, i as nat, j as nat);
        }
    }
    let y = x.map(f);
    vstd::set_lib::lemma_map_size(x, y, f);
    assert(y.subset_of(e.to_set())) by {
        assert forall|p: Seq<char>| y.contains(p) implies e.to_set().contains(p) by {
            let i = choose|i: int| x.contains(i) && f(i) == p;
            assert(path_taken(existing, numbered_path(stem, i as nat)));
            let k = choose|k: int| 0 <= k < existing.len() && #[trigger] existing[k]@ == p;
            assert(e[k] == p);
        }
    }
    e.lemma_cardinality_of_set();
    vstd::set_lib::lemma_len_subset(y, e.to_set());
}

/// Whether `p` is one of the paths in `existing`.
pub fn is_taken(existing: &Vec<String>, p: &String) -> (r: bool)
    ensures
        r == path_taken(existing@, p@),
{
    let mut i: usize = 0;
    while i < existing.len()
        invariant
            0 <= i <= existing@.len(),
            forall|k: int| 0 <= k < i ==> existing@[k]@ != p@,
        decreases existing.len() - i,
    {
        if existing[i] == *p {
            assert(existing@[i as int]@ == p@);
            return true;
        }
        i = i + 1;
    }
    false
}

/// The first numbered path of `stem` (see `numbered_path`) that is not among
/// `existing`, and its number: every path with a smaller number is taken.
pub fn first_free_path(stem: &str, existing: &Vec<String>) -> (r: (String, u64))
    ensures
        r.0@ == numbered_path(stem@, r.1 as nat),
        !path_taken(existing@, r.0@),
        forall|c: nat| c < r.1 ==> path_taken(existing@, #[trigger] numbered_path(stem@, c)),
        r.1 <= existing@.len(),
{
    let n = existing.len();
    let mut counter: u64 = 0;
    let mut path = numbered_json_path(stem, 0);
    while is_taken(existing, &path)
        invariant
            n == existing@.len(),
            path@ == numbered_path(stem@, counter as nat),
            forall|c: nat| c < counter ==> path_taken(existing@, #[trigger] numbered_path(stem@, c)),
            counter <= existing@.len(),
        decreases existing@.len() - counter,
    {
        proof {
            assert forall|c: nat| c < counter + 1 implies path_taken(
                existing@,
                #[trigger] numbered_path(stem@, c),
            ) by {
                if c == counter {
                    assert(path_taken(existing@, path@));
                }
            }
            lemma_taken_paths_bound(existing@, stem@, (counter + 1) as nat);
            assert(n as int <= usize::MAX);
        }
        counter = counter + 1;
        path = numbered_json_path(stem, counter);
    }
    (path, counter)
}

/// The folder of an item type's differences: `changes/` and the type.
pub open spec fn diff_folder_of(category: Seq<char>) -> Seq<char> {
    "changes/"@ + category
}

/// The folder of an item type's differences (see `diff_folder_of`).
pub fn diff_folder(category: &str) -> (r: String)
    ensures
        r@ == diff_folder_of(category@),
{
    String::from_str("changes/").concat(category)
}

/// The path under which the differences of an item are saved:
/// `changes/{item type}/{name} {date}.json`, or with ` (n)` after the date
/// for the `n`-th later file of the day.
pub open spec fn item_diff_path_of(category: Seq<char>, name: Seq<char>, date: Seq<char>, counter: nat) -> Seq<char> {
    diff_folder_of(category) + "/"@ + diff_file_name_of(name, date, counter) + ".json"@
}

/// The first free path for an item's differences (see `item_diff_path_of`)
/// among the `existing` paths, and its number.
pub fn item_diff_path(category: &str, name: &str, date: &str, existing: &Vec<String>) -> (r: (
    String,
    u64,
))
    ensures
        r.0@ == item_diff_path_of(category@, name@, date@, r.1 as nat),
        !path_taken(existing@, r.0@),
        forall|c: nat|
            c < r.1 ==> path_taken(existing@, #[trigger] item_diff_path_of(category@, name@, date@, c)),
{
    let stem = diff_folder(category).concat("/").concat(name).concat(" ").concat(date);
    let r = first_free_path(stem.as_str(), existing);
    proof {
        assert forall|c: nat| #[trigger] item_diff_path_of(category@, name@, date@, c) == numbered_path(stem@, c) by {
            if c == 0 {
                assert(item_diff_path_of(category@, name@, date@, c) =~= numbered_path(stem@, c));
            } else {
                assert(item_diff_path_of(category@, name@, date@, c) =~= numbered_path(stem@, c));
            }
        }
        assert(item_diff_path_of(category@, name@, date@, r.1 as nat) == numbered_path(stem@, r.1 as nat));
        assert forall|c: nat| c < r.1 implies path_taken(existing@, #[trigger] item_diff_path_of(category@, name@, date@, c)) by {
            assert(item_diff_path_of(category@, name@, date@, c) == numbered_path(stem@, c));
        }
    }
    r
}

/// The path under which a list's differences are saved: in `folder`, the
/// list's name (without `.json`), `_` and the date, with ` (n)` after the
/// date for the `n`-th later file of the day.
pub open spec fn list_diff_path_of(folder: Seq<char>, name: Seq<char>, date: Seq<char>, counter: nat) -> Seq<char> {
    numbered_path(folder + "/"@ + without_json(name) + "_"@ + date, counter)
}

/// The path under which a list's differences are saved (see
/// `list_diff_path_of`).
pub fn list_diff_path(folder: &str, name: &str, date: &str, counter: u64) -> (r: String)
    ensures
        r@ == list_diff_path_of(folder@, name@, date@, counter as nat),
{
    let stem = String::from_str(folder).concat("/").concat(strip_json_suffix(name).as_str()).concat("_").concat(date);
    numbered_json_path(stem.as_str(), counter)
}

/// The first free path for a list's differences (see `list_diff_path_of`)
/// among the `existing` paths, and its number.
pub fn first_free_list_diff_path(folder: &str, name: &str, date: &str, existing: &Vec<String>) -> (r: (
    String,
    u64,
))
    ensures
        r.0@ == list_diff_path_of(folder@, name@, date@, r.1 as nat),
        !path_taken(existing@, r.0@),
        forall|c: nat|
            c < r.1 ==> path_taken(existing@, #[trigger] list_diff_path_of(folder@, name@, date@, c)),
{
    let stem = String::from_str(folder).concat("/").concat(strip_json_suffix(name).as_str()).concat("_").concat(date);
    first_free_path(stem.as_str(), existing)
}

/// The file name of a saved item: its name (see `parsed_name`) and `.json`.
pub fn item_file_name(item: &Parsed) -> (r: String)
    ensures
        r@ == parsed_name(*item) + ".json"@,
{
    item.name().concat(".json")
}

/// The folder of saved items of a category: `results/` and the category.
pub fn results_folder(category: &str) -> (r: String)
    ensures
        r@ == "results/"@ + category@,
{
    String::from_str("results/").concat(category)
}

/// What a save reports for an item that did not change.
pub fn unchanged_message(name: &str) -> (r: String)
    ensures
        r@ == name@ + " unchanged."@,
{
    String::from_str(name).concat(" unchanged.")
}

/// What a save reports for a file written: ` updated.` after its title where
/// it replaced an older form, ` created.` where it is new.
pub fn written_message(title: &str, update: bool) -> (r: String)
    ensures
        r@ == title@ + if update {
            " updated."@
        } else {
            " created."@
        },
{
    if update {
        String::from_str(title).concat(" updated.")
    } else {
        String::from_str(title).concat(" created.")
    }
}

/// Every character is an ASCII digit.
pub open spec fn all_ascii_digits(d: Seq<char>) -> bool {
    forall|i: int| 0 <= i < d.len() ==> is_ascii_digit(#[trigger] d[i])
}

/// The length of a leading sign (`-` or `+`): 1 or 0.
pub open spec fn sign_len(s: Seq<char>) -> int {
    if s.len() > 0 && (s[0] == '-' || s[0] == '+') {
        1
    } else {
        0
    }
}

/// The value of a decimal integer with an optional sign, as `str::parse::<i64>`
/// reads it: `None` where the text is not one, or it does not fit in an `i64`.
pub open spec fn parsed_i64(s: Seq<char>) -> Option<int> {
    let digits = s.skip(sign_len(s));
    if digits.len() == 0 || !all_ascii_digits(digits) {
        None
    } else {
        let v = if s[0] == '-' {
            -digits_value(digits)
        } else {
            digits_value(digits)
        };
        if i64::MIN <= v <= i64::MAX {
            Some(v)
        } else {
            None
        }
    }
}

/// The latest boss's number as the file holds it: its trimmed text read as
/// an `i64` (see `parsed_i64`), or 113080 where it is not one.
pub open spec fn latest_boss_of(contents: Seq<char>) -> int {
    match parsed_i64(trim(contents)) {
        Some(v) => v,
        None => 113080,
    }
}

/// The latest boss's number as the file holds it (see `latest_boss_of`).
pub fn parse_latest_boss(contents: &str) -> (r: i64)
    ensures
        r == latest_boss_of(contents@),
{
    let t = trim_exec(&str_chars(contents));
    match parse_i64(&t) {
        Some(v) => v,
        None => 113080,
    }
}

/// Once a prefix of digits is too large, the whole text either is too large
/// or is no run of digits.
proof fn lemma_prefix_too_big(digits: Seq<char>, m: int, bound: int)
    requires
        0 < m <= digits.len(),
        forall|j: int| 0 <= j < m ==> is_ascii_digit(#[trigger] digits[j]),
        digits_value(digits.take(m)) > bound,
    ensures
        !all_ascii_digits(digits) || digits_value(digits) > bound,
{
    if all_ascii_digits(digits) {
        lemma_digits_value_grows(digits, m);
    }
}

/// Reads a decimal integer with an optional sign (see `parsed_i64`).
fn parse_i64(s: &Vec<char>) -> (r: Option<i64>)
    ensures
        match r {
            Some(v) => parsed_i64(s@) == Some(v as int),
            None => parsed_i64(s@) is None,
        },
{
    let n = s.len();
    if n == 0 {
        return None;
    }
    let neg = s[0] == '-';
    let start: usize = if s[0] == '-' || s[0] == '+' {
        1
    } else {
        0
    };
    let ghost digits = s@.skip(start as int);
    assert(start == sign_len(s@));
    if start == n {
        return None;
    }
    // A negative number is built negative, so that `i64::MIN` fits.
    let mut value: i64 = 0;
    let mut i: usize = start;
    assert(digits.take(0) =~= Seq::<char>::empty());
    while i < n
        invariant
            n == s@.len(),
            0 <= start <= i <= n,
            start < n,
            digits == s@.skip(start as int),
            start == sign_len(s@),
            digits.len() == n - start,
            neg == (s@[0] == '-'),
            neg ==> start == 1,
            forall|j: int| 0 <= j < i - start ==> is_ascii_digit(#[trigger] digits[j]),
            value == (if neg {
                -digits_value(digits.take(i - start))
            } else {
                digits_value(digits.take(i - start))
            }),
        decreases n - i,
    {
        let c = s[i];
        assert(digits[i - start] == c);
        if !('0' <= c && c <= '9') {
            assert(!is_ascii_digit(digits[i - start]));
            assert(!all_ascii_digits(digits));
            return None;
        }
        let d = (c as u32 - '0' as u32) as i64;
        let ghost m = i - start + 1;
        assert(digits.take(m).drop_last() =~= digits.take(m - 1));
        assert(digits.take(m).last() == c);
        let next = if neg {
            match value.checked_mul(10) {
                Some(t) => t.checked_sub(d),
                None => None,
            }
        } else {
            match value.checked_mul(10) {
                Some(t) => t.checked_add(d),
                None => None,
            }
        };
        match next {
            Some(v) => {
                value = v;
            },
            None => {
                proof {
                    lemma_digits_value_nonneg(digits.take(m - 1));
                    if neg {
                        assert(digits_value(digits.take(m)) > 0x8000_0000_0000_0000);
                        lemma_prefix_too_big(digits, m, 0x8000_0000_0000_0000);
                    } else {
                        assert(digits_value(digits.take(m)) > 0x7fff_ffff_ffff_ffff);
                        lemma_prefix_too_big(digits, m, 0x7fff_ffff_ffff_ffff);
                    }
                }
                return None;
            },
        }
        i = i + 1;
    }
    assert(digits.take(n - start) =~= digits);
    Some(value)
}

/// The text without its leading and trailing white space (see `trim`).
pub fn trim_text(s: &str) -> (r: String)
    ensures
        r@ == trim(s@),
{
    chars_string(&trim_exec(&str_chars(s)))
}

/// Taking `.json` off a name that ends in it gives the name back: the name
/// of a saved item's file without `.json` is the item's name.
pub proof fn json_suffix_round_trip(name: Seq<char>)
    ensures
        without_json(name + ".json"@) == name,
{
    reveal_strlit(".json");
    let full = name + ".json"@;
    assert(full.subrange(full.len() - 5, full.len() as int) =~= ".json"@);
    assert(full.subrange(0, full.len() - 5) =~= name);
}

/// What saving an item does.
#[derive(Clone, Copy, Debug, PartialEq, Eq, Structural)]
pub enum SavePlan {
    /// Write the item as a new file.
    Create,
    /// Compare the item with its saved form and update the file if they differ.
    Compare,
    /// Leave the file as it is.
    Keep,
}

/// Two saved items are of the same kind.
pub open spec fn same_kind(a: Parsed, b: Parsed) -> bool {
    match (a, b) {
        (Parsed::C(_), Parsed::C(_)) => true,
        (Parsed::W(_), Parsed::W(_)) => true,
        (Parsed::A(_), Parsed::A(_)) => true,
        (Parsed::T(_), Parsed::T(_)) => true,
        _ => false,
    }
}

/// What saving an item does given what its file holds: write it as new
/// where the file holds no saved item, compare where it holds one of the
/// same kind, and nothing where it holds another kind.
pub fn save_plan(old: &Option<Parsed>, new: &Parsed) -> (r: SavePlan)
    ensures
        r == match *old {
            None => SavePlan::Create,
            Some(o) => if same_kind(o, *new) {
                SavePlan::Compare
            } else {
                SavePlan::Keep
            },
        },
        *old matches Some(o) && ((o is C && *new is C) || (o is W && *new is W) || (o is A && *new is A)
            || (o is T && *new is T)) ==> r == SavePlan::Compare,
        *old matches Some(o) && !((o is C && *new is C) || (o is W && *new is W) || (o is A && *new is A)
            || (o is T && *new is T)) ==> r == SavePlan::Keep,
        *old is None ==> r == SavePlan::Create,
{
    match old {
        None => SavePlan::Create,
        Some(o) => match (o, new) {
            (Parsed::C(_), Parsed::C(_)) => SavePlan::Compare,
            (Parsed::W(_), Parsed::W(_)) => SavePlan::Compare,
            (Parsed::A(_), Parsed::A(_)) => SavePlan::Compare,
            (Parsed::T(_), Parsed::T(_)) => SavePlan::Compare,
            _ => SavePlan::Keep,
        },
    }
}

/// Two saved items are of the same kind exactly when both are characters,
/// both weapons, both artifact sets or both cards: an item saved before with
/// its own kind is always compared, and one saved with another kind never.
pub proof fn items_of_one_kind_are_compared(a: Parsed, b: Parsed)
    ensures
        same_kind(a, b) <==> ((a is C && b is C) || (a is W && b is W) || (a is A && b is A) || (a is T
            && b is T)),
{
}

/// What a comparison with the saved form leads to.
#[derive(Clone, Copy, Debug, PartialEq, Eq, Structural)]
pub enum CompareAction {
    /// Report the item as unchanged.
    Unchanged,
    /// Write the new form and the differences.
    Update,
}

/// An item is unchanged where no difference was found, and updated
/// otherwise.
pub fn compare_action(difference_count: usize) -> (r: CompareAction)
    ensures
        r == (if difference_count == 0 {
            CompareAction::Unchanged
        } else {
            CompareAction::Update
        }),
{
    if difference_count == 0 {
        CompareAction::Unchanged
    } else {
        CompareAction::Update
    }
}

} // verus!
