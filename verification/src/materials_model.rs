//! Totals of weapon materials: the counts and ranks of items merged by
//! name across all ascension phases.
use vstd::prelude::*;
use crate::chars::{seq_less, lemma_seq_less_irreflexive, lemma_seq_less_transitive, lemma_seq_less_total, str_less};
use crate::key_map::KeyMap;
use crate::base_models::weapon::{Item, Materials};

verus! {

/// All items of the entries' material lists, in order.
pub open spec fn all_items(s: Seq<(String, Materials)>) -> Seq<Item>
    decreases s.len(),
{
    if s.len() == 0 {
        Seq::empty()
    } else {
        all_items(s.drop_last()) + s.last().1.mats@
    }
}

/// The sum of the entries' costs.
pub open spec fn total_cost(s: Seq<(String, Materials)>) -> int
    decreases s.len(),
{
    if s.len() == 0 {
        0
    } else {
        total_cost(s.drop_last()) + s.last().1.cost
    }
}

/// The sum of the counts of the items named `name`.
pub open spec fn name_count(items: Seq<Item>, name: Seq<char>) -> int
    decreases items.len(),
{
    if items.len() == 0 {
        0
    } else {
        name_count(items.drop_last(), name) + if items.last().name@ == name {
            items.last().count as int
        } else {
            0
        }
    }
}

/// The highest rank of the items named `name` (0 if there is none).
pub open spec fn name_rank(items: Seq<Item>, name: Seq<char>) -> int
    decreases items.len(),
{
    if items.len() == 0 {
        0
    } else {
        let r = name_rank(items.drop_last(), name);
        if items.last().name@ == name && items.last().rank > r {
            items.last().rank as int
        } else {
            r
        }
    }
}

/// Some item is named `name`.
pub open spec fn has_name(items: Seq<Item>, name: Seq<char>) -> bool {
    exists|i: int| 0 <= i < items.len() && #[trigger] items[i].name@ == name
}

/// `a` comes before `b`: lower rank first, equal ranks by name.
pub open spec fn item_less(a: Item, b: Item) -> bool {
    a.rank < b.rank || (a.rank == b.rank && seq_less(a.name@, b.name@))
}

/// Each item of `out` is the total for its name over `items`: its count is the
/// sum and its rank the highest; every name of `items` has an item in `out`,
/// and no name has two.
pub open spec fn totals_of(out: Seq<Item>, items: Seq<Item>) -> bool {
    &&& forall|i: int, j: int| 0 <= i < j < out.len() ==> out[i].name@ != out[j].name@
    &&& forall|i: int|
        0 <= i < out.len() ==> {
            &&& has_name(items, #[trigger] out[i].name@)
            &&& out[i].count == name_count(items, out[i].name@)
            &&& out[i].rank == name_rank(items, out[i].name@)
        }
    &&& forall|n: Seq<char>|
        has_name(items, n) ==> exists|i: int| 0 <= i < out.len() && #[trigger] out[i].name@ == n
}

pub proof fn lemma_name_count_append(p: Seq<Item>, q: Seq<Item>, n: Seq<char>)
    ensures
        name_count(p + q, n) == name_count(p, n) + name_count(q, n),
    decreases q.len(),
{
    if q.len() > 0 {
        assert((p + q).drop_last() =~= p + q.drop_last());
        lemma_name_count_append(p, q.drop_last(), n);
    } else {
        assert(p + q =~= p);
    }
}

pub proof fn lemma_name_count_nonneg(p: Seq<Item>, n: Seq<char>)
    ensures
        name_count(p, n) >= 0,
    decreases p.len(),
{
    if p.len() > 0 {
        lemma_name_count_nonneg(p.drop_last(), n);
    }
}

/// Counting over the first `i` entries gives no more than over all.
pub proof fn lemma_prefix_totals(s: Seq<(String, Materials)>, i: int, n: Seq<char>)
    requires
        0 <= i <= s.len(),
    ensures
        name_count(all_items(s.take(i)), n) <= name_count(all_items(s), n),
        total_cost(s.take(i)) <= total_cost(s),
    decreases s.len() - i,
{
    if i < s.len() {
        lemma_prefix_totals(s, i + 1, n);
        assert(s.take(i + 1).drop_last() =~= s.take(i));
        lemma_name_count_append(all_items(s.take(i)), s[i].1.mats@, n);
        lemma_name_count_nonneg(s[i].1.mats@, n);
    } else {
        assert(s.take(i) =~= s);
    }
}

pub proof fn lemma_item_less_transitive(a: Item, b: Item, c: Item)
    requires
        item_less(a, b),
        item_less(b, c),
    ensures
        item_less(a, c),
{
    if a.rank == b.rank && b.rank == c.rank {
        lemma_seq_less_transitive(a.name@, b.name@, c.name@);
    }
}

pub proof fn lemma_item_less_total(a: Item, b: Item)
    ensures
        a.name@ != b.name@ ==> (item_less(a, b) || item_less(b, a)),
        !(item_less(a, b) && item_less(b, a)),
{
    lemma_seq_less_total(a.name@, b.name@);
}

/// Merges `item` into the running totals `acc`.
fn add_item(acc: &mut Vec<Item>, item: &Item, Ghost(items): Ghost<Seq<Item>>)
    requires
        totals_of(old(acc)@, items),
        name_count(items.push(*item), item.name@) <= u32::MAX,
    ensures
        totals_of(final(acc)@, items.push(*item)),
{
    let ghost p = items.push(*item);
    assert(p.drop_last() =~= items);
    let mut k: usize = 0;
    while k < acc.len()
        invariant
            0 <= k <= acc@.len(),
            acc@ == old(acc)@,
            forall|i: int| 0 <= i < k ==> acc@[i].name@ != item.name@,
        ensures
            0 <= k <= acc@.len(),
            acc@ == old(acc)@,
            forall|i: int| 0 <= i < k ==> acc@[i].name@ != item.name@,
            k < acc@.len() ==> acc@[k as int].name@ == item.name@,
        decreases acc@.len() - k,
    {
        if acc[k].name == item.name {
            break;
        }
        k = k + 1;
    }
    proof {
        lemma_name_count_nonneg(items, item.name@);
    }
    if k < acc.len() {
        assert(acc@[k as int].name@ == item.name@);
        let count = acc[k].count + item.count;
        let rank = if item.rank > acc[k].rank {
            item.rank
        } else {
            acc[k].rank
        };
        let updated = Item { name: acc[k].name.clone(), count, rank };
        acc.set(k, updated);
        proof {
            let a = acc@;
            let o = old(acc)@;
            assert forall|i: int| 0 <= i < a.len() implies {
                &&& has_name(p, #[trigger] a[i].name@)
                &&& a[i].count == name_count(p, a[i].name@)
                &&& a[i].rank == name_rank(p, a[i].name@)
            } by {
                assert(has_name(items, o[i].name@));
                let w = choose|w: int| 0 <= w < items.len() && #[trigger] items[w].name@ == o[i].name@;
                assert(p[w].name@ == a[i].name@);
            };
            assert forall|n: Seq<char>| has_name(p, n) implies exists|i: int|
                0 <= i < a.len() && #[trigger] a[i].name@ == n by {
                let w = choose|w: int| 0 <= w < p.len() && #[trigger] p[w].name@ == n;
                if w < items.len() {
                    assert(items[w].name@ == n);
                    assert(has_name(items, n));
                    let i = choose|i: int| 0 <= i < o.len() && #[trigger] o[i].name@ == n;
                    assert(a[i].name@ == n);
                } else {
                    assert(a[k as int].name@ == n);
                }
            };
        }
    } else {
        let fresh = Item { name: item.name.clone(), count: item.count, rank: item.rank };
        acc.push(fresh);
        proof {
            let a = acc@;
            let o = old(acc)@;
            assert(!has_name(items, item.name@)) by {
                if has_name(items, item.name@) {
                    let i = choose|i: int| 0 <= i < o.len() && #[trigger] o[i].name@ == item.name@;
                    assert(o[i].name@ != item.name@);
                }
            };
            assert(name_count(items, item.name@) == 0) by {
                lemma_no_name_zero(items, item.name@);
            };
            assert(name_rank(items, item.name@) == 0) by {
                lemma_no_name_zero(items, item.name@);
            };
            assert forall|i: int| 0 <= i < a.len() implies {
                &&& has_name(p, #[trigger] a[i].name@)
                &&& a[i].count == name_count(p, a[i].name@)
                &&& a[i].rank == name_rank(p, a[i].name@)
            } by {
                if i < o.len() {
                    assert(has_name(items, o[i].name@));
                    let w = choose|w: int| 0 <= w < items.len() && #[trigger] items[w].name@ == o[i].name@;
                    assert(p[w].name@ == a[i].name@);
                } else {
                    assert(p[items.len() as int].name@ == a[i].name@);
                }
            };
            assert forall|n: Seq<char>| has_name(p, n) implies exists|i: int|
                0 <= i < a.len() && #[trigger] a[i].name@ == n by {
                let w = choose|w: int| 0 <= w < p.len() && #[trigger] p[w].name@ == n;
                if w < items.len() {
                    assert(items[w].name@ == n);
                    assert(has_name(items, n));
                    let i = choose|i: int| 0 <= i < o.len() && #[trigger] o[i].name@ == n;
                    assert(a[i].name@ == n);
                } else {
                    assert(a[o.len() as int].name@ == n);
                }
            };
        }
    }
}

pub proof fn lemma_no_name_zero(items: Seq<Item>, n: Seq<char>)
    requires
        !has_name(items, n),
    ensures
        name_count(items, n) == 0,
        name_rank(items, n) == 0,
    decreases items.len(),
{
    if items.len() > 0 {
        assert(!has_name(items.drop_last(), n)) by {
            if has_name(items.drop_last(), n) {
                let w = choose|w: int| 0 <= w < items.drop_last().len() && #[trigger] items.drop_last()[w].name@ == n;
                assert(items[w].name@ == n);
            }
        };
        assert(items[items.len() - 1].name@ != n);
        lemma_no_name_zero(items.drop_last(), n);
    }
}

/// The items are in strictly increasing `item_less` order.
pub open spec fn items_sorted(s: Seq<Item>) -> bool {
    forall|i: int, j: int| 0 <= i < j < s.len() ==> item_less(s[i], s[j])
}

/// No two items share a name.
pub open spec fn names_distinct(s: Seq<Item>) -> bool {
    forall|i: int, j: int| 0 <= i < j < s.len() ==> s[i].name@ != s[j].name@
}

/// Whether `a` comes before `b` (see `item_less`).
pub fn item_lt(a: &Item, b: &Item) -> (r: bool)
    ensures
        r == item_less(*a, *b),
{
    a.rank < b.rank || (a.rank == b.rank && str_less(a.name.as_str(), b.name.as_str()))
}

fn copy_item(it: &Item) -> (r: Item)
    ensures
        r == *it,
{
    Item { name: it.name.clone(), count: it.count, rank: it.rank }
}

/// The items of `v` ordered by rank, then by name.
pub fn sort_items(v: &Vec<Item>) -> (out: Vec<Item>)
    requires
        names_distinct(v@),
    ensures
        items_sorted(out@),
        out@.to_multiset() == v@.to_multiset(),
{
    let mut out: Vec<Item> = Vec::new();
    let n = v.len();
    let mut i: usize = 0;
    assert(out@ =~= v@.take(0));
    while i < n
        invariant
            n == v@.len(),
            0 <= i <= n,
            names_distinct(v@),
            items_sorted(out@),
            out@.to_multiset() == v@.take(i as int).to_multiset(),
        decreases n - i,
    {
        let x = copy_item(&v[i]);
        let mut pos: usize = 0;
        while pos < out.len()
            invariant
                0 <= pos <= out@.len(),
                forall|q: int| 0 <= q < pos ==> item_less(#[trigger] out@[q], x),
            ensures
                0 <= pos <= out@.len(),
                forall|q: int| 0 <= q < pos ==> item_less(#[trigger] out@[q], x),
                pos < out@.len() ==> !item_less(out@[pos as int], x),
            decreases out@.len() - pos,
        {
            if !item_lt(&out[pos], &x) {
                break;
            }
            pos = pos + 1;
        }
        let ghost old_out = out@;
        proof {
            lemma_insert_in_order(old_out, v@, i as int, pos as int, x);
        }
        out.insert(pos, x);
        proof {
            vstd::seq_lib::to_multiset_insert(old_out, pos as int, x);
            assert(v@.take(i + 1) =~= v@.take(i as int).push(x));
            vstd::seq_lib::to_multiset_build(v@.take(i as int), x);
        }
        i = i + 1;
    }
    proof {
        assert(v@.take(n as int) =~= v@);
    }
    out
}

/// Inserting the next item of `v` where `sort_items` puts it keeps the order.
proof fn lemma_insert_in_order(old_out: Seq<Item>, v: Seq<Item>, i: int, pos: int, x: Item)
    requires
        0 <= i < v.len(),
        names_distinct(v),
        x == v[i],
        items_sorted(old_out),
        old_out.to_multiset() == v.take(i).to_multiset(),
        0 <= pos <= old_out.len(),
        forall|q: int| 0 <= q < pos ==> item_less(#[trigger] old_out[q], x),
        pos < old_out.len() ==> !item_less(old_out[pos], x),
    ensures
        items_sorted(old_out.insert(pos, x)),
{
    assert forall|q: int| 0 <= q < old_out.len() implies #[trigger] old_out[q].name@ != x.name@ by {
        vstd::seq_lib::to_multiset_contains(old_out, old_out[q]);
        vstd::seq_lib::to_multiset_contains(v.take(i), old_out[q]);
        assert(old_out.contains(old_out[q]));
        let j = choose|j: int| 0 <= j < v.take(i).len() && v.take(i)[j] == old_out[q];
        assert(v[j] == old_out[q]);
    };
    assert forall|q: int| pos <= q < old_out.len() implies item_less(x, #[trigger] old_out[q]) by {
        assert(old_out[pos].name@ != x.name@);
        lemma_item_less_total(old_out[pos], x);
        if q > pos {
            lemma_item_less_transitive(x, old_out[pos], old_out[q]);
        }
    };
    let o = old_out.insert(pos, x);
    assert forall|a: int, b: int| 0 <= a < b < o.len() implies item_less(o[a], o[b]) by {
        if b < pos {
        } else if b == pos {
            assert(o[a] == old_out[a]);
        } else if a < pos {
            assert(o[b] == old_out[b - 1]);
            assert(item_less(old_out[a], x));
            assert(item_less(x, old_out[b - 1]));
            lemma_item_less_transitive(old_out[a], x, old_out[b - 1]);
        } else if a == pos {
            assert(o[b] == old_out[b - 1]);
        } else {
            assert(o[a] == old_out[a - 1]);
            assert(o[b] == old_out[b - 1]);
        }
    };
}

/// The totals of all the entries' items, in no particular order, and the sum
/// of the entries' costs.
fn merge_all(entries: &KeyMap<Materials>) -> (r: (Vec<Item>, u32))
    requires
        total_cost(entries@) <= u32::MAX,
        forall|nm: Seq<char>| #[trigger] name_count(all_items(entries@), nm) <= u32::MAX,
    ensures
        totals_of(r.0@, all_items(entries@)),
        r.1 == total_cost(entries@),
{
    let ghost s = entries@;
    let mut acc: Vec<Item> = Vec::new();
    let mut cost: u32 = 0;
    let n = entries.len();
    let mut i: usize = 0;
    assert(s.take(0) =~= Seq::<(String, Materials)>::empty());
    assert(all_items(s.take(0)) =~= Seq::<Item>::empty());
    while i < n
        invariant
            s == entries@,
            n == s.len(),
            0 <= i <= n,
            totals_of(acc@, all_items(s.take(i as int))),
            cost == total_cost(s.take(i as int)),
            total_cost(s) <= u32::MAX,
            forall|nm: Seq<char>| #[trigger] name_count(all_items(s), nm) <= u32::MAX,
        decreases n - i,
    {
        let ghost base = all_items(s.take(i as int));
        proof {
            assert(s.take(i + 1).drop_last() =~= s.take(i as int));
            lemma_prefix_totals(s, i + 1, Seq::empty());
        }
        cost = cost + entries[i].1.cost;
        let mats = &entries[i].1.mats;
        let m = mats.len();
        let mut j: usize = 0;
        assert(base + mats@.take(0) =~= base);
        while j < m
            invariant
                s == entries@,
                0 <= i < n,
                n == s.len(),
                m == mats@.len(),
                mats@ == s[i as int].1.mats@,
                base == all_items(s.take(i as int)),
                all_items(s.take(i + 1)) == base + mats@,
                0 <= j <= m,
                totals_of(acc@, base + mats@.take(j as int)),
                forall|nm: Seq<char>| #[trigger] name_count(all_items(s), nm) <= u32::MAX,
            decreases m - j,
        {
            let ghost cur = base + mats@.take(j as int);
            proof {
                let nm = mats@[j as int].name@;
                assert(cur.push(mats@[j as int]) =~= base + mats@.take(j + 1));
                assert(base + mats@ =~= (base + mats@.take(j + 1)) + mats@.skip(j + 1));
                lemma_name_count_append(base + mats@.take(j + 1), mats@.skip(j + 1), nm);
                lemma_name_count_nonneg(mats@.skip(j + 1), nm);
                lemma_prefix_totals(s, i + 1, nm);
                assert(name_count(all_items(s), nm) <= u32::MAX);
            }
            add_item(&mut acc, &mats[j], Ghost(cur));
            proof {
                assert(cur.push(mats@[j as int]) =~= base + mats@.take(j + 1));
            }
            j = j + 1;
        }
        proof {
            assert(mats@.take(m as int) =~= mats@);
        }
        i = i + 1;
    }
    proof {
        assert(s.take(n as int) =~= s);
    }
    (acc, cost)
}

/// Totals put in another order are still the totals.
proof fn lemma_totals_reordered(out: Seq<Item>, v: Seq<Item>, items: Seq<Item>)
    requires
        totals_of(v, items),
        out.to_multiset() == v.to_multiset(),
        items_sorted(out),
    ensures
        totals_of(out, items),
{
    assert forall|x: Item| out.contains(x) <==> v.contains(x) by {
        vstd::seq_lib::to_multiset_contains(out, x);
        vstd::seq_lib::to_multiset_contains(v, x);
    };
    assert forall|a: int, b: int| 0 <= a < b < out.len() implies out[a].name@ != out[b].name@ by {
        assert(out.contains(out[a]));
        assert(out.contains(out[b]));
        let ja = choose|j: int| 0 <= j < v.len() && v[j] == out[a];
        let jb = choose|j: int| 0 <= j < v.len() && v[j] == out[b];
        assert(item_less(out[a], out[b]));
        if ja == jb {
            lemma_seq_less_irreflexive(out[a].name@);
            assert(false);
        } else if ja < jb {
            assert(v[ja].name@ != v[jb].name@);
        } else {
            assert(v[jb].name@ != v[ja].name@);
        }
    };
    assert forall|i: int| 0 <= i < out.len() implies {
        &&& has_name(items, #[trigger] out[i].name@)
        &&& out[i].count == name_count(items, out[i].name@)
        &&& out[i].rank == name_rank(items, out[i].name@)
    } by {
        assert(out.contains(out[i]));
        let j = choose|j: int| 0 <= j < v.len() && v[j] == out[i];
        assert(has_name(items, v[j].name@));
    };
    assert forall|n: Seq<char>| has_name(items, n) implies exists|i: int|
        0 <= i < out.len() && #[trigger] out[i].name@ == n by {
        let j = choose|j: int| 0 <= j < v.len() && #[trigger] v[j].name@ == n;
        assert(v.contains(v[j]));
        let p = choose|p: int| 0 <= p < out.len() && out[p] == v[j];
        assert(out[p].name@ == n);
    };
}

/// The materials of all the entries together: their costs added up, and their
/// items merged by name (counts added, the highest rank kept), ordered by
/// rank and then by name.
pub fn total_materials(entries: &KeyMap<Materials>) -> (r: Materials)
    requires
        total_cost(entries@) <= u32::MAX,
        forall|nm: Seq<char>| #[trigger] name_count(all_items(entries@), nm) <= u32::MAX,
    ensures
        r.cost == total_cost(entries@),
        totals_of(r.mats@, all_items(entries@)),
        items_sorted(r.mats@),
{
    let (merged, cost) = merge_all(entries);
    let mats = sort_items(&merged);
    proof {
        lemma_totals_reordered(mats@, merged@, all_items(entries@));
    }
    Materials { mats, cost }
}

} // verus!
