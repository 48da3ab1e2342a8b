//! Totals of a character's ascension and talent materials.
use vstd::prelude::*;
use vstd::string::StringExecFns;
use crate::chars::{seq_less, lemma_seq_less_irreflexive, lemma_seq_less_transitive, lemma_seq_less_total, str_less};
use crate::base_models::character::{Materials, AscensionORTalent, Mat};
use crate::parsed_models::parsed_character::ParsedMaterial;

verus! {

/// The name under which the Mora cost of a level is counted.
pub open spec fn cost_name() -> Seq<char> {
    seq!['C', 'o', 's', 't']
}

/// A material's name and count.
pub open spec fn mat_part(m: Mat) -> (Seq<char>, int) {
    (m.name@, m.count as int)
}

/// What one ascension phase or talent level adds, in order: its Mora cost
/// under the name `Cost`, then each material's count under its name.
pub open spec fn level_parts(e: AscensionORTalent) -> Seq<(Seq<char>, int)> {
    seq![(cost_name(), e.cost as int)] + e.mats@.map_values(|m: Mat| mat_part(m))
}

/// What a list of levels adds, in order.
pub open spec fn all_parts(s: Seq<AscensionORTalent>) -> Seq<(Seq<char>, int)>
    decreases s.len(),
{
    if s.len() == 0 {
        Seq::empty()
    } else {
        all_parts(s.drop_last()) + level_parts(s.last())
    }
}

/// The total of the amounts under `name`.
pub open spec fn part_sum(p: Seq<(Seq<char>, int)>, name: Seq<char>) -> int
    decreases p.len(),
{
    if p.len() == 0 {
        0
    } else {
        part_sum(p.drop_last(), name) + if p.last().0 == name {
            p.last().1
        } else {
            0
        }
    }
}

/// Some amount is under `name`.
pub open spec fn part_named(p: Seq<(Seq<char>, int)>, name: Seq<char>) -> bool {
    exists|i: int| 0 <= i < p.len() && #[trigger] p[i].0 == name
}

/// Adding the amounts up in order, no running total of any name leaves the
/// range of `i64`.
pub open spec fn sums_fit(p: Seq<(Seq<char>, int)>) -> bool {
    forall|k: int, name: Seq<char>|
        0 <= k <= p.len() ==> i64::MIN <= #[trigger] part_sum(p.take(k), name) <= i64::MAX
}

/// `a` comes before `b`: smaller amount first, equal amounts by name.
pub open spec fn material_less(a: ParsedMaterial, b: ParsedMaterial) -> bool {
    a.amount < b.amount || (a.amount == b.amount && seq_less(a.name@, b.name@))
}

/// The materials are in strictly increasing `material_less` order.
pub open spec fn materials_sorted(s: Seq<ParsedMaterial>) -> bool {
    forall|i: int, j: int| 0 <= i < j < s.len() ==> material_less(s[i], s[j])
}

/// `out` holds, once for each name in `p`, the total under that name.
pub open spec fn sums_of(out: Seq<ParsedMaterial>, p: Seq<(Seq<char>, int)>) -> bool {
    &&& forall|i: int, j: int| 0 <= i < j < out.len() ==> out[i].name@ != out[j].name@
    &&& forall|i: int|
        0 <= i < out.len() ==> {
            &&& part_named(p, #[trigger] out[i].name@)
            &&& out[i].amount == part_sum(p, out[i].name@)
        }
    &&& forall|n: Seq<char>|
        part_named(p, n) ==> exists|i: int| 0 <= i < out.len() && #[trigger] out[i].name@ == n
}

proof fn lemma_no_part_zero(p: Seq<(Seq<char>, int)>, n: Seq<char>)
    requires
        !part_named(p, n),
    ensures
        part_sum(p, n) == 0,
    decreases p.len(),
{
    if p.len() > 0 {
        assert(!part_named(p.drop_last(), n)) by {
            if part_named(p.drop_last(), n) {
                let w = choose|w: int| 0 <= w < p.drop_last().len() && #[trigger] p.drop_last()[w].0 == n;
                assert(p[w].0 == n);
            }
        };
        assert(p[p.len() - 1].0 != n);
        lemma_no_part_zero(p.drop_last(), n);
    }
}

/// The parts of the first `i` levels come first among the parts of all.
proof fn lemma_all_parts_prefix(s: Seq<AscensionORTalent>, i: int)
    requires
        0 <= i <= s.len(),
    ensures
        all_parts(s.take(i)).len() <= all_parts(s).len(),
        all_parts(s).take(all_parts(s.take(i)).len() as int) == all_parts(s.take(i)),
    decreases s.len() - i,
{
    if i < s.len() {
        lemma_all_parts_prefix(s, i + 1);
        assert(s.take(i + 1).drop_last() =~= s.take(i));
        let a = all_parts(s.take(i));
        let b = all_parts(s.take(i + 1));
        assert(b == a + level_parts(s[i]));
        assert(all_parts(s).take(a.len() as int) =~= b.take(a.len() as int));
        assert(b.take(a.len() as int) =~= a);
    } else {
        assert(s.take(i) =~= s);
        assert(all_parts(s).take(all_parts(s).len() as int) =~= all_parts(s));
    }
}

/// Adds `amount` under `name` to the running totals `acc`.
fn add_amount(
    acc: &mut Vec<ParsedMaterial>,
    name: &String,
    amount: i64,
    Ghost(p): Ghost<Seq<(Seq<char>, int)>>,
)
    requires
        sums_of(old(acc)@, p),
        i64::MIN <= part_sum(p.push((name@, amount as int)), name@) <= i64::MAX,
    ensures
        sums_of(final(acc)@, p.push((name@, amount as int))),
{
    let ghost q = p.push((name@, amount as int));
    assert(q.drop_last() =~= p);
    let mut k: usize = 0;
    while k < acc.len()
        invariant
            0 <= k <= acc@.len(),
            acc@ == old(acc)@,
            forall|i: int| 0 <= i < k ==> acc@[i].name@ != name@,
        ensures
            0 <= k <= acc@.len(),
            acc@ == old(acc)@,
            forall|i: int| 0 <= i < k ==> acc@[i].name@ != name@,
            k < acc@.len() ==> acc@[k as int].name@ == name@,
        decreases acc@.len() - k,
    {
        if acc[k].name == *name {
            break;
        }
        k = k + 1;
    }
    if k < acc.len() {
        let total = acc[k].amount + amount;
        let updated = ParsedMaterial { name: acc[k].name.clone(), amount: total };
        acc.set(k, updated);
        proof {
            let a = acc@;
            let o = old(acc)@;
            assert forall|i: int| 0 <= i < a.len() implies {
                &&& part_named(q, #[trigger] a[i].name@)
                &&& a[i].amount == part_sum(q, a[i].name@)
            } by {
                assert(part_named(p, o[i].name@));
                let w = choose|w: int| 0 <= w < p.len() && #[trigger] p[w].0 == o[i].name@;
                assert(q[w].0 == a[i].name@);
            };
            assert forall|n: Seq<char>| part_named(q, n) implies exists|i: int|
                0 <= i < a.len() && #[trigger] a[i].name@ == n by {
                let w = choose|w: int| 0 <= w < q.len() && #[trigger] q[w].0 == n;
                if w < p.len() {
                    assert(p[w].0 == n);
                    assert(part_named(p, n));
                    let i = choose|i: int| 0 <= i < o.len() && #[trigger] o[i].name@ == n;
                    assert(a[i].name@ == n);
                } else {
                    assert(a[k as int].name@ == n);
                }
            };
        }
    } else {
        let fresh = ParsedMaterial { name: name.clone(), amount };
        acc.push(fresh);
        proof {
            let a = acc@;
            let o = old(acc)@;
            assert(!part_named(p, name@)) by {
                if part_named(p, name@) {
                    let i = choose|i: int| 0 <= i < o.len() && #[trigger] o[i].name@ == name@;
                    assert(o[i].name@ != name@);
                }
            };
            lemma_no_part_zero(p, name@);
            assert forall|i: int| 0 <= i < a.len() implies {
                &&& part_named(q, #[trigger] a[i].name@)
                &&& a[i].amount == part_sum(q, a[i].name@)
            } by {
                if i < o.len() {
                    assert(part_named(p, o[i].name@));
                    let w = choose|w: int| 0 <= w < p.len() && #[trigger] p[w].0 == o[i].name@;
                    assert(q[w].0 == a[i].name@);
                } else {
                    assert(q[p.len() as int].0 == a[i].name@);
                }
            };
            assert forall|n: Seq<char>| part_named(q, n) implies exists|i: int|
                0 <= i < a.len() && #[trigger] a[i].name@ == n by {
                let w = choose|w: int| 0 <= w < q.len() && #[trigger] q[w].0 == n;
                if w < p.len() {
                    assert(p[w].0 == n);
                    assert(part_named(p, n));
                    let i = choose|i: int| 0 <= i < o.len() && #[trigger] o[i].name@ == n;
                    assert(a[i].name@ == n);
                } else {
                    assert(a[o.len() as int].name@ == n);
                }
            };
        }
    }
}

/// `add_amount` at the next position of `all`, whose running totals fit.
fn add_next(
    acc: &mut Vec<ParsedMaterial>,
    name: &String,
    amount: i64,
    Ghost(all): Ghost<Seq<(Seq<char>, int)>>,
    Ghost(cur): Ghost<Seq<(Seq<char>, int)>>,
)
    requires
        sums_of(old(acc)@, cur),
        sums_fit(all),
        cur.len() < all.len(),
        all.take(cur.len() as int + 1) == cur.push((name@, amount as int)),
    ensures
        sums_of(final(acc)@, cur.push((name@, amount as int))),
{
    assert(i64::MIN <= part_sum(all.take(cur.len() as int + 1), name@) <= i64::MAX);
    add_amount(acc, name, amount, Ghost(cur));
}

/// Adds what one level adds (see `level_parts`) to the running totals of the
/// levels before it.
fn single_asc_or_talent_vector_parsing(
    acc: &mut Vec<ParsedMaterial>,
    cost_key: &String,
    level: &AscensionORTalent,
    Ghost(s): Ghost<Seq<AscensionORTalent>>,
    Ghost(i): Ghost<int>,
)
    requires
        0 <= i < s.len(),
        *level == s[i],
        cost_key@ == cost_name(),
        sums_fit(all_parts(s)),
        sums_of(old(acc)@, all_parts(s.take(i))),
    ensures
        sums_of(final(acc)@, all_parts(s.take(i + 1))),
{
    let ghost all = all_parts(s);
    let ghost base = all_parts(s.take(i));
    let ghost lp = level_parts(s[i]);
    proof {
        assert(s.take(i + 1).drop_last() =~= s.take(i));
        assert(all_parts(s.take(i + 1)) == base + lp);
        lemma_all_parts_prefix(s, i + 1);
        assert(all.take(base.len() as int + 1) =~= (base + lp).take(base.len() as int + 1));
        assert((base + lp).take(base.len() as int + 1) =~= base.push((cost_name(), level.cost as int)));
    }
    add_next(acc, cost_key, level.cost, Ghost(all), Ghost(base));
    let mats = &level.mats;
    let m = mats.len();
    let mut j: usize = 0;
    assert(base.push((cost_name(), level.cost as int)) =~= base + lp.take(1));
    while j < m
        invariant
            all == all_parts(s),
            0 <= i < s.len(),
            sums_fit(all),
            *level == s[i],
            mats@ == level.mats@,
            m == mats@.len(),
            base == all_parts(s.take(i)),
            lp == level_parts(s[i]),
            all_parts(s.take(i + 1)) == base + lp,
            all.take((base + lp).len() as int) == base + lp,
            (base + lp).len() <= all.len(),
            lp.len() == m + 1,
            0 <= j <= m,
            sums_of(acc@, base + lp.take(j + 1)),
        decreases m - j,
    {
        let ghost cur = base + lp.take(j + 1);
        let mat = &mats[j];
        proof {
            assert(lp[j + 1] == (mat.name@, mat.count as int));
            assert(cur.push((mat.name@, mat.count as int)) =~= base + lp.take(j + 2));
            assert(all.take(cur.len() as int + 1) =~= (base + lp).take(cur.len() as int + 1));
            assert((base + lp).take(cur.len() as int + 1) =~= base + lp.take(j + 2));
        }
        add_next(acc, &mat.name, mat.count, Ghost(all), Ghost(cur));
        j = j + 1;
    }
    proof {
        assert(lp.take(m + 1) =~= lp);
    }
}

/// The totals, by name, of what a list of levels adds (see `all_parts`), in
/// no particular order; every running total must fit in an `i64`.
pub fn single_full_asc_or_talent_parsing(full_vector: &Vec<AscensionORTalent>) -> (r: Vec<ParsedMaterial>)
    requires
        sums_fit(all_parts(full_vector@)),
    ensures
        sums_of(r@, all_parts(full_vector@)),
{
    let ghost s = full_vector@;
    let cost_key = String::from_str("Cost");
    proof {
        reveal_strlit("Cost");
        assert(cost_key@ =~= cost_name());
    }
    let mut acc: Vec<ParsedMaterial> = Vec::new();
    let n = full_vector.len();
    let mut i: usize = 0;
    assert(s.take(0) =~= Seq::<AscensionORTalent>::empty());
    while i < n
        invariant
            s == full_vector@,
            cost_key@ == cost_name(),
            n == s.len(),
            0 <= i <= n,
            sums_fit(all_parts(s)),
            sums_of(acc@, all_parts(s.take(i as int))),
        decreases n - i,
    {
        single_asc_or_talent_vector_parsing(&mut acc, &cost_key, &full_vector[i], Ghost(s), Ghost(i as int));
        i = i + 1;
    }
    proof {
        assert(s.take(n as int) =~= s);
    }
    acc
}

proof fn lemma_material_less_transitive(a: ParsedMaterial, b: ParsedMaterial, c: ParsedMaterial)
    requires
        material_less(a, b),
        material_less(b, c),
    ensures
        material_less(a, c),
{
    if a.amount == b.amount && b.amount == c.amount {
        lemma_seq_less_transitive(a.name@, b.name@, c.name@);
    }
}

proof fn lemma_material_less_total(a: ParsedMaterial, b: ParsedMaterial)
    ensures
        a.name@ != b.name@ ==> (material_less(a, b) || material_less(b, a)),
        !material_less(a, a),
{
    lemma_seq_less_total(a.name@, b.name@);
    lemma_seq_less_irreflexive(a.name@);
}

/// Whether `a` comes before `b` (see `material_less`).
fn material_lt(a: &ParsedMaterial, b: &ParsedMaterial) -> (r: bool)
    ensures
        r == material_less(*a, *b),
{
    a.amount < b.amount || (a.amount == b.amount && str_less(a.name.as_str(), b.name.as_str()))
}

/// The totals in `v` ordered by amount, then by name.
fn sort_materials(v: &Vec<ParsedMaterial>) -> (out: Vec<ParsedMaterial>)
    requires
        forall|i: int, j: int| 0 <= i < j < v@.len() ==> v@[i].name@ != v@[j].name@,
    ensures
        materials_sorted(out@),
        out@.to_multiset() == v@.to_multiset(),
{
    let mut out: Vec<ParsedMaterial> = Vec::new();
    let n = v.len();
    let mut i: usize = 0;
    assert(out@ =~= v@.take(0));
    while i < n
        invariant
            n == v@.len(),
            0 <= i <= n,
            forall|a: int, b: int| 0 <= a < b < v@.len() ==> v@[a].name@ != v@[b].name@,
            materials_sorted(out@),
            out@.to_multiset() == v@.take(i as int).to_multiset(),
        decreases n - i,
    {
        let x = ParsedMaterial { name: v[i].name.clone(), amount: v[i].amount };
        let mut pos: usize = 0;
        while pos < out.len()
            invariant
                0 <= pos <= out@.len(),
                forall|q: int| 0 <= q < pos ==> material_less(#[trigger] out@[q], x),
            ensures
                0 <= pos <= out@.len(),
                forall|q: int| 0 <= q < pos ==> material_less(#[trigger] out@[q], x),
                pos < out@.len() ==> !material_less(out@[pos as int], x),
            decreases out@.len() - pos,
        {
            if !material_lt(&out[pos], &x) {
                break;
            }
            pos = pos + 1;
        }
        let ghost old_out = out@;
        proof {
            lemma_insert_material_in_order(old_out, v@, i as int, pos as int, x);
        }
        out.insert(pos, x);
        proof {
            vstd::seq_lib::to_multiset_insert(old_out, pos as int, x);
            assert(v@.take(i + 1) =~= v@.take(i as int).push(x));
            vstd::seq_lib::to_multiset_build(v@.take(i as int), x);
        }
        i = i + 1;
    }
    proof {
        assert(v@.take(n as int) =~= v@);
    }
    out
}

/// Inserting the next total of `v` where `sort_materials` puts it keeps the
/// order.
proof fn lemma_insert_material_in_order(
    old_out: Seq<ParsedMaterial>,
    v: Seq<ParsedMaterial>,
    i: int,
    pos: int,
    x: ParsedMaterial,
)
    requires
        0 <= i < v.len(),
        forall|a: int, b: int| 0 <= a < b < v.len() ==> v[a].name@ != v[b].name@,
        x == v[i],
        materials_sorted(old_out),
        old_out.to_multiset() == v.take(i).to_multiset(),
        0 <= pos <= old_out.len(),
        forall|q: int| 0 <= q < pos ==> material_less(#[trigger] old_out[q], x),
        pos < old_out.len() ==> !material_less(old_out[pos], x),
    ensures
        materials_sorted(old_out.insert(pos, x)),
{
    assert forall|q: int| 0 <= q < old_out.len() implies #[trigger] old_out[q].name@ != x.name@ by {
        vstd::seq_lib::to_multiset_contains(old_out, old_out[q]);
        vstd::seq_lib::to_multiset_contains(v.take(i), old_out[q]);
        assert(old_out.contains(old_out[q]));
        let j = choose|j: int| 0 <= j < v.take(i).len() && v.take(i)[j] == old_out[q];
        assert(v[j] == old_out[q]);
    };
    assert forall|q: int| pos <= q < old_out.len() implies material_less(x, #[trigger] old_out[q]) by {
        assert(old_out[pos].name@ != x.name@);
        lemma_material_less_total(old_out[pos], x);
        if q > pos {
            lemma_material_less_transitive(x, old_out[pos], old_out[q]);
        }
    };
    let o = old_out.insert(pos, x);
    assert forall|a: int, b: int| 0 <= a < b < o.len() implies material_less(o[a], o[b]) by {
        if b < pos {
        } else if b == pos {
            assert(o[a] == old_out[a]);
        } else if a < pos {
            assert(o[b] == old_out[b - 1]);
            assert(material_less(old_out[a], x));
            assert(material_less(x, old_out[b - 1]));
            lemma_material_less_transitive(old_out[a], x, old_out[b - 1]);
        } else if a == pos {
            assert(o[b] == old_out[b - 1]);
        } else {
            assert(o[a] == old_out[a - 1]);
            assert(o[b] == old_out[b - 1]);
        }
    };
}

/// Totals put in another order are still the totals.
proof fn lemma_sums_reordered(out: Seq<ParsedMaterial>, v: Seq<ParsedMaterial>, p: Seq<(Seq<char>, int)>)
    requires
        sums_of(v, p),
        out.to_multiset() == v.to_multiset(),
        materials_sorted(out),
    ensures
        sums_of(out, p),
{
    assert forall|x: ParsedMaterial| out.contains(x) <==> v.contains(x) by {
        vstd::seq_lib::to_multiset_contains(out, x);
        vstd::seq_lib::to_multiset_contains(v, x);
    };
    assert forall|a: int, b: int| 0 <= a < b < out.len() implies out[a].name@ != out[b].name@ by {
        assert(out.contains(out[a]));
        assert(out.contains(out[b]));
        let ja = choose|j: int| 0 <= j < v.len() && v[j] == out[a];
        let jb = choose|j: int| 0 <= j < v.len() && v[j] == out[b];
        assert(material_less(out[a], out[b]));
        if ja == jb {
            lemma_material_less_total(out[a], out[b]);
            assert(false);
        } else if ja < jb {
            assert(v[ja].name@ != v[jb].name@);
        } else {
            assert(v[jb].name@ != v[ja].name@);
        }
    };
    assert forall|i: int| 0 <= i < out.len() implies {
        &&& part_named(p, #[trigger] out[i].name@)
        &&& out[i].amount == part_sum(p, out[i].name@)
    } by {
        assert(out.contains(out[i]));
        let j = choose|j: int| 0 <= j < v.len() && v[j] == out[i];
        assert(part_named(p, v[j].name@));
    };
    assert forall|n: Seq<char>| part_named(p, n) implies exists|i: int|
        0 <= i < out.len() && #[trigger] out[i].name@ == n by {
        let j = choose|j: int| 0 <= j < v.len() && #[trigger] v[j].name@ == n;
        assert(v.contains(v[j]));
        let q = choose|q: int| 0 <= q < out.len() && out[q] == v[j];
        assert(out[q].name@ == n);
    };
}

/// No two totals share a name.
pub open spec fn material_names_distinct(s: Seq<ParsedMaterial>) -> bool {
    forall|i: int, j: int| 0 <= i < j < s.len() ==> s[i].name@ != s[j].name@
}

/// The ascension totals and the first talent's totals, each ordered by amount
/// and then by name; there must be a talent.
pub fn convert_maps_to_vecs(asc: &Vec<ParsedMaterial>, tal: &Vec<Vec<ParsedMaterial>>) -> (r: (Vec<ParsedMaterial>, Vec<ParsedMaterial>))
    requires
        tal@.len() > 0,
        material_names_distinct(asc@),
        material_names_distinct(tal@[0]@),
    ensures
        materials_sorted(r.0@),
        r.0@.to_multiset() == asc@.to_multiset(),
        materials_sorted(r.1@),
        r.1@.to_multiset() == tal@[0]@.to_multiset(),
{
    let ascension_mats = sort_materials(asc);
    let talent_mats = sort_materials(&tal[0]);
    (ascension_mats, talent_mats)
}

/// A character's material totals: the first list for the ascension phases
/// together, the second for the levels of the first talent together.  Each
/// list holds every material once with its total count, and the total Mora
/// cost under the name `Cost` (where there is any level), ordered by amount
/// and then by name.  Every talent's totals are added up, each must fit in
/// an `i64` all along, and there must be a talent.
pub fn parse_materials(materials: &Materials) -> (r: (Vec<ParsedMaterial>, Vec<ParsedMaterial>))
    requires
        materials.talents@.len() > 0,
        sums_fit(all_parts(materials.ascensions@)),
        forall|t: int|
            0 <= t < materials.talents@.len() ==> sums_fit(#[trigger] all_parts(materials.talents@[t]@)),
    ensures
        sums_of(r.0@, all_parts(materials.ascensions@)),
        materials_sorted(r.0@),
        sums_of(r.1@, all_parts(materials.talents@[0]@)),
        materials_sorted(r.1@),
{
    let parsed_asc = single_full_asc_or_talent_parsing(&materials.ascensions);
    let talents = &materials.talents;
    let mut full_talent_costs: Vec<Vec<ParsedMaterial>> = Vec::new();
    let n = talents.len();
    let mut t: usize = 0;
    while t < n
        invariant
            talents@ == materials.talents@,
            n == talents@.len(),
            0 <= t <= n,
            full_talent_costs@.len() == t,
            forall|q: int| 0 <= q < talents@.len() ==> sums_fit(#[trigger] all_parts(talents@[q]@)),
            forall|q: int| 0 <= q < t ==> sums_of(#[trigger] full_talent_costs@[q]@, all_parts(talents@[q]@)),
        decreases n - t,
    {
        let costs = single_full_asc_or_talent_parsing(&talents[t]);
        full_talent_costs.push(costs);
        t = t + 1;
    }
    let (ascension_mats, talent_mats) = convert_maps_to_vecs(&parsed_asc, &full_talent_costs);
    proof {
        lemma_sums_reordered(ascension_mats@, parsed_asc@, all_parts(materials.ascensions@));
        lemma_sums_reordered(talent_mats@, full_talent_costs@[0]@, all_parts(talents@[0]@));
    }
    (ascension_mats, talent_mats)
}

/// The sum of the levels' Mora costs.
pub open spec fn cost_sum(s: Seq<AscensionORTalent>) -> int
    decreases s.len(),
{
    if s.len() == 0 {
        0
    } else {
        cost_sum(s.drop_last()) + s.last().cost
    }
}

/// No material of the levels is named `Cost`.
pub open spec fn no_material_named_cost(s: Seq<AscensionORTalent>) -> bool {
    forall|i: int, j: int|
        0 <= i < s.len() && 0 <= j < s[i].mats@.len() ==> #[trigger] s[i].mats@[j].name@ != cost_name()
}

proof fn lemma_part_sum_append(p: Seq<(Seq<char>, int)>, q: Seq<(Seq<char>, int)>, n: Seq<char>)
    ensures
        part_sum(p + q, n) == part_sum(p, n) + part_sum(q, n),
    decreases q.len(),
{
    if q.len() > 0 {
        assert((p + q).drop_last() =~= p + q.drop_last());
        lemma_part_sum_append(p, q.drop_last(), n);
    } else {
        assert(p + q =~= p);
    }
}

/// The `Cost` total of a list of levels is the sum of their Mora costs,
/// where no material is named `Cost`.
pub proof fn cost_total_is_sum_of_costs(s: Seq<AscensionORTalent>)
    requires
        no_material_named_cost(s),
    ensures
        part_sum(all_parts(s), cost_name()) == cost_sum(s),
    decreases s.len(),
{
    if s.len() > 0 {
        let e = s.last();
        assert(no_material_named_cost(s.drop_last())) by {
            assert forall|i: int, j: int|
                0 <= i < s.drop_last().len() && 0 <= j < s.drop_last()[i].mats@.len() implies
                #[trigger] s.drop_last()[i].mats@[j].name@ != cost_name() by {
                assert(s.drop_last()[i] == s[i]);
            };
        };
        cost_total_is_sum_of_costs(s.drop_last());
        let mp = e.mats@.map_values(|m: Mat| mat_part(m));
        assert(level_parts(e) == seq![(cost_name(), e.cost as int)] + mp);
        assert(!part_named(mp, cost_name())) by {
            if part_named(mp, cost_name()) {
                let w = choose|w: int| 0 <= w < mp.len() && #[trigger] mp[w].0 == cost_name();
                assert(s[s.len() - 1].mats@[w].name@ != cost_name());
            }
        };
        lemma_no_part_zero(mp, cost_name());
        lemma_part_sum_append(seq![(cost_name(), e.cost as int)], mp, cost_name());
        lemma_part_sum_append(all_parts(s.drop_last()), level_parts(e), cost_name());
        let single = seq![(cost_name(), e.cost as int)];
        assert(single.drop_last() =~= Seq::<(Seq<char>, int)>::empty());
        assert(part_sum(single.drop_last(), cost_name()) == 0);
        assert(part_sum(single, cost_name()) == e.cost);
        assert(part_sum(mp, cost_name()) == 0);
        assert(part_sum(level_parts(e), cost_name()) == e.cost);
        assert(all_parts(s) == all_parts(s.drop_last()) + level_parts(e));
    }
}

} // verus!
