//! Maps keyed by strings, held as a vector of `(key, value)` entries.
//!
//! The data this crate reads comes as JSON objects: a vector of entries in the
//! object's key order.  The map that a vector stands for is the one built by
//! inserting its entries in order, so a later entry with an equal key wins.
//! The maps that this crate builds hold each key once, in ascending key
//! order, as a `BTreeMap` walks them.
use vstd::prelude::*;
use crate::chars::{seq_less, str_less, lemma_seq_less_irreflexive, lemma_seq_less_transitive, lemma_seq_less_total};

verus! {

/// A string-keyed map, as a vector of `(key, value)` entries.
pub type KeyMap<V> = Vec<(String, V)>;

/// The map that a sequence of entries stands for: the entries inserted in
/// order, a later entry replacing an earlier one with an equal key.
pub open spec fn key_map<V>(s: Seq<(String, V)>) -> Map<Seq<char>, V>
    decreases s.len(),
{
    if s.len() == 0 {
        Map::empty()
    } else {
        key_map(s.drop_last()).insert(s.last().0@, s.last().1)
    }
}

/// No two entries have equal keys.
pub open spec fn keys_unique<V>(s: Seq<(String, V)>) -> bool {
    forall|i: int, j: int| 0 <= i < j < s.len() ==> s[i].0@ != s[j].0@
}

/// The keys strictly ascend (so no key occurs twice): the order in which a
/// `BTreeMap` holds and walks its entries.
pub open spec fn keys_ascending<V>(s: Seq<(String, V)>) -> bool {
    &&& keys_unique(s)
    &&& forall|i: int, j: int| 0 <= i < j < s.len() ==> seq_less(s[i].0@, s[j].0@)
}

/// Adding an entry with a new key anywhere adds it to the map.
pub proof fn lemma_key_map_insert_fresh<V>(s: Seq<(String, V)>, j: int, key: String, v: V)
    requires
        0 <= j <= s.len(),
        forall|i: int| 0 <= i < s.len() ==> s[i].0@ != key@,
    ensures
        key_map(s.insert(j, (key, v))) == key_map(s).insert(key@, v),
    decreases s.len(),
{
    let t = s.insert(j, (key, v));
    if j == s.len() {
        assert(t.drop_last() =~= s);
        assert(key_map(t) =~= key_map(s).insert(key@, v));
    } else {
        assert(t.drop_last() =~= s.drop_last().insert(j, (key, v)));
        lemma_key_map_insert_fresh(s.drop_last(), j, key, v);
        assert(s.last().0@ != key@);
        assert(t.last() == s.last());
        assert(key_map(t) =~= key_map(s).insert(key@, v));
    }
}

/// The keys of the entries, in order.
pub open spec fn entry_keys<V>(s: Seq<(String, V)>) -> Seq<Seq<char>> {
    Seq::new(s.len(), |i: int| s[i].0@)
}

/// A key that no entry from index `j` on holds is looked up in the first `j`
/// entries alone.
pub proof fn lemma_key_map_prefix<V>(s: Seq<(String, V)>, j: int, k: Seq<char>)
    requires
        0 <= j <= s.len(),
        forall|i: int| j <= i < s.len() ==> s[i].0@ != k,
    ensures
        key_map(s).contains_key(k) == key_map(s.take(j)).contains_key(k),
        key_map(s).contains_key(k) ==> key_map(s)[k] == key_map(s.take(j))[k],
    decreases s.len() - j,
{
    if j < s.len() {
        assert(s.drop_last().take(j) =~= s.take(j));
        lemma_key_map_prefix(s.drop_last(), j, k);
    } else {
        assert(s.take(j) =~= s);
    }
}

/// The key set of the map is the set of the entries' keys.
pub proof fn lemma_key_map_dom<V>(s: Seq<(String, V)>, k: Seq<char>)
    ensures
        key_map(s).contains_key(k) <==> exists|i: int| 0 <= i < s.len() && s[i].0@ == k,
    decreases s.len(),
{
    if s.len() > 0 {
        lemma_key_map_dom(s.drop_last(), k);
        if key_map(s).contains_key(k) && s.last().0@ != k {
            let i = choose|i: int| 0 <= i < s.drop_last().len() && s.drop_last()[i].0@ == k;
            assert(s[i].0@ == k);
        }
        if exists|i: int| 0 <= i < s.len() && s[i].0@ == k {
            let i = choose|i: int| 0 <= i < s.len() && s[i].0@ == k;
            if i < s.len() - 1 {
                assert(s.drop_last()[i].0@ == k);
            }
        }
    }
}

/// Replacing the value of the entry at `idx`, under unique keys, updates the
/// map at that key.
pub proof fn lemma_key_map_update<V>(s: Seq<(String, V)>, idx: int, key: String, v: V)
    requires
        keys_unique(s),
        0 <= idx < s.len(),
        s[idx].0@ == key@,
    ensures
        key_map(s.update(idx, (key, v))) == key_map(s).insert(key@, v),
        keys_unique(s.update(idx, (key, v))),
    decreases s.len(),
{
    let t = s.update(idx, (key, v));
    if idx == s.len() - 1 {
        assert(t.drop_last() =~= s.drop_last());
        assert(key_map(t) =~= key_map(s).insert(key@, v));
    } else {
        assert(t.drop_last() =~= s.drop_last().update(idx, (key, v)));
        lemma_key_map_update(s.drop_last(), idx, key, v);
        assert(s.last().0@ != key@);
        assert(key_map(t) =~= key_map(s).insert(key@, v));
    }
}

/// Looks `key` up: the value that the map holds for it, if any.
pub fn key_map_get<'a, V>(m: &'a KeyMap<V>, key: &String) -> (r: Option<&'a V>)
    ensures
        match r {
            Some(v) => key_map(m@).contains_key(key@) && key_map(m@)[key@] == *v,
            None => !key_map(m@).contains_key(key@),
        },
{
    let mut j = m.len();
    while j > 0
        invariant
            0 <= j <= m@.len(),
            forall|i: int| j <= i < m@.len() ==> m@[i].0@ != key@,
        decreases j,
    {
        if m[j - 1].0 == *key {
            proof {
                lemma_key_map_prefix(m@, j as int, key@);
                assert(m@.take(j as int).drop_last() =~= m@.take(j - 1));
            }
            return Some(&m[j - 1].1);
        }
        j = j - 1;
    }
    proof {
        lemma_key_map_prefix(m@, 0, key@);
        assert(m@.take(0) =~= Seq::<(String, V)>::empty());
    }
    None
}

/// Sets `key` to `value`: replaces the value of the entry with that key, or
/// adds an entry where its key belongs in ascending order.
pub fn key_map_insert<V>(m: &mut KeyMap<V>, key: String, value: V)
    requires
        keys_ascending(old(m)@),
    ensures
        keys_ascending(final(m)@),
        keys_unique(final(m)@),
        key_map(final(m)@) == key_map(old(m)@).insert(key@, value),
        (forall|i: int| 0 <= i < old(m)@.len() ==> seq_less(#[trigger] old(m)@[i].0@, key@)) ==> final(m)@
            == old(m)@.push((key, value)),
        forall|k: Seq<char>|
            entry_keys(final(m)@).contains(k) <==> (entry_keys(old(m)@).contains(k) || k
                == key@),
{
    let mut j: usize = 0;
    while j < m.len() && str_less(m[j].0.as_str(), key.as_str())
        invariant
            0 <= j <= m@.len(),
            m@ == old(m)@,
            keys_ascending(m@),
            forall|i: int| 0 <= i < j ==> seq_less(#[trigger] m@[i].0@, key@),
        decreases m@.len() - j,
    {
        j = j + 1;
    }
    let ghost before = m@;
    if j < m.len() && m[j].0 == key {
        proof {
            lemma_key_map_update(before, j as int, key, value);
        }
        m.set(j, (key, value));
        proof {
            assert(m@ == before.update(j as int, (key, value)));
            assert forall|a: int, b: int| 0 <= a < b < m@.len() implies seq_less(m@[a].0@, m@[b].0@) by {
                assert(before[a].0@ == m@[a].0@);
                assert(before[b].0@ == m@[b].0@);
            };
            assert forall|k: Seq<char>|
                entry_keys(m@).contains(k) <==> (entry_keys(before).contains(k) || k == key@) by {
                if entry_keys(before).contains(k) {
                    let i = choose|i: int| 0 <= i < before.len() && entry_keys(before)[i] == k;
                    assert(entry_keys(m@)[i] == k);
                }
                if entry_keys(m@).contains(k) {
                    let i = choose|i: int| 0 <= i < m@.len() && entry_keys(m@)[i] == k;
                    assert(entry_keys(before)[i] == k);
                }
                if k == key@ {
                    assert(entry_keys(m@)[j as int] == k);
                }
            };
        }
        return ;
    }
    proof {
        assert forall|i: int| j <= i < before.len() implies seq_less(key@, #[trigger] before[i].0@) by {
            lemma_seq_less_total(before[j as int].0@, key@);
            if i > j {
                lemma_seq_less_transitive(key@, before[j as int].0@, before[i].0@);
            }
        };
        assert forall|i: int| 0 <= i < before.len() implies #[trigger] before[i].0@ != key@ by {
            if i < j {
                lemma_seq_less_irreflexive(key@);
            } else {
                lemma_seq_less_irreflexive(key@);
            }
        };
        lemma_key_map_insert_fresh(before, j as int, key, value);
    }
    m.insert(j, (key, value));
    proof {
        let t = m@;
        assert(t =~= before.insert(j as int, (key, value)));
        if forall|i: int| 0 <= i < before.len() ==> seq_less(#[trigger] before[i].0@, key@) {
            if j < before.len() {
                assert(seq_less(before[j as int].0@, key@));
            }
            assert(t =~= before.push((key, value)));
        }
        assert forall|a: int, b: int| 0 <= a < b < t.len() implies seq_less(t[a].0@, t[b].0@) by {
            if b < j {
            } else if b == j {
                assert(t[a] == before[a]);
            } else if a < j {
                assert(t[b] == before[b - 1]);
                lemma_seq_less_transitive(before[a].0@, key@, before[b - 1].0@);
            } else if a == j {
                assert(t[b] == before[b - 1]);
            } else {
                assert(t[a] == before[a - 1]);
                assert(t[b] == before[b - 1]);
            }
        };
        assert forall|a: int, b: int| 0 <= a < b < t.len() implies t[a].0@ != t[b].0@ by {
            lemma_seq_less_irreflexive(t[a].0@);
        };
        assert forall|k: Seq<char>|
            entry_keys(t).contains(k) <==> (entry_keys(before).contains(k) || k == key@) by {
            if entry_keys(before).contains(k) {
                let i = choose|i: int| 0 <= i < before.len() && entry_keys(before)[i] == k;
                if i < j {
                    assert(entry_keys(t)[i] == k);
                } else {
                    assert(entry_keys(t)[i + 1] == k);
                }
            }
            if entry_keys(t).contains(k) {
                let i = choose|i: int| 0 <= i < t.len() && entry_keys(t)[i] == k;
                if i < j {
                    assert(entry_keys(before)[i] == k);
                } else if i > j {
                    assert(entry_keys(before)[i - 1] == k);
                }
            }
            if k == key@ {
                assert(entry_keys(t)[j as int] == k);
            }
        };
    }
}

} // verus!

verus! {

/// Inserting the entries of `s` in order into a map gives the map overridden
/// by the map that `s` stands for.
pub proof fn lemma_key_map_take_step<V>(s: Seq<(String, V)>, j: int)
    requires
        0 <= j < s.len(),
    ensures
        key_map(s.take(j + 1)) == key_map(s.take(j)).insert(s[j].0@, s[j].1),
{
    assert(s.take(j + 1).drop_last() =~= s.take(j));
}

/// Inserts all entries of `src`, in order, into `dst`.
pub fn key_map_append<V>(dst: &mut KeyMap<V>, src: KeyMap<V>)
    requires
        keys_ascending(old(dst)@),
    ensures
        keys_ascending(final(dst)@),
        keys_unique(final(dst)@),
        key_map(final(dst)@) == key_map(old(dst)@).union_prefer_right(key_map(src@)),
{
    let ghost orig = src@;
    let _n = src.len();
    let mut rest = src;
    let mut j: usize = 0;
    while rest.len() > 0
        invariant
            keys_ascending(dst@),
            0 <= j <= orig.len(),
            orig.len() <= usize::MAX,
            rest@ == orig.skip(j as int),
            key_map(dst@) == key_map(old(dst)@).union_prefer_right(key_map(orig.take(j as int))),
        decreases rest@.len(),
    {
        let (k, v) = rest.remove(0);
        proof {
            assert(orig[j as int] == (k, v));
            lemma_key_map_take_step(orig, j as int);
        }
        let ghost before = key_map(dst@);
        key_map_insert(dst, k, v);
        proof {
            assert(key_map(dst@) =~= key_map(old(dst)@).union_prefer_right(
                key_map(orig.take(j + 1)),
            ));
            assert(rest@ =~= orig.skip(j + 1));
        }
        j = j + 1;
    }
    proof {
        assert(orig.take(j as int) =~= orig);
    }
}

} // verus!
