use std::collections::HashMap;
use vstd::prelude::*;
use vstd::std_specs::hash::*;
use vstd::std_specs::iter::IteratorSpec;

verus! {

broadcast use vstd::std_specs::hash::group_hash_axioms;

/// Whether `s` is in ascending order.
pub open spec fn ascending(s: Seq<u64>) -> bool {
    forall|i: int, j: int| 0 <= i <= j < s.len() ==> s[i] <= s[j]
}

/// Whether `vals` lists the values of `m`, once per key, in the order of
/// some enumeration of its keys.
pub open spec fn lists_values(m: Map<u64, u64>, vals: Seq<u64>) -> bool {
    exists|ks: Seq<u64>| #[trigger] enumerates(m, ks, vals)
}

/// Whether `ks` lists the keys of `m` once each, and `vals` their values in
/// the same order.
pub open spec fn enumerates(m: Map<u64, u64>, ks: Seq<u64>, vals: Seq<u64>) -> bool {
    &&& ks.no_duplicates()
    &&& ks.to_set() == m.dom()
    &&& vals == values_at(m, ks)
}

/// The values of `m` at the keys `ks`, in order.
pub open spec fn values_at(m: Map<u64, u64>, ks: Seq<u64>) -> Seq<u64> {
    ks.map_values(|k: u64| m[k])
}

/// Whether `x` is the value at the middle position (`len / 2`) of the
/// values of `m` once sorted in ascending order.
pub open spec fn is_middle_value(m: Map<u64, u64>, x: u64) -> bool {
    exists|vals: Seq<u64>, sorted: Seq<u64>|
        #![trigger lists_values(m, vals), ascending(sorted)]
        lists_values(m, vals) && ascending(sorted) && sorted.to_multiset() == vals.to_multiset()
            && sorted.len() > 0 && x == sorted[(sorted.len() / 2) as int]
}

/// The values of `m`, one per key.
pub fn map_values(m: &HashMap<u64, u64>) -> (vals: Vec<u64>)
    ensures
        lists_values(m@, vals@),
{
    let mut vals: Vec<u64> = Vec::new();
    let ghost mut ks: Seq<u64> = Seq::empty();
    for k in it: m.keys()
        invariant
            ks == it.seq().take(it.index() as int).map_values(|r: &u64| *r),
            vals@ == values_at(m@, ks),
            it.seq() == spec_keys_iter(m).remaining(),
    {
        let v = *m.get(k).unwrap();
        proof {
            ks = ks.push(*k);
        }
        vals.push(v);
    }
    proof {
        let keys = spec_keys_iter(m).remaining();
        assert(keys.unref().to_set() == m@.dom());
        assert(ks =~= keys.map_values(|r: &u64| *r));
        assert(keys.unref() =~= ks);
        assert(enumerates(m@, ks, vals@));
    }
    vals
}

/// `v` sorted in ascending order.
pub fn sort_ascending(v: &Vec<u64>) -> (r: Vec<u64>)
    ensures
        ascending(r@),
        r@.to_multiset() == v@.to_multiset(),
{
    broadcast use vstd::seq_lib::group_to_multiset_ensures;

    let mut r: Vec<u64> = Vec::new();
    let mut i: usize = 0;
    while i < v.len()
        invariant
            i <= v.len(),
            ascending(r@),
            r@.to_multiset() == v@.take(i as int).to_multiset(),
        decreases v.len() - i,
    {
        let x = v[i];
        let mut pos: usize = 0;
        while pos < r.len() && r[pos] <= x
            invariant
                pos <= r.len(),
                forall|j: int| 0 <= j < pos ==> r@[j] <= x,
            decreases r.len() - pos,
        {
            pos = pos + 1;
        }
        let ghost before = r@;
        r.insert(pos, x);
        proof {
            assert(r@ == before.insert(pos as int, x));
            assert forall|a: int, b: int| 0 <= a <= b < r@.len() implies r@[a] <= r@[b] by {
                if b < pos {
                } else if b == pos {
                    assert(a < pos ==> before[a] <= x);
                } else if a > pos {
                    assert(before[a - 1] <= before[b - 1]);
                } else if a == pos {
                    assert(pos < before.len() ==> before[pos as int] > x);
                    assert(before[pos as int] <= before[b - 1]);
                } else {
                    assert(before[a] <= x);
                    assert(pos < before.len() ==> before[pos as int] > x);
                    assert(before[pos as int] <= before[b - 1]);
                }
            }
            assert(v@.take(i + 1) =~= v@.take(i as int).push(x));
            vstd::seq_lib::to_multiset_insert(before, pos as int, x);
            vstd::seq_lib::to_multiset_build(v@.take(i as int), x);
        }
        i = i + 1;
    }
    proof {
        assert(v@.take(v.len() as int) =~= v@);
    }
    r
}

/// The value at the middle position of the sorted values of `m`.
pub fn middle_value(m: &HashMap<u64, u64>) -> (x: u64)
    requires
        m@.len() > 0,
    ensures
        is_middle_value(m@, x),
{
    broadcast use vstd::seq_lib::group_to_multiset_ensures;

    let vals = map_values(m);
    let sorted = sort_ascending(&vals);
    proof {
        let ks = choose|ks: Seq<u64>| enumerates(m@, ks, vals@);
        ks.unique_seq_to_set();
        vstd::seq_lib::to_multiset_len(sorted@);
        vstd::seq_lib::to_multiset_len(vals@);
        assert(sorted@.len() == vals@.len());
    }
    let x = sorted[sorted.len() / 2];
    proof {
        assert(is_middle_value(m@, x));
    }
    x
}

/// Two enumerations of the keys of `m` give the same values, counted with
/// their multiplicity.
proof fn lemma_enumerations_agree(m: Map<u64, u64>, ks1: Seq<u64>, ks2: Seq<u64>)
    requires
        ks1.no_duplicates(),
        ks2.no_duplicates(),
        ks1.to_set() == m.dom(),
        ks2.to_set() == m.dom(),
    ensures
        values_at(m, ks1).to_multiset() == values_at(m, ks2).to_multiset(),
    decreases ks1.len(),
{
    broadcast use vstd::seq_lib::group_to_multiset_ensures;
    broadcast use vstd::set::group_set_axioms;

    if ks1.len() == 0 {
        assert(m.dom() =~= Set::<u64>::empty());
        if ks2.len() > 0 {
            assert(ks2.to_set().contains(ks2[0]));
        }
        assert(values_at(m, ks1) =~= values_at(m, ks2));
    } else {
        let k = ks1.last();
        let ks1r = ks1.drop_last();
        assert(ks1.to_set().contains(k));
        assert(ks2.to_set().contains(k));
        let j = choose|j: int| 0 <= j < ks2.len() && ks2[j] == k;
        let ks2r = ks2.remove(j);
        let mr = m.remove(k);
        assert(ks1r.no_duplicates());
        assert(ks2r.no_duplicates());
        assert(!ks1r.contains(k));
        assert(!ks2r.contains(k));
        assert(ks1r.to_set() =~= mr.dom()) by {
            assert forall|a: u64| ks1r.to_set().contains(a) <==> mr.dom().contains(a) by {
                if ks1r.to_set().contains(a) {
                    let i = choose|i: int| 0 <= i < ks1r.len() && ks1r[i] == a;
                    assert(ks1[i] == a);
                    assert(ks1.to_set().contains(a));
                }
                if mr.dom().contains(a) {
                    assert(ks1.to_set().contains(a));
                    let i = choose|i: int| 0 <= i < ks1.len() && ks1[i] == a;
                    assert(i != ks1.len() - 1);
                    assert(ks1r[i] == a);
                }
            }
        }
        assert(ks2r.to_set() =~= mr.dom()) by {
            assert forall|a: u64| ks2r.to_set().contains(a) <==> mr.dom().contains(a) by {
                if ks2r.to_set().contains(a) {
                    let i = choose|i: int| 0 <= i < ks2r.len() && ks2r[i] == a;
                    if i < j {
                        assert(ks2[i] == a);
                    } else {
                        assert(ks2[i + 1] == a);
                    }
                    assert(ks2.to_set().contains(a));
                }
                if mr.dom().contains(a) {
                    assert(ks2.to_set().contains(a));
                    let i = choose|i: int| 0 <= i < ks2.len() && ks2[i] == a;
                    assert(i != j);
                    if i < j {
                        assert(ks2r[i] == a);
                    } else {
                        assert(ks2r[i - 1] == a);
                    }
                }
            }
        }
        lemma_enumerations_agree(mr, ks1r, ks2r);
        assert(values_at(mr, ks1r) =~= values_at(m, ks1r));
        assert(values_at(mr, ks2r) =~= values_at(m, ks2r));
        assert(values_at(m, ks1) =~= values_at(m, ks1r).push(m[k]));
        assert(values_at(m, ks2) =~= values_at(m, ks2r).insert(j, m[k]));
        vstd::seq_lib::to_multiset_build(values_at(m, ks1r), m[k]);
        vstd::seq_lib::to_multiset_insert(values_at(m, ks2r), j, m[k]);
    }
}

/// Two ascending sequences with the same elements are equal.
proof fn lemma_ascending_unique(a: Seq<u64>, b: Seq<u64>)
    requires
        ascending(a),
        ascending(b),
        a.to_multiset() == b.to_multiset(),
    ensures
        a == b,
{
    let leq = |x: u64, y: u64| x <= y;
    assert(vstd::relations::total_ordering(leq));
    assert(vstd::relations::sorted_by(a, leq));
    assert(vstd::relations::sorted_by(b, leq));
    vstd::seq_lib::lemma_sorted_unique(a, b, leq);
}

/// The middle value of a map's values is determined by the map: the
/// commit decision does not depend on the order in which keys are visited.
pub proof fn lemma_middle_value_unique(m: Map<u64, u64>, x: u64, y: u64)
    requires
        is_middle_value(m, x),
        is_middle_value(m, y),
    ensures
        x == y,
{
    let (v1, s1) = choose|vals: Seq<u64>, sorted: Seq<u64>|
        #![trigger lists_values(m, vals), ascending(sorted)]
        lists_values(m, vals) && ascending(sorted) && sorted.to_multiset() == vals.to_multiset()
            && sorted.len() > 0 && x == sorted[(sorted.len() / 2) as int];
    let (v2, s2) = choose|vals: Seq<u64>, sorted: Seq<u64>|
        #![trigger lists_values(m, vals), ascending(sorted)]
        lists_values(m, vals) && ascending(sorted) && sorted.to_multiset() == vals.to_multiset()
            && sorted.len() > 0 && y == sorted[(sorted.len() / 2) as int];
    let k1 = choose|ks: Seq<u64>| enumerates(m, ks, v1);
    let k2 = choose|ks: Seq<u64>| enumerates(m, ks, v2);
    lemma_enumerations_agree(m, k1, k2);
    lemma_ascending_unique(s1, s2);
}

} // verus!
