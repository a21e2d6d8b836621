//! Group ids in ascending order.

use std::collections::HashSet;
use vstd::prelude::*;

verus! {

broadcast use vstd::std_specs::hash::group_hash_axioms;

/// Whether each id is smaller than the ones after it.
pub open spec fn strictly_increasing(ids: Seq<u64>) -> bool {
    forall|i: int, j: int| 0 <= i < j < ids.len() ==> ids[i] < ids[j]
}

/// The ids of a finite set in ascending order: the strictly increasing
/// sequence whose elements are the ids of the set.
pub open spec fn ascending(ids: Set<u64>) -> Seq<u64> {
    choose|order: Seq<u64>| strictly_increasing(order) && order.to_set() == ids
}

/// Two strictly increasing sequences with the same elements are the same
/// sequence.
pub proof fn lemma_increasing_unique(a: Seq<u64>, b: Seq<u64>)
    requires
        strictly_increasing(a),
        strictly_increasing(b),
        a.to_set() == b.to_set(),
    ensures
        a == b,
    decreases a.len(),
{
    if a.len() == 0 {
        if b.len() > 0 {
            assert(b.to_set().contains(b[0]));
            assert(a.to_set().contains(b[0]));
        }
        assert(a =~= b);
    } else {
        assert(a.to_set().contains(a[0]));
        assert(b.to_set().contains(a[0]));
        let ia = choose|i: int| 0 <= i < b.len() && b[i] == a[0];
        assert(b.to_set().contains(b[0]));
        assert(a.to_set().contains(b[0]));
        let ib = choose|i: int| 0 <= i < a.len() && a[i] == b[0];
        assert(a[0] == b[0]);
        let ra = a.drop_first();
        let rb = b.drop_first();
        lemma_rest_increasing(a);
        lemma_rest_increasing(b);
        assert(ra.to_set() =~= rb.to_set());
        lemma_increasing_unique(ra, rb);
        assert(a =~= seq![a[0]] + ra);
        assert(b =~= seq![b[0]] + rb);
    }
}

/// Without its first element, a strictly increasing sequence is still
/// strictly increasing, and holds the same elements but the first.
pub proof fn lemma_rest_increasing(ids: Seq<u64>)
    requires
        strictly_increasing(ids),
        ids.len() > 0,
    ensures
        strictly_increasing(ids.drop_first()),
        ids.drop_first().to_set() == ids.to_set().remove(ids[0]),
{
    let rest = ids.drop_first();
    assert forall|i: int, j: int| 0 <= i < j < rest.len() implies rest[i] < rest[j] by {
        assert(rest[i] == ids[i + 1]);
        assert(rest[j] == ids[j + 1]);
    }
    assert forall|id: u64| rest.to_set().contains(id) implies ids.to_set().remove(
        ids[0],
    ).contains(id) by {
        let j = choose|j: int| 0 <= j < rest.len() && rest[j] == id;
        assert(ids[j + 1] == id);
    }
    assert forall|id: u64| ids.to_set().remove(ids[0]).contains(id) implies rest.to_set().contains(
        id,
    ) by {
        let j = choose|j: int| 0 <= j < ids.len() && ids[j] == id;
        assert(rest[j - 1] == id);
    }
    assert(rest.to_set() =~= ids.to_set().remove(ids[0]));
}

/// A strictly increasing sequence is the ascending order of its elements.
pub proof fn lemma_ascending_of(ids: Seq<u64>)
    requires
        strictly_increasing(ids),
    ensures
        ascending(ids.to_set()) == ids,
{
    let order = ascending(ids.to_set());
    lemma_increasing_unique(order, ids);
}

/// The empty set has the empty order.
pub proof fn lemma_ascending_of_none()
    ensures
        ascending(Set::<u64>::empty()) == Seq::<u64>::empty(),
{
    assert(Seq::<u64>::empty().to_set() =~= Set::<u64>::empty());
    lemma_ascending_of(Seq::<u64>::empty());
}

/// A set of one id has the order that holds just that id.
pub proof fn lemma_ascending_of_one(id: u64)
    ensures
        seq![id].to_set() == set![id],
        ascending(set![id]) == seq![id],
{
    let order = seq![id];
    assert(order[0] == id);
    assert forall|x: u64| order.to_set().contains(x) implies x == id by {
        let k = choose|k: int| 0 <= k < order.len() && order[k] == x;
    }
    assert(order.to_set() =~= set![id]);
    lemma_ascending_of(order);
}

/// Puts `id` at its place in a strictly increasing list, unless the list
/// holds it already.
fn insert_sorted(ids: &mut Vec<u64>, id: u64)
    requires
        strictly_increasing(old(ids)@),
    ensures
        strictly_increasing(final(ids)@),
        final(ids)@.to_set() == old(ids)@.to_set().insert(id),
{
    let ghost before = ids@;
    let mut at: usize = 0;
    while at < ids.len() && ids[at] < id
        invariant
            ids@ == before,
            at <= ids.len(),
            forall|k: int| 0 <= k < at ==> ids@[k] < id,
        decreases ids.len() - at,
    {
        at += 1;
    }
    if at == ids.len() || ids[at] != id {
        ids.insert(at, id);
        assert(ids@[at as int] == id);
        assert forall|x: u64| ids@.to_set().contains(x) implies before.to_set().insert(
            id,
        ).contains(x) by {
            let j = choose|j: int| 0 <= j < ids@.len() && ids@[j] == x;
            if j < at {
                assert(before[j] == x);
            } else if j > at {
                assert(before[j - 1] == x);
            }
        }
        assert forall|x: u64| before.to_set().insert(id).contains(x) implies ids@.to_set().contains(
            x,
        ) by {
            if x != id {
                let j = choose|j: int| 0 <= j < before.len() && before[j] == x;
                if j < at {
                    assert(ids@[j] == x);
                } else {
                    assert(ids@[j + 1] == x);
                }
            }
        }
        assert(ids@.to_set() =~= before.to_set().insert(id));
    } else {
        assert(before.to_set().contains(before[at as int]));
        assert(ids@.to_set() =~= before.to_set().insert(id));
    }
}

/// The ids of the set in ascending order.
pub fn sorted_ids(found: &HashSet<u64>) -> (ids: Vec<u64>)
    ensures
        ids@ == ascending(found@),
        strictly_increasing(ids@),
{
    let mut ids: Vec<u64> = Vec::new();
    for id in it: found.iter()
        invariant
            strictly_increasing(ids@),
            it.seq().unref().to_set() == found@,
            ids@.to_set() == it.seq().unref().take(it.index()).to_set(),
            it.index() == it.seq().len() ==> ids@.to_set() == found@,
    {
        let ghost before = ids@.to_set();
        insert_sorted(&mut ids, *id);
        assert(it.seq().unref().take(it.index() + 1).to_set() == before.insert(*id)) by {
            let all = it.seq().unref();
            let i = it.index();
            assert(all.take(i + 1) =~= all.take(i) + seq![*id]);
            vstd::seq_lib::seq_to_set_distributes_over_add(all.take(i), seq![*id]);
            lemma_ascending_of_one(*id);
            assert(all.take(i).to_set().union(set![*id]) =~= all.take(i).to_set().insert(*id));
        }
        assert(it.index() + 1 == it.seq().len() ==> it.seq().unref().take(it.index() + 1)
            == it.seq().unref()) by {
            if it.index() + 1 == it.seq().len() {
                assert(it.seq().unref().take(it.index() + 1) =~= it.seq().unref());
            }
        }
    }
    proof {
        lemma_ascending_of(ids@);
    }
    ids
}

/// A finite set of ids that is not empty has a largest id.
pub proof fn lemma_has_largest(ids: Set<u64>)
    requires
        ids.finite(),
        ids.len() > 0,
    ensures
        exists|m: u64| ids.contains(m) && forall|id: u64| ids.contains(id) ==> id <= m,
    decreases ids.len(),
{
    let x = ids.choose();
    let rest = ids.remove(x);
    if rest.len() == 0 {
        assert forall|id: u64| ids.contains(id) implies id <= x by {
            if id != x {
                assert(rest.contains(id));
            }
        }
    } else {
        lemma_has_largest(rest);
        let m = choose|m: u64| rest.contains(m) && forall|id: u64| rest.contains(id) ==> id <= m;
        let top = if x > m {
            x
        } else {
            m
        };
        assert forall|id: u64| ids.contains(id) implies id <= top by {
            if id != x {
                assert(rest.contains(id));
            }
        }
        assert(ids.contains(top));
    }
}

/// Every finite set of ids has an ascending order: `ascending` gives a
/// strictly increasing sequence that holds exactly the ids of the set.
pub proof fn lemma_ascending(ids: Set<u64>)
    requires
        ids.finite(),
    ensures
        strictly_increasing(ascending(ids)),
        ascending(ids).to_set() == ids,
        ascending(ids).len() == ids.len(),
    decreases ids.len(),
{
    if ids.len() == 0 {
        let order = Seq::<u64>::empty();
        assert(order.to_set() =~= ids);
        assert(strictly_increasing(order) && order.to_set() == ids);
    } else {
        lemma_has_largest(ids);
        let m = choose|m: u64| ids.contains(m) && forall|id: u64| ids.contains(id) ==> id <= m;
        let rest = ids.remove(m);
        lemma_ascending(rest);
        let below = ascending(rest);
        let order = below.push(m);
        assert forall|i: int, j: int| 0 <= i < j < order.len() implies order[i] < order[j] by {
            assert(below.to_set().contains(below[i]));
            if j < below.len() {
                assert(order[j] == below[j]);
            }
        }
        assert forall|id: u64| order.to_set().contains(id) <==> ids.contains(id) by {
            if order.to_set().contains(id) {
                let k = choose|k: int| 0 <= k < order.len() && order[k] == id;
                if k < below.len() {
                    assert(below.to_set().contains(below[k]));
                }
            }
            if ids.contains(id) {
                if id == m {
                    assert(order[below.len() as int] == m);
                } else {
                    assert(below.to_set().contains(id));
                    let k = choose|k: int| 0 <= k < below.len() && below[k] == id;
                    assert(order[k] == id);
                }
            }
        }
        assert(order.to_set() =~= ids);
        assert(strictly_increasing(order) && order.to_set() == ids);
    }
    let chosen = ascending(ids);
    lemma_increasing_no_duplicates(chosen);
    chosen.unique_seq_to_set();
}

/// A strictly increasing sequence holds no id twice.
pub proof fn lemma_increasing_no_duplicates(ids: Seq<u64>)
    requires
        strictly_increasing(ids),
    ensures
        ids.no_duplicates(),
{
    assert forall|i: int, j: int| 0 <= i < ids.len() && 0 <= j < ids.len() && i != j implies ids[i]
        != ids[j] by {
        if i < j {
            assert(ids[i] < ids[j]);
        } else {
            assert(ids[j] < ids[i]);
        }
    }
}

} // verus!
