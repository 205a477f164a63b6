//! Sets of task identifiers in increasing order.

use vstd::prelude::*;
use vstd::std_specs::cmp::OrdSpec;

verus! {

broadcast use vstd::laws_cmp::group_laws_cmp;

/// Strictly increasing identifiers.
pub open spec fn is_increasing(q: Seq<u64>) -> bool {
    forall|i: int, j: int| 0 <= i < j < q.len() ==> q[i] < q[j]
}

/// The elements of a finite set of identifiers in increasing order.
pub open spec fn sorted_ids(s: Set<u64>) -> Seq<u64> {
    choose|q: Seq<u64>| is_increasing(q) && q.to_set() == s
}

/// A sequence that a `BTreeSet` of identifiers yields increases.
pub broadcast proof fn lemma_btree_ids_increase(q: Seq<&u64>)
    requires
        vstd::std_specs::btree::increasing_seq(q),
    ensures
        #[trigger] is_increasing(q.unref()),
{
    assert(vstd::laws_cmp::obeys_cmp::<u64>());
    assert(vstd::laws_cmp::obeys_cmp::<&u64>());
    vstd::std_specs::btree::axiom_increasing_seq_meaning::<&u64>(q);
    assert forall|i: int, j: int| 0 <= i < j < q.unref().len() implies q.unref()[i] < q.unref()[j] by {
        assert(OrdSpec::cmp_spec(&q[i], &q[j]) is Less);
    }
}

/// Two strictly increasing sequences with the same elements are equal.
pub proof fn lemma_increasing_unique(a: Seq<u64>, b: Seq<u64>)
    requires
        is_increasing(a),
        is_increasing(b),
        a.to_set() == b.to_set(),
    ensures
        a == b,
    decreases a.len(),
{
    if a.len() == 0 {
        if b.len() > 0 {
            assert(b.to_set().contains(b[0]));
        }
        assert(a =~= b);
    } else {
        assert(a.to_set().contains(a[0]));
        assert(b.len() > 0);
        assert(b.to_set().contains(b[0]));
        assert(b.contains(a[0]));
        assert(a.contains(b[0]));
        let i = choose|i: int| 0 <= i < b.len() && b[i] == a[0];
        let j = choose|j: int| 0 <= j < a.len() && a[j] == b[0];
        assert(a[0] == b[0]);
        let a2 = a.drop_first();
        let b2 = b.drop_first();
        assert forall|x: u64| a2.to_set().contains(x) <==> b2.to_set().contains(x) by {
            if a2.to_set().contains(x) {
                assert(a2.contains(x));
                let k = choose|k: int| 0 <= k < a2.len() && a2[k] == x;
                assert(a[k + 1] == x);
                assert(a.contains(x));
                assert(b.to_set().contains(x));
                assert(b.contains(x));
                let m = choose|m: int| 0 <= m < b.len() && b[m] == x;
                assert(b2[m - 1] == x);
                assert(b2.contains(x));
            }
            if b2.to_set().contains(x) {
                assert(b2.contains(x));
                let k = choose|k: int| 0 <= k < b2.len() && b2[k] == x;
                assert(b[k + 1] == x);
                assert(b.contains(x));
                assert(a.to_set().contains(x));
                assert(a.contains(x));
                let m = choose|m: int| 0 <= m < a.len() && a[m] == x;
                assert(a2[m - 1] == x);
                assert(a2.contains(x));
            }
        }
        assert(a2.to_set() =~= b2.to_set());
        lemma_increasing_unique(a2, b2);
        assert(a =~= seq![a[0]] + a2);
        assert(b =~= seq![b[0]] + b2);
    }
}

/// An increasing sequence of a set's elements is its sorted sequence.
pub proof fn lemma_sorted_ids(q: Seq<u64>, s: Set<u64>)
    requires
        is_increasing(q),
        q.to_set() == s,
    ensures
        sorted_ids(s) == q,
{
    let r = sorted_ids(s);
    assert(is_increasing(r) && r.to_set() == s);
    lemma_increasing_unique(q, r);
}

} // verus!
