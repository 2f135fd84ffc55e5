//! Ordering levels, for percentiles.

use vstd::prelude::*;
use vstd::seq_lib::lemma_multiset_commutative;

verus! {

/// Whether no level is followed by a lower one.
pub open spec fn in_order(s: Seq<i64>) -> bool {
    forall|i: int, j: int| 0 <= i <= j < s.len() ==> s[i] <= s[j]
}

/// Whether `s` holds the levels of `v`, each as often, in ascending order.
pub open spec fn orders(v: Seq<i64>, s: Seq<i64>) -> bool {
    &&& in_order(s)
    &&& s.to_multiset() == v.to_multiset()
}

/// The levels of `v` in ascending order.
pub open spec fn ordered(v: Seq<i64>) -> Seq<i64> {
    choose|s: Seq<i64>| orders(v, s)
}

/// There is only one ascending order.
pub proof fn order_is_unique(v: Seq<i64>, s: Seq<i64>)
    requires
        orders(v, s),
    ensures
        ordered(v) == s,
{
    let t = ordered(v);
    assert(orders(v, t));
    same_order(s, t);
}

proof fn same_order(s: Seq<i64>, t: Seq<i64>)
    requires
        in_order(s),
        in_order(t),
        s.to_multiset() == t.to_multiset(),
    ensures
        s == t,
{
    let leq = |a: i64, b: i64| a <= b;
    assert(vstd::relations::sorted_by(s, leq));
    assert(vstd::relations::sorted_by(t, leq));
    vstd::seq_lib::lemma_sorted_unique(s, t, leq);
}

/// Where a level is added makes no difference to what is held.
proof fn inserted_anywhere(x: Seq<i64>, y: Seq<i64>, v: i64)
    ensures
        (x.push(v) + y).to_multiset() == (x + y).to_multiset().insert(v),
{
    broadcast use vstd::seq_lib::group_to_multiset_ensures;
    broadcast use vstd::multiset::group_multiset_axioms;

    lemma_multiset_commutative(x, y);
    lemma_multiset_commutative(x.push(v), y);
    assert(x.push(v).to_multiset() =~= x.to_multiset().insert(v));
    assert((x.push(v) + y).to_multiset() =~= (x + y).to_multiset().insert(v));
}

/// Merges two ascending runs.
fn merge(a: &Vec<i64>, b: &Vec<i64>) -> (r: Vec<i64>)
    requires
        in_order(a@),
        in_order(b@),
    ensures
        in_order(r@),
        r@.to_multiset() == (a@ + b@).to_multiset(),
{
    broadcast use vstd::seq_lib::group_to_multiset_ensures;
    broadcast use vstd::multiset::group_multiset_axioms;

    let mut r: Vec<i64> = Vec::new();
    let mut i: usize = 0;
    let mut j: usize = 0;
    proof {
        assert(a@.take(0) + b@.take(0) =~= Seq::<i64>::empty());
    }
    while i < a.len() || j < b.len()
        invariant
            i <= a@.len(),
            j <= b@.len(),
            in_order(a@),
            in_order(b@),
            in_order(r@),
            r@.to_multiset() == (a@.take(i as int) + b@.take(j as int)).to_multiset(),
            forall|k: int, l: int| 0 <= k < r@.len() && i <= l < a@.len() ==> r@[k] <= a@[l],
            forall|k: int, l: int| 0 <= k < r@.len() && j <= l < b@.len() ==> r@[k] <= b@[l],
        decreases a@.len() - i + b@.len() - j,
    {
        let ghost head = a@.take(i as int) + b@.take(j as int);
        let ghost before = r@;
        if j >= b.len() || (i < a.len() && a[i] <= b[j]) {
            r.push(a[i]);
            proof {
                assert(a@.take(i + 1) =~= a@.take(i as int).push(a@[i as int]));
                assert(r@ == before.push(a@[i as int]));
                vstd::seq_lib::to_multiset_build(before, a@[i as int]);
                inserted_anywhere(a@.take(i as int), b@.take(j as int), a@[i as int]);
            }
            i += 1;
        } else {
            r.push(b[j]);
            proof {
                assert(a@.take(i as int) + b@.take(j + 1) =~= head.push(b@[j as int]));
                assert(r@ == before.push(b@[j as int]));
                vstd::seq_lib::to_multiset_build(before, b@[j as int]);
                vstd::seq_lib::to_multiset_build(head, b@[j as int]);
            }
            j += 1;
        }
    }
    proof {
        assert(a@.take(i as int) =~= a@);
        assert(b@.take(j as int) =~= b@);
    }
    r
}

/// The levels in ascending order.
pub fn sort(v: &Vec<i64>) -> (r: Vec<i64>)
    ensures
        r@ == ordered(v@),
        orders(v@, r@),
    decreases v@.len(),
{
    let n: usize = v.len();
    if n <= 1 {
        let mut r: Vec<i64> = Vec::new();
        if n == 1 {
            r.push(v[0]);
        }
        proof {
            assert(r@ =~= v@);
            order_is_unique(v@, r@);
        }
        return r;
    }
    let half: usize = n / 2;
    let left: Vec<i64> = copy(v, 0, half);
    let right: Vec<i64> = copy(v, half, n);
    let a: Vec<i64> = sort(&left);
    let b: Vec<i64> = sort(&right);
    let r: Vec<i64> = merge(&a, &b);
    proof {
        assert(left@ + right@ =~= v@);
        lemma_multiset_commutative(left@, right@);
        lemma_multiset_commutative(a@, b@);
        order_is_unique(v@, r@);
    }
    r
}

/// The levels from `from` up to `to`.
fn copy(v: &Vec<i64>, from: usize, to: usize) -> (r: Vec<i64>)
    requires
        from <= to <= v@.len(),
    ensures
        r@ == v@.subrange(from as int, to as int),
{
    let mut r: Vec<i64> = Vec::new();
    let mut i: usize = from;
    while i < to
        invariant
            from <= i <= to <= v@.len(),
            r@ == v@.subrange(from as int, i as int),
        decreases to - i,
    {
        r.push(v[i]);
        i += 1;
        assert(r@ =~= v@.subrange(from as int, i as int));
    }
    r
}

} // verus!
