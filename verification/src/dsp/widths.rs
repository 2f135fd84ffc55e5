//! What a histogram of widths shows.

use vstd::prelude::*;
#[allow(unused_imports)]
use crate::dsp::pulse::{
    apart, by_center, cluster_of, clusters, count_of, histogram_spec, home_is_first, inserted,
    mean_bounds, means_lie_between, sum_of, Cluster,
};

verus! {

/// Whether groups of widths can be told apart: each is no wider than the
/// tolerance, and further than that from the next.
pub open spec fn parted(g: Seq<(int, int)>, tol: nat) -> bool {
    &&& forall|i: int|
        0 <= i < g.len() ==> 0 <= (#[trigger] g[i]).0 <= g[i].1 <= g[i].0 + tol && g[i].1
            <= u32::MAX
    &&& forall|i: int, j: int| 0 <= i < j < g.len() ==> (#[trigger] g[i]).1 + tol < (#[trigger] g[j]).0
}

/// Whether a width is in a group.
pub open spec fn in_group(w: int, g: Seq<(int, int)>, j: int) -> bool {
    0 <= j < g.len() && g[j].0 <= w <= g[j].1
}

/// Whether a width is in one of the groups.
pub open spec fn grouped(w: int, g: Seq<(int, int)>) -> bool {
    exists|j: int| in_group(w, g, j)
}

/// Whether each cluster is that of the group at its place in `k`, which names
/// every group that has widths once.
spec fn matched(c: Seq<Cluster>, v: Seq<u32>, n: nat, g: Seq<(int, int)>, k: Seq<int>) -> bool {
    &&& k.len() == c.len()
    &&& k.no_duplicates()
    &&& forall|i: int|
        0 <= i < k.len() ==> 0 <= #[trigger] k[i] < g.len() && c[i] == cluster_of(
            v,
            n,
            g[k[i]].0,
            g[k[i]].1,
        ) && c[i].count > 0
    &&& forall|j: int|
        0 <= j < g.len() && count_of(v, n, (#[trigger] g[j]).0, g[j].1) > 0 ==> k.contains(j)
}

proof fn groups_are_matched(v: Seq<u32>, tol: nat, n: nat, g: Seq<(int, int)>) -> (k: Seq<int>)
    requires
        n <= v.len(),
        parted(g, tol),
        forall|i: int| 0 <= i < n ==> grouped(#[trigger] v[i] as int, g),
    ensures
        matched(clusters(v, tol, n), v, n, g, k),
    decreases n,
{
    if n == 0 {
        let k = Seq::<int>::empty();
        assert(clusters(v, tol, n).len() == 0);
        k
    } else {
        let m = (n - 1) as nat;
        let before = groups_are_matched(v, tol, m, g);
        let c = clusters(v, tol, m);
        let d = clusters(v, tol, n);
        let w = v[n - 1] as nat;
        let x = v[n - 1] as int;
        assert(grouped(x, g));
        let j = choose|j: int| in_group(x, g, j);
        // Only the group of the width changes.
        assert forall|i: int| 0 <= i < g.len() && i != j implies cluster_of(
            v,
            n,
            (#[trigger] g[i]).0,
            g[i].1,
        ) == cluster_of(v, m, g[i].0, g[i].1) && count_of(v, n, g[i].0, g[i].1) == count_of(
            v,
            m,
            g[i].0,
            g[i].1,
        ) by {
            if i < j {
                assert(g[i].1 + tol < g[j].0);
            } else {
                assert(g[j].1 + tol < g[i].0);
            }
        }
        // The clusters of the others are too far away for it.
        assert forall|i: int| 0 <= i < c.len() && before[i] != j implies apart(
            w as int,
            (#[trigger] c[i]).center as int,
        ) > tol by {
            let o = before[i];
            means_lie_between(v, m, g[o].0, g[o].1);
            if o < j {
                assert(g[o].1 + tol < g[j].0);
            } else {
                assert(g[j].1 + tol < g[o].0);
            }
        }
        let now = cluster_of(v, n, g[j].0, g[j].1);
        means_lie_between(v, m, g[j].0, g[j].1);
        if before.contains(j) {
            let at = choose|at: int| 0 <= at < before.len() && before[at] == j;
            assert(c[at] == cluster_of(v, m, g[j].0, g[j].1));
            assert(apart(w as int, c[at].center as int) <= tol);
            assert forall|i: int| 0 <= i < at implies apart(w as int, (#[trigger] c[i]).center as int)
                > tol by {
                assert(before[i] != before[at]);
            }
            home_is_first(c, w, tol, 0, at as nat);
            assert(d =~= c.update(at, now));
            assert(matched(d, v, n, g, before));
            before
        } else {
            let k = before.push(j);
            assert(count_of(v, m, g[j].0, g[j].1) == 0);
            assert(sum_of(v, m, g[j].0, g[j].1) == 0) by (nonlinear_arith)
                requires
                    sum_of(v, m, g[j].0, g[j].1) <= g[j].1 * count_of(v, m, g[j].0, g[j].1),
                    count_of(v, m, g[j].0, g[j].1) == 0,
            ;
            vstd::arithmetic::div_mod::lemma_div_basics(w as int);
            assert forall|i: int| 0 <= i < c.len() implies apart(
                w as int,
                (#[trigger] c[i]).center as int,
            ) > tol by {
                assert(before.contains(before[i]));
            }
            home_is_first(c, w, tol, 0, c.len());
            assert(d =~= c.push(now));
            assert(k.no_duplicates()) by {
                assert forall|a: int, b: int| 0 <= a < k.len() && 0 <= b < k.len() && a != b implies k[a]
                    != k[b] by {
                    if a == before.len() {
                        assert(before.contains(before[b]));
                    } else if b == before.len() {
                        assert(before.contains(before[a]));
                    }
                }
            }
            assert forall|i: int| 0 <= i < g.len() && count_of(v, n, (#[trigger] g[i]).0, g[i].1)
                > 0 implies k.contains(i) by {
                if i == j {
                    assert(k[before.len() as int] == j);
                } else {
                    assert(before.contains(i));
                    let at = choose|at: int| 0 <= at < before.len() && before[at] == i;
                    assert(k[at] == i);
                }
            }
            assert(matched(d, v, n, g, k));
            k
        }
    }
}

proof fn inserting_adds_one(c: Seq<Cluster>, x: Cluster)
    ensures
        inserted(c, x).len() == c.len() + 1,
        inserted(c, x).contains(x),
        forall|y: Cluster| c.contains(y) ==> #[trigger] inserted(c, x).contains(y),
    decreases c.len(),
{
    let d = inserted(c, x);
    if c.len() == 0 || c.last().center <= x.center {
        assert(d[c.len() as int] == x);
        assert forall|y: Cluster| c.contains(y) implies #[trigger] d.contains(y) by {
            let i = choose|i: int| 0 <= i < c.len() && c[i] == y;
            assert(d[i] == y);
        }
    } else {
        let e = c.drop_last();
        inserting_adds_one(e, x);
        let f = inserted(e, x);
        let i = choose|i: int| 0 <= i < f.len() && f[i] == x;
        assert(d[i] == x);
        assert forall|y: Cluster| c.contains(y) implies #[trigger] d.contains(y) by {
            let i = choose|i: int| 0 <= i < c.len() && c[i] == y;
            if i < e.len() {
                assert(e[i] == y);
                assert(f.contains(y));
                let k = choose|k: int| 0 <= k < f.len() && f[k] == y;
                assert(d[k] == y);
            } else {
                assert(d[f.len() as int] == y);
            }
        }
    }
}

proof fn ordering_keeps_all(c: Seq<Cluster>)
    ensures
        by_center(c).len() == c.len(),
        forall|y: Cluster| c.contains(y) ==> #[trigger] by_center(c).contains(y),
    decreases c.len(),
{
    if c.len() > 0 {
        let e = c.drop_last();
        ordering_keeps_all(e);
        inserting_adds_one(by_center(e), c.last());
        assert forall|y: Cluster| c.contains(y) implies #[trigger] by_center(c).contains(y) by {
            let i = choose|i: int| 0 <= i < c.len() && c[i] == y;
            if i < e.len() {
                assert(e[i] == y);
                assert(by_center(e).contains(y));
            }
        }
    }
}

/// Whether an entry of a histogram is a group: how many widths are in it, and
/// their mean cut to whole microseconds.
pub open spec fn stands_for(h: (u32, usize), v: Seq<u32>, lo: int, hi: int) -> bool {
    let m = count_of(v, v.len(), lo, hi);
    &&& h.1 == m
    &&& h.0 * m <= sum_of(v, v.len(), lo, hi) < (h.0 + 1) * m
}

/// Whether a histogram has an entry for a group.
pub open spec fn shows(h: Seq<(u32, usize)>, v: Seq<u32>, lo: int, hi: int) -> bool {
    exists|i: int| 0 <= i < h.len() && stands_for(#[trigger] h[i], v, lo, hi)
}

/// Widths of however many kinds show as that many clusters: where all of them lie
/// in groups, each no wider than the tolerance and further than that from the
/// next, the histogram has an entry for each group and no other.
pub proof fn every_kind_of_width_has_a_cluster(v: Seq<u32>, tol: nat, g: Seq<(int, int)>)
    requires
        v.len() <= usize::MAX,
        parted(g, tol),
        forall|i: int| 0 <= i < v.len() ==> grouped(#[trigger] v[i] as int, g),
        forall|j: int|
            0 <= j < g.len() ==> count_of(v, v.len(), (#[trigger] g[j]).0, g[j].1) > 0,
    ensures
        histogram_spec(v, tol).len() == g.len(),
        forall|j: int|
            0 <= j < g.len() ==> shows(histogram_spec(v, tol), v, (#[trigger] g[j]).0, g[j].1),
{
    let n = v.len();
    let k = groups_are_matched(v, tol, n, g);
    let c = clusters(v, tol, n);
    let h = histogram_spec(v, tol);
    ordering_keeps_all(c);
    // As many clusters as groups.
    let all = vstd::set_lib::set_int_range(0, g.len() as int);
    vstd::set_lib::lemma_int_range(0, g.len() as int);
    k.unique_seq_to_set();
    assert(k.to_set() =~= all) by {
        assert forall|j: int| all.contains(j) implies #[trigger] k.to_set().contains(j) by {
            assert(count_of(v, n, g[j].0, g[j].1) > 0);
            assert(k.contains(j));
        }
        assert forall|j: int| k.to_set().contains(j) implies #[trigger] all.contains(j) by {
            assert(k.contains(j));
        }
    }
    assert(h.len() == g.len());
    assert forall|j: int| 0 <= j < g.len() implies shows(h, v, (#[trigger] g[j]).0, g[j].1) by {
        assert(count_of(v, n, g[j].0, g[j].1) > 0);
        assert(k.contains(j));
        let at = choose|at: int| 0 <= at < k.len() && k[at] == j;
        let x = cluster_of(v, n, g[j].0, g[j].1);
        assert(c[at] == x);
        assert(c.contains(x));
        assert(by_center(c).contains(x));
        let i = choose|i: int| 0 <= i < by_center(c).len() && by_center(c)[i] == x;
        means_lie_between(v, n, g[j].0, g[j].1);
        mean_bounds(x.sum, x.count);
        assert(h[i] == (x.center as u32, x.count as usize));
        assert(stands_for(h[i], v, g[j].0, g[j].1));
    }
}

/// Clusters that stand in order stay as they stand, equal ones too.
pub proof fn what_stands_in_order_stays(c: Seq<Cluster>)
    requires
        forall|i: int, j: int| 0 <= i <= j < c.len() ==> c[i].center <= c[j].center,
    ensures
        by_center(c) == c,
    decreases c.len(),
{
    if c.len() > 0 {
        let d = c.drop_last();
        assert forall|i: int, j: int| 0 <= i <= j < d.len() implies d[i].center <= d[j].center by {
            assert(c[i].center <= c[j].center);
        }
        what_stands_in_order_stays(d);
        if d.len() > 0 {
            assert(c[d.len() - 1].center <= c[d.len() as int].center);
        }
        assert(d.push(c.last()) =~= c);
    } else {
        assert(by_center(c) =~= c);
    }
}

} // verus!
