//! Pulse extraction: turning a keyed carrier into mark/gap timings.
//!
//! Almost every simple transmitter is on-off keyed or two-level FSK, and both
//! reduce to the same thing: how long the carrier was present and how long it
//! was absent. The level estimate that says "present" lives outside; what is
//! made of it, sample by sample, is decided here on integers.

use vstd::prelude::*;
use crate::fixed::Micro;

verus! {

/// One mark/gap pair, in microseconds.
#[derive(Clone, Copy, Debug, PartialEq, Eq, Structural)]
pub struct Pulse {
    /// Carrier present.
    pub mark: u32,
    /// Carrier absent. The final gap of a package is the timeout that ended
    /// it, and carries no information.
    pub gap: u32,
}

/// A complete burst: the pulses between two long silences.
#[derive(Debug, PartialEq, Eq)]
pub struct Package {
    pub pulses: Vec<Pulse>,
    /// Estimated SNR of the burst, in dB.
    pub snr_db: Micro,
    /// Sample index where the burst started.
    pub start_sample: u64,
    /// Samples per second of the envelope that it was cut from.
    pub rate: Micro,
}

/// Marks and gaps added up.
pub open spec fn air_time(p: Seq<Pulse>) -> nat
    decreases p.len(),
{
    if p.len() == 0 {
        0
    } else {
        air_time(p.drop_last()) + p.last().mark as nat + p.last().gap as nat
    }
}

/// The marks of pulses.
pub open spec fn marks(p: Seq<Pulse>) -> Seq<u32> {
    Seq::new(p.len(), |i: int| p[i].mark)
}

/// The gaps of pulses, without the one that ended the package.
pub open spec fn inner_gaps(p: Seq<Pulse>) -> Seq<u32> {
    Seq::new(
        if p.len() == 0 {
            0
        } else {
            (p.len() - 1) as nat
        },
        |i: int| p[i].gap,
    )
}

/// A cluster of widths: its centre, how many fell into it, and their sum.
pub struct Cluster {
    pub center: nat,
    pub count: nat,
    pub sum: nat,
}

/// How far apart two widths are.
pub open spec fn apart(a: int, b: int) -> int {
    if a > b {
        a - b
    } else {
        b - a
    }
}

/// Index of the first cluster within `tol` of `v`, from `i` on.
pub open spec fn home(c: Seq<Cluster>, v: nat, tol: nat, i: nat) -> nat
    decreases c.len() - i,
{
    if i >= c.len() {
        c.len()
    } else if apart(v as int, c[i as int].center as int) <= tol {
        i
    } else {
        home(c, v, tol, i + 1)
    }
}

/// The clusters after one more width: it joins the first cluster near enough,
/// whose centre becomes the mean of its members, or it opens a new one.
pub open spec fn joined(c: Seq<Cluster>, v: nat, tol: nat) -> Seq<Cluster> {
    let k = home(c, v, tol, 0);
    if k < c.len() {
        let old = c[k as int];
        c.update(
            k as int,
            Cluster {
                center: (old.sum + v) / (old.count + 1),
                count: old.count + 1,
                sum: old.sum + v,
            },
        )
    } else {
        c.push(Cluster { center: v, count: 1, sum: v })
    }
}

/// The clusters of the first `n` widths.
pub open spec fn clusters(v: Seq<u32>, tol: nat, n: nat) -> Seq<Cluster>
    decreases n,
{
    if n == 0 {
        Seq::empty()
    } else {
        joined(clusters(v, tol, (n - 1) as nat), v[n - 1] as nat, tol)
    }
}

/// Insertion of a cluster into clusters ordered by centre, behind its equals.
pub open spec fn inserted(c: Seq<Cluster>, x: Cluster) -> Seq<Cluster>
    decreases c.len(),
{
    if c.len() == 0 || c.last().center <= x.center {
        c.push(x)
    } else {
        inserted(c.drop_last(), x).push(c.last())
    }
}

/// Clusters ordered by centre, equals in the order in which they stood.
pub open spec fn by_center(c: Seq<Cluster>) -> Seq<Cluster>
    decreases c.len(),
{
    if c.len() == 0 {
        Seq::empty()
    } else {
        inserted(by_center(c.drop_last()), c.last())
    }
}

/// Centre and count of each cluster, by ascending centre.
pub open spec fn histogram_spec(v: Seq<u32>, tol: nat) -> Seq<(u32, usize)> {
    let c = by_center(clusters(v, tol, v.len()));
    Seq::new(c.len(), |i: int| (c[i].center as u32, c[i].count as usize))
}

/// A cluster in machine integers.
struct Bucket {
    center: u32,
    count: usize,
    sum: u128,
}

impl Bucket {
    spec fn view(self) -> Cluster {
        Cluster { center: self.center as nat, count: self.count as nat, sum: self.sum as nat }
    }
}

spec fn buckets_view(b: Seq<Bucket>) -> Seq<Cluster> {
    Seq::new(b.len(), |i: int| b[i]@)
}

/// Every cluster holds at least one width and its centre is within reach.
spec fn sound(c: Seq<Cluster>, n: nat) -> bool {
    forall|i: int|
        0 <= i < c.len() ==> {
            &&& 1 <= (#[trigger] c[i]).count <= n
            &&& c[i].sum <= c[i].count * 0xffff_ffff
        }
}

pub(crate) proof fn home_is_first(c: Seq<Cluster>, v: nat, tol: nat, i: nat, k: nat)
    requires
        i <= k <= c.len(),
        forall|j: int|
            i <= j < k ==> apart(v as int, (#[trigger] c[j]).center as int) > tol,
        k < c.len() ==> apart(v as int, c[k as int].center as int) <= tol,
    ensures
        home(c, v, tol, i) == k,
    decreases k - i,
{
    if i < k {
        assert(apart(v as int, c[i as int].center as int) > tol);
        home_is_first(c, v, tol, i + 1, k);
    }
}

/// Clusters widths that lie within `tol_us` of each other.
pub fn histogram(vals: &[u32], tol_us: u32) -> (r: Vec<(u32, usize)>)
    ensures
        r@ == histogram_spec(vals@, tol_us as nat),
{
    let mut buckets: Vec<Bucket> = Vec::new();
    let mut i: usize = 0;
    assert(buckets_view(buckets@) =~= clusters(vals@, tol_us as nat, 0));
    while i < vals.len()
        invariant
            i <= vals@.len(),
            buckets_view(buckets@) == clusters(vals@, tol_us as nat, i as nat),
            sound(buckets_view(buckets@), i as nat),
        decreases vals@.len() - i,
    {
        let v: u32 = vals[i];
        let ghost before = buckets_view(buckets@);
        let mut k: usize = 0;
        while k < buckets.len() && !near(v, buckets[k].center, tol_us)
            invariant
                k <= buckets@.len(),
                before == buckets_view(buckets@),
                forall|j: int|
                    0 <= j < k ==> apart(v as int, (#[trigger] before[j]).center as int) > tol_us,
            decreases buckets@.len() - k,
        {
            assert(before[k as int] == buckets@[k as int]@);
            k += 1;
        }
        proof {
            if k < before.len() {
                assert(before[k as int] == buckets@[k as int]@);
            }
            home_is_first(before, v as nat, tol_us as nat, 0, k as nat);
        }
        if k < buckets.len() {
            assert(before[k as int] == buckets@[k as int]@);
            let count: usize = buckets[k].count + 1;
            let old_sum: u128 = buckets[k].sum;
            assert(old_sum <= buckets@[k as int].count * 0xffff_ffff);
            let sum: u128 = old_sum + v as u128;
            assert(sum <= count * 0xffff_ffff) by (nonlinear_arith)
                requires
                    old_sum <= (count - 1) * 0xffff_ffff,
                    sum == old_sum + v,
                    v <= 0xffff_ffff,
            ;
            let mean: u128 = sum / count as u128;
            assert(mean <= 0xffff_ffff) by (nonlinear_arith)
                requires
                    sum <= count * 0xffff_ffff,
                    mean == sum as int / count as int,
                    count >= 1,
            ;
            buckets.set(k, Bucket { center: mean as u32, count, sum });
        } else {
            buckets.push(Bucket { center: v, count: 1, sum: v as u128 });
        }
        i += 1;
        assert(buckets_view(buckets@) =~= clusters(vals@, tol_us as nat, i as nat));
    }
    let mut sorted: Vec<Bucket> = Vec::new();
    let ghost all = buckets_view(buckets@);
    let mut n: usize = 0;
    assert(buckets_view(sorted@) =~= by_center(all.take(0)));
    while n < buckets.len()
        invariant
            n <= buckets@.len(),
            all == buckets_view(buckets@),
            buckets_view(sorted@) == by_center(all.take(n as int)),
        decreases buckets@.len() - n,
    {
        let b: Bucket = Bucket {
            center: buckets[n].center,
            count: buckets[n].count,
            sum: buckets[n].sum,
        };
        assert(all.take(n + 1).drop_last() =~= all.take(n as int));
        assert(b@ == all[n as int]);
        insert_bucket(&mut sorted, b);
        n += 1;
    }
    assert(all.take(n as int) =~= all);
    let mut out: Vec<(u32, usize)> = Vec::new();
    let mut m: usize = 0;
    while m < sorted.len()
        invariant
            m <= sorted@.len(),
            buckets_view(sorted@) == by_center(all),
            out@.len() == m,
            forall|j: int|
                0 <= j < m ==> #[trigger] out@[j] == (
                    by_center(all)[j].center as u32,
                    by_center(all)[j].count as usize,
                ),
        decreases sorted@.len() - m,
    {
        assert(by_center(all)[m as int] == sorted@[m as int]@);
        out.push((sorted[m].center, sorted[m].count));
        m += 1;
    }
    assert(out@ =~= histogram_spec(vals@, tol_us as nat));
    out
}

/// Whether two widths lie within `tol` of each other.
fn near(a: u32, b: u32, tol: u32) -> (r: bool)
    ensures
        r == (apart(a as int, b as int) <= tol),
{
    if a > b {
        a - b <= tol
    } else {
        b - a <= tol
    }
}

/// Inserts behind every bucket whose centre is not greater.
fn insert_bucket(sorted: &mut Vec<Bucket>, b: Bucket)
    ensures
        buckets_view(final(sorted)@) == inserted(buckets_view(old(sorted)@), b@),
{
    let ghost c = buckets_view(sorted@);
    let mut at: usize = sorted.len();
    proof {
        assert(c.take(at as int) =~= c);
        assert(inserted(c, b@) + c.skip(at as int) =~= inserted(c, b@));
    }
    while at > 0 && sorted[at - 1].center > b.center
        invariant
            at <= sorted@.len(),
            c == buckets_view(sorted@),
            c == buckets_view(old(sorted)@),
            inserted(c, b@) == inserted(c.take(at as int), b@) + c.skip(at as int),
        decreases at,
    {
        proof {
            let head = c.take(at as int);
            assert(head.last() == sorted@[at - 1]@);
            assert(head.drop_last() =~= c.take(at - 1));
            assert(inserted(c.take(at - 1), b@).push(head.last()) + c.skip(at as int) =~= inserted(
                c.take(at - 1),
                b@,
            ) + c.skip(at - 1));
        }
        at -= 1;
    }
    proof {
        let head = c.take(at as int);
        if at > 0 {
            assert(head.last() == sorted@[at - 1]@);
        }
        assert(inserted(head, b@) == head.push(b@));
    }
    sorted.insert(at, b);
    assert(buckets_view(sorted@) =~= c.take(at as int).push(b@) + c.skip(at as int));
}

/// Counts of clusters added up.
pub open spec fn counted(c: Seq<Cluster>) -> nat
    decreases c.len(),
{
    if c.len() == 0 {
        0
    } else {
        counted(c.drop_last()) + c.last().count
    }
}

/// Counts of a histogram added up.
pub open spec fn tally(h: Seq<(u32, usize)>) -> nat
    decreases h.len(),
{
    if h.len() == 0 {
        0
    } else {
        tally(h.drop_last()) + h.last().1 as nat
    }
}

proof fn counting_one_up(c: Seq<Cluster>, k: int, x: Cluster)
    requires
        0 <= k < c.len(),
        x.count == c[k].count + 1,
    ensures
        counted(c.update(k, x)) == counted(c) + 1,
    decreases c.len(),
{
    let d = c.update(k, x);
    if k == c.len() - 1 {
        assert(d.drop_last() =~= c.drop_last());
    } else {
        assert(d.drop_last() =~= c.drop_last().update(k, x));
        counting_one_up(c.drop_last(), k, x);
    }
}

proof fn home_bound(c: Seq<Cluster>, v: nat, tol: nat, i: nat)
    requires
        i <= c.len(),
    ensures
        i <= home(c, v, tol, i) <= c.len(),
    decreases c.len() - i,
{
    if i < c.len() {
        home_bound(c, v, tol, i + 1);
    }
}

proof fn clusters_count(v: Seq<u32>, tol: nat, n: nat)
    ensures
        counted(clusters(v, tol, n)) == n,
    decreases n,
{
    if n > 0 {
        clusters_count(v, tol, (n - 1) as nat);
        let c = clusters(v, tol, (n - 1) as nat);
        let w = v[n - 1] as nat;
        let k = home(c, w, tol, 0);
        home_bound(c, w, tol, 0);
        if k < c.len() {
            let old = c[k as int];
            counting_one_up(
                c,
                k as int,
                Cluster {
                    center: (old.sum + w) / (old.count + 1),
                    count: old.count + 1,
                    sum: old.sum + w,
                },
            );
        } else {
            let x = Cluster { center: w, count: 1, sum: w };
            assert(c.push(x).drop_last() =~= c);
        }
    }
}

proof fn inserting_counts(c: Seq<Cluster>, x: Cluster)
    ensures
        counted(inserted(c, x)) == counted(c) + x.count,
        inserted(c, x).len() == c.len() + 1,
    decreases c.len(),
{
    if c.len() == 0 || c.last().center <= x.center {
        assert(c.push(x).drop_last() =~= c);
    } else {
        inserting_counts(c.drop_last(), x);
        let t = inserted(c.drop_last(), x);
        assert(t.push(c.last()).drop_last() =~= t);
    }
}

proof fn ordering_counts(c: Seq<Cluster>)
    ensures
        counted(by_center(c)) == counted(c),
        by_center(c).len() == c.len(),
    decreases c.len(),
{
    if c.len() > 0 {
        ordering_counts(c.drop_last());
        inserting_counts(by_center(c.drop_last()), c.last());
    }
}

/// Whether centres never fall from one cluster to the next.
pub open spec fn ascending(c: Seq<Cluster>) -> bool {
    forall|i: int, j: int| 0 <= i <= j < c.len() ==> c[i].center <= c[j].center
}

proof fn inserting_keeps_order(c: Seq<Cluster>, x: Cluster)
    requires
        ascending(c),
    ensures
        ascending(inserted(c, x)),
    decreases c.len(),
{
    if c.len() == 0 || c.last().center <= x.center {
        assert forall|i: int, j: int| 0 <= i <= j < c.push(x).len() implies c.push(x)[i].center
            <= c.push(x)[j].center by {
            if j == c.len() && i < j {
                assert(c[i].center <= c[c.len() - 1].center);
            }
        }
    } else {
        let d = c.drop_last();
        assert(ascending(d));
        inserting_keeps_order(d, x);
        let t = inserted(d, x);
        assert forall|i: int| 0 <= i < d.len() implies (#[trigger] d[i]).center
            <= c.last().center by {
            assert(c[i].center <= c[c.len() - 1].center);
        }
        let f = |y: Cluster| y.center <= c.last().center;
        assert forall|i: int| 0 <= i < d.len() implies f(#[trigger] d[i]) by {}
        insertion_keeps_members(d, x, f);
        assert forall|i: int| 0 <= i < t.len() implies (#[trigger] t[i]).center
            <= c.last().center by {
            assert(f(t[i]));
        }
        assert(ascending(t.push(c.last())));
    }
}

proof fn ordering_orders(c: Seq<Cluster>)
    ensures
        ascending(by_center(c)),
    decreases c.len(),
{
    if c.len() > 0 {
        ordering_orders(c.drop_last());
        inserting_keeps_order(by_center(c.drop_last()), c.last());
    }
}

proof fn clusters_fit(v: Seq<u32>, tol: nat, n: nat)
    requires
        n <= v.len(),
    ensures
        forall|i: int|
            0 <= i < clusters(v, tol, n).len() ==> {
                &&& 1 <= (#[trigger] clusters(v, tol, n)[i]).count <= n
                &&& clusters(v, tol, n)[i].sum <= clusters(v, tol, n)[i].count * 0xffff_ffff
                &&& clusters(v, tol, n)[i].center <= 0xffff_ffff
            },
    decreases n,
{
    if n > 0 {
        clusters_fit(v, tol, (n - 1) as nat);
        let c = clusters(v, tol, (n - 1) as nat);
        let w = v[n - 1] as nat;
        let k = home(c, w, tol, 0);
        home_bound(c, w, tol, 0);
        if k < c.len() {
            let old = c[k as int];
            let sum = old.sum + w;
            let count = old.count + 1;
            assert(sum <= count * 0xffff_ffff);
            assert(sum / count <= 0xffff_ffff) by (nonlinear_arith)
                requires
                    sum <= count * 0xffff_ffff,
                    count >= 1,
            ;
        }
    }
}

proof fn insertion_keeps_members(c: Seq<Cluster>, x: Cluster, f: spec_fn(Cluster) -> bool)
    requires
        f(x),
        forall|i: int| 0 <= i < c.len() ==> f(#[trigger] c[i]),
    ensures
        forall|i: int| 0 <= i < inserted(c, x).len() ==> f(#[trigger] inserted(c, x)[i]),
    decreases c.len(),
{
    if c.len() == 0 || c.last().center <= x.center {
    } else {
        assert forall|i: int| 0 <= i < c.drop_last().len() implies f(
            #[trigger] c.drop_last()[i],
        ) by {
            assert(c.drop_last()[i] == c[i]);
        }
        insertion_keeps_members(c.drop_last(), x, f);
    }
    let t = inserted(c, x);
    assert forall|i: int| 0 <= i < t.len() implies f(#[trigger] t[i]) by {
        if c.len() == 0 || c.last().center <= x.center {
            if i < c.len() {
                assert(t[i] == c[i]);
            }
        } else {
            let u = inserted(c.drop_last(), x);
            if i < u.len() {
                assert(t[i] == u[i]);
            } else {
                assert(t[i] == c[c.len() - 1]);
            }
        }
    }
}

proof fn ordering_keeps_members(c: Seq<Cluster>, f: spec_fn(Cluster) -> bool)
    requires
        forall|i: int| 0 <= i < c.len() ==> f(#[trigger] c[i]),
    ensures
        forall|i: int| 0 <= i < by_center(c).len() ==> f(#[trigger] by_center(c)[i]),
    decreases c.len(),
{
    if c.len() > 0 {
        assert forall|i: int| 0 <= i < c.drop_last().len() implies f(
            #[trigger] c.drop_last()[i],
        ) by {
            assert(c.drop_last()[i] == c[i]);
        }
        ordering_keeps_members(c.drop_last(), f);
        insertion_keeps_members(by_center(c.drop_last()), c.last(), f);
    }
}

proof fn tally_is_count(c: Seq<Cluster>, h: Seq<(u32, usize)>)
    requires
        h.len() == c.len(),
        forall|i: int| 0 <= i < c.len() ==> (#[trigger] h[i]).1 as nat == c[i].count,
    ensures
        tally(h) == counted(c),
    decreases c.len(),
{
    if c.len() > 0 {
        assert(h[c.len() - 1].1 as nat == c.last().count);
        assert forall|i: int| 0 <= i < c.drop_last().len() implies (
        #[trigger] h.drop_last()[i]).1 as nat == c.drop_last()[i].count by {
            assert(h[i].1 as nat == c[i].count);
        }
        tally_is_count(c.drop_last(), h.drop_last());
    }
}

/// A histogram counts every width exactly once, holds no empty cluster, and
/// lists its clusters by ascending centre.
pub proof fn histogram_is_complete(v: Seq<u32>, tol: nat)
    requires
        v.len() <= usize::MAX,
    ensures
        tally(histogram_spec(v, tol)) == v.len(),
        forall|i: int|
            0 <= i < histogram_spec(v, tol).len() ==> (#[trigger] histogram_spec(v, tol)[i]).1 >= 1,
        forall|i: int, j: int|
            0 <= i <= j < histogram_spec(v, tol).len() ==> histogram_spec(v, tol)[i].0
                <= histogram_spec(v, tol)[j].0,
{
    let c = clusters(v, tol, v.len());
    let s = by_center(c);
    let h = histogram_spec(v, tol);
    clusters_count(v, tol, v.len());
    ordering_counts(c);
    ordering_orders(c);
    clusters_fit(v, tol, v.len());
    let f = |x: Cluster| 1 <= x.count <= v.len() && x.center <= 0xffff_ffff;
    assert forall|i: int| 0 <= i < c.len() implies f(#[trigger] c[i]) by {}
    ordering_keeps_members(c, f);
    assert forall|i: int| 0 <= i < s.len() implies (#[trigger] h[i]).1 as nat == s[i].count
        && h[i].0 as nat == s[i].center && h[i].1 >= 1 by {
        assert(f(s[i]));
    }
    tally_is_count(s, h);
    assert forall|i: int, j: int| 0 <= i <= j < h.len() implies h[i].0 <= h[j].0 by {
        assert(h[i].0 as nat == s[i].center);
        assert(h[j].0 as nat == s[j].center);
    }
}

impl Clone for Package {
    fn clone(&self) -> (r: Package)
        ensures
            r.pulses@ == self.pulses@,
            r.snr_db == self.snr_db,
            r.start_sample == self.start_sample,
            r.rate == self.rate,
    {
        let pulses: Vec<Pulse> = self.pulses.clone();
        assert(pulses@ =~= self.pulses@);
        Package { pulses, snr_db: self.snr_db, start_sample: self.start_sample, rate: self.rate }
    }
}

impl Default for Package {
    fn default() -> (r: Package)
        ensures
            r.pulses@ == Seq::<Pulse>::empty(),
            r.snr_db@ == 0,
            r.start_sample == 0,
            r.rate@ == 0,
    {
        Package::empty()
    }
}

impl Package {
    /// A burst of nothing.
    pub fn empty() -> (r: Package)
        ensures
            r.pulses@ == Seq::<Pulse>::empty(),
            r.snr_db@ == 0,
            r.start_sample == 0,
            r.rate@ == 0,
    {
        Package { pulses: Vec::new(), snr_db: Micro(0), start_sample: 0, rate: Micro(0) }
    }

    pub fn len(&self) -> (r: usize)
        ensures
            r == self.pulses@.len(),
    {
        self.pulses.len()
    }

    pub fn is_empty(&self) -> (r: bool)
        ensures
            r == (self.pulses@.len() == 0),
    {
        self.pulses.len() == 0
    }

    /// Total on-air duration in microseconds, excluding the trailing timeout.
    pub fn duration_us(&self) -> (r: u64)
        requires
            air_time(self.pulses@) <= u64::MAX,
        ensures
            r == air_time(self.pulses@) - (if self.pulses@.len() == 0 {
                0
            } else {
                self.pulses@.last().gap as int
            }),
    {
        let mut sum: u64 = 0;
        let mut i: usize = 0;
        assert(self.pulses@.take(0) =~= Seq::<Pulse>::empty());
        while i < self.pulses.len()
            invariant
                i <= self.pulses@.len(),
                sum == air_time(self.pulses@.take(i as int)),
                air_time(self.pulses@) <= u64::MAX,
            decreases self.pulses@.len() - i,
        {
            proof {
                assert(self.pulses@.take(i + 1).drop_last() =~= self.pulses@.take(i as int));
                air_time_grows(self.pulses@, i + 1);
            }
            sum = sum + self.pulses[i].mark as u64 + self.pulses[i].gap as u64;
            i += 1;
        }
        assert(self.pulses@.take(i as int) =~= self.pulses@);
        if self.pulses.len() == 0 {
            0
        } else {
            sum - self.pulses[self.pulses.len() - 1].gap as u64
        }
    }

    /// Histogram of mark widths, bucketed to `tol_us`. A PWM signal shows two
    /// clear clusters, a PPM signal shows one.
    pub fn mark_histogram(&self, tol_us: u32) -> (r: Vec<(u32, usize)>)
        ensures
            r@ == histogram_spec(marks(self.pulses@), tol_us as nat),
    {
        let mut v: Vec<u32> = Vec::new();
        let mut i: usize = 0;
        while i < self.pulses.len()
            invariant
                i <= self.pulses@.len(),
                v@ == marks(self.pulses@).take(i as int),
            decreases self.pulses@.len() - i,
        {
            v.push(self.pulses[i].mark);
            i += 1;
            assert(v@ =~= marks(self.pulses@).take(i as int));
        }
        assert(v@ =~= marks(self.pulses@));
        histogram(v.as_slice(), tol_us)
    }

    /// Histogram of gap widths. The trailing gap is a timeout, not signal, so
    /// it is left out.
    pub fn gap_histogram(&self, tol_us: u32) -> (r: Vec<(u32, usize)>)
        ensures
            r@ == histogram_spec(inner_gaps(self.pulses@), tol_us as nat),
    {
        let n: usize = self.pulses.len().saturating_sub(1);
        let mut v: Vec<u32> = Vec::new();
        let mut i: usize = 0;
        while i < n
            invariant
                i <= n,
                n == inner_gaps(self.pulses@).len(),
                n <= self.pulses@.len(),
                v@ == inner_gaps(self.pulses@).take(i as int),
            decreases n - i,
        {
            v.push(self.pulses[i].gap);
            i += 1;
            assert(v@ =~= inner_gaps(self.pulses@).take(i as int));
        }
        assert(v@ =~= inner_gaps(self.pulses@));
        histogram(v.as_slice(), tol_us)
    }
}

proof fn air_time_grows(p: Seq<Pulse>, n: int)
    requires
        0 <= n <= p.len(),
    ensures
        air_time(p.take(n)) <= air_time(p),
    decreases p.len() - n,
{
    if n < p.len() {
        air_time_grows(p, n + 1);
        assert(p.take(n + 1).drop_last() =~= p.take(n));
    } else {
        assert(p.take(n) =~= p);
    }
}

/// How many of the first `n` widths lie from `lo` to `hi`.
pub open spec fn count_of(v: Seq<u32>, n: nat, lo: int, hi: int) -> nat
    decreases n,
{
    if n == 0 {
        0
    } else {
        count_of(v, (n - 1) as nat, lo, hi) + if lo <= v[n - 1] <= hi {
            1nat
        } else {
            0
        }
    }
}

/// What those widths add up to.
pub open spec fn sum_of(v: Seq<u32>, n: nat, lo: int, hi: int) -> nat
    decreases n,
{
    if n == 0 {
        0
    } else {
        sum_of(v, (n - 1) as nat, lo, hi) + if lo <= v[n - 1] <= hi {
            v[n - 1] as nat
        } else {
            0
        }
    }
}

/// The cluster of the widths from `lo` to `hi`: how many there are, and their mean.
pub open spec fn cluster_of(v: Seq<u32>, n: nat, lo: int, hi: int) -> Cluster {
    Cluster {
        center: sum_of(v, n, lo, hi) / count_of(v, n, lo, hi),
        count: count_of(v, n, lo, hi),
        sum: sum_of(v, n, lo, hi),
    }
}

pub(crate) proof fn means_lie_between(v: Seq<u32>, n: nat, lo: int, hi: int)
    requires
        0 <= lo <= hi,
    ensures
        lo * count_of(v, n, lo, hi) <= sum_of(v, n, lo, hi) <= hi * count_of(v, n, lo, hi),
        count_of(v, n, lo, hi) <= n,
        count_of(v, n, lo, hi) > 0 ==> lo <= cluster_of(v, n, lo, hi).center <= hi,
    decreases n,
{
    let (c, t) = (count_of(v, n, lo, hi) as int, sum_of(v, n, lo, hi) as int);
    if n > 0 {
        means_lie_between(v, (n - 1) as nat, lo, hi);
        let d = count_of(v, (n - 1) as nat, lo, hi) as int;
        assert(lo * (d + 1) == lo * d + lo && hi * (d + 1) == hi * d + hi) by (nonlinear_arith);
    } else {
        assert(lo * 0 == 0 && hi * 0 == 0);
    }
    if c > 0 {
        assert(lo <= t / c <= hi) by (nonlinear_arith)
            requires
                lo * c <= t <= hi * c,
                c > 0,
        ;
    }
}

/// Whether clusters are those of two groups of widths, as far as there are any.
spec fn two_groups(c: Seq<Cluster>, v: Seq<u32>, n: nat, a: (int, int), b: (int, int)) -> bool {
    let (x, y) = (cluster_of(v, n, a.0, a.1), cluster_of(v, n, b.0, b.1));
    if x.count == 0 && y.count == 0 {
        c == Seq::<Cluster>::empty()
    } else if y.count == 0 {
        c == seq![x]
    } else if x.count == 0 {
        c == seq![y]
    } else {
        c == seq![x, y] || c == seq![y, x]
    }
}

proof fn groups_make_clusters(v: Seq<u32>, tol: nat, n: nat, a: (int, int), b: (int, int))
    requires
        n <= v.len(),
        0 <= a.0 <= a.1 <= a.0 + tol,
        a.1 + tol < b.0 <= b.1 <= b.0 + tol,
        forall|i: int|
            0 <= i < n ==> a.0 <= #[trigger] v[i] <= a.1 || b.0 <= v[i] <= b.1,
    ensures
        two_groups(clusters(v, tol, n), v, n, a, b),
    decreases n,
{
    if n == 0 {
        assert(clusters(v, tol, n) =~= Seq::empty());
    } else {
        let m = (n - 1) as nat;
        groups_make_clusters(v, tol, m, a, b);
        means_lie_between(v, m, a.0, a.1);
        means_lie_between(v, m, b.0, b.1);
        let c = clusters(v, tol, m);
        let w = v[n - 1] as nat;
        assert(a.0 <= v[n - 1] <= a.1 || b.0 <= v[n - 1] <= b.1);
        let (x, y) = (cluster_of(v, m, a.0, a.1), cluster_of(v, m, b.0, b.1));
        let g = if w <= a.1 {
            a
        } else {
            b
        };
        let was = cluster_of(v, m, g.0, g.1);
        let now = cluster_of(v, n, g.0, g.1);
        if was.count > 0 {
            let k: nat = if c[0] == was && apart(w as int, c[0].center as int) <= tol {
                0
            } else {
                1
            };
            assert(apart(w as int, was.center as int) <= tol);
            assert(k < c.len() && c[k as int] == was);
            home_is_first(c, w, tol, 0, k);
            assert(joined(c, w, tol) =~= c.update(k as int, now));
        } else {
            home_is_first(c, w, tol, 0, c.len());
            vstd::arithmetic::div_mod::lemma_div_basics(w as int);
            assert(now == (Cluster { center: w, count: 1, sum: w })) by {
                assert(count_of(v, m, g.0, g.1) == 0);
                assert(sum_of(v, m, g.0, g.1) == 0) by (nonlinear_arith)
                    requires
                        sum_of(v, m, g.0, g.1) <= g.1 * count_of(v, m, g.0, g.1),
                        count_of(v, m, g.0, g.1) == 0,
                ;
            }
        }
        let (x1, y1) = (cluster_of(v, n, a.0, a.1), cluster_of(v, n, b.0, b.1));
        let d = clusters(v, tol, n);
        if g == a {
            assert(y1 == y);
        } else {
            assert(x1 == x);
        }
        if x1.count == 0 {
            assert(d =~= seq![y1]);
        } else if y1.count == 0 {
            assert(d =~= seq![x1]);
        } else {
            assert(d =~= seq![x1, y1] || d =~= seq![y1, x1]);
        }
    }
}

/// Widths of two kinds show as two clusters: where all of them lie in two groups,
/// each no wider than the tolerance and further than that from the other, the
/// histogram holds how many there are of each and their mean, the shorter first.
/// So it tells the two marks of a pulse-width code apart.
pub proof fn two_widths_make_two_clusters(v: Seq<u32>, tol: nat, a: (int, int), b: (int, int))
    requires
        v.len() <= usize::MAX,
        0 <= a.0 <= a.1 <= a.0 + tol,
        a.1 + tol < b.0 <= b.1 <= b.0 + tol,
        b.1 <= u32::MAX,
        forall|i: int|
            0 <= i < v.len() ==> a.0 <= #[trigger] v[i] <= a.1 || b.0 <= v[i] <= b.1,
        count_of(v, v.len(), a.0, a.1) > 0,
        count_of(v, v.len(), b.0, b.1) > 0,
    ensures
        ({
            let n = v.len();
            let (m, k) = (count_of(v, n, a.0, a.1), count_of(v, n, b.0, b.1));
            let h = histogram_spec(v, tol);
            &&& h.len() == 2
            &&& h[0].1 == m && h[1].1 == k
            &&& h[0].0 * m <= sum_of(v, n, a.0, a.1) < (h[0].0 + 1) * m
            &&& h[1].0 * k <= sum_of(v, n, b.0, b.1) < (h[1].0 + 1) * k
        }),
{
    let n = v.len();
    groups_make_clusters(v, tol, n, a, b);
    means_lie_between(v, n, a.0, a.1);
    means_lie_between(v, n, b.0, b.1);
    let c = clusters(v, tol, n);
    let (x, y) = (cluster_of(v, n, a.0, a.1), cluster_of(v, n, b.0, b.1));
    reveal_with_fuel(by_center, 3);
    reveal_with_fuel(inserted, 3);
    assert(c.drop_last().drop_last() =~= Seq::empty());
    assert(by_center(c) =~= seq![x, y]);
    mean_bounds(x.sum, x.count);
    mean_bounds(y.sum, y.count);
}

/// Widths of one kind show as one cluster.
pub proof fn one_width_makes_one_cluster(v: Seq<u32>, tol: nat, lo: int, hi: int)
    requires
        0 < v.len() <= usize::MAX,
        0 <= lo <= hi <= lo + tol,
        hi <= u32::MAX,
        forall|i: int| 0 <= i < v.len() ==> lo <= #[trigger] v[i] <= hi,
    ensures
        ({
            let n = v.len();
            let h = histogram_spec(v, tol);
            &&& h.len() == 1
            &&& h[0].1 == n
            &&& h[0].0 * n <= sum_of(v, n, lo, hi) < (h[0].0 + 1) * n
        }),
{
    let n = v.len();
    let far = (hi + tol + 1, hi + tol + 1);
    groups_make_clusters(v, tol, n, (lo, hi), far);
    all_are_counted(v, n, lo, hi);
    none_are_counted(v, n, lo, hi, far.0);
    means_lie_between(v, n, lo, hi);
    let x = cluster_of(v, n, lo, hi);
    let c = clusters(v, tol, n);
    reveal_with_fuel(by_center, 2);
    assert(c.drop_last() =~= Seq::empty());
    assert(by_center(c) =~= seq![x]);
    mean_bounds(x.sum, x.count);
}

pub(crate) proof fn mean_bounds(sum: nat, count: nat)
    requires
        count > 0,
    ensures
        (sum / count) * count <= sum < (sum / count + 1) * count,
{
    vstd::arithmetic::div_mod::lemma_fundamental_div_mod(sum as int, count as int);
    let q = sum as int / count as int;
    assert(count as int * q == q * count && (q + 1) * count == q * count + count)
        by (nonlinear_arith);
}

proof fn all_are_counted(v: Seq<u32>, n: nat, lo: int, hi: int)
    requires
        n <= v.len(),
        forall|i: int| 0 <= i < v.len() ==> lo <= #[trigger] v[i] <= hi,
    ensures
        count_of(v, n, lo, hi) == n,
    decreases n,
{
    if n > 0 {
        all_are_counted(v, (n - 1) as nat, lo, hi);
        assert(lo <= v[n - 1] <= hi);
    }
}

proof fn none_are_counted(v: Seq<u32>, n: nat, lo: int, hi: int, at: int)
    requires
        n <= v.len(),
        at > hi,
        forall|i: int| 0 <= i < v.len() ==> lo <= #[trigger] v[i] <= hi,
    ensures
        count_of(v, n, at, at) == 0,
    decreases n,
{
    if n > 0 {
        none_are_counted(v, (n - 1) as nat, lo, hi, at);
        assert(lo <= v[n - 1] <= hi);
    }
}

/// What a list of widths adds up to.
pub open spec fn sum_all(v: Seq<u32>) -> nat
    decreases v.len(),
{
    if v.len() == 0 {
        0
    } else {
        sum_all(v.drop_last()) + v.last() as nat
    }
}

/// A burst lasts as long as its marks and the gaps between them: the timeout that
/// ended it does not count.
pub proof fn bursts_last_from_first_to_last_mark(p: Seq<Pulse>)
    requires
        p.len() > 0,
    ensures
        air_time(p) - p.last().gap == sum_all(marks(p)) + sum_all(inner_gaps(p)),
        marks(p).len() == p.len(),
        inner_gaps(p).len() == p.len() - 1,
        forall|i: int| 0 <= i < p.len() ==> #[trigger] marks(p)[i] == p[i].mark,
        forall|i: int| 0 <= i < p.len() - 1 ==> #[trigger] inner_gaps(p)[i] == p[i].gap,
    decreases p.len(),
{
    let head = p.drop_last();
    assert(marks(p).drop_last() =~= marks(head));
    if head.len() > 0 {
        bursts_last_from_first_to_last_mark(head);
        assert(inner_gaps(p).drop_last() =~= inner_gaps(head));
        assert(inner_gaps(p).last() == head.last().gap);
    } else {
        assert(air_time(head) == 0);
        assert(sum_all(marks(head)) == 0);
        assert(inner_gaps(p) =~= Seq::empty());
    }
}

} // verus!
