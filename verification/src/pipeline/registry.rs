//! Stages by name, so chains can be built from configuration.

use vstd::prelude::*;
use crate::common::Error;
#[allow(unused_imports)]
use crate::nodes::stage::made;
use crate::nodes::stage::{Factory, Stage};
#[allow(unused_imports)]
use crate::pipeline::param::ValueView;
use crate::pipeline::settings::Settings;
use crate::text::{before, quoted, same};
#[allow(unused_imports)]
use crate::text::{debug_text, text_before};

verus! {

/// What is said of a kind of stage.
#[derive(Clone, Copy, Debug, PartialEq, Eq)]
pub struct StageDesc {
    pub name: &'static str,
    pub summary: &'static str,
    /// Grouping: filter, demod, decode or sink.
    pub category: &'static str,
}

/// What is said of a kind of stage, as mathematical values.
pub struct DescView {
    pub name: Seq<char>,
    pub summary: Seq<char>,
    pub category: Seq<char>,
}

impl View for StageDesc {
    type V = DescView;

    open spec fn view(&self) -> DescView {
        DescView { name: self.name@, summary: self.summary@, category: self.category@ }
    }
}

/// Whether names ascend, which makes each occur once.
pub open spec fn ascending<F>(e: Seq<(DescView, F)>) -> bool {
    forall|i: int, j: int|
        0 <= i < j < e.len() ==> text_before((#[trigger] e[i]).0.name, (#[trigger] e[j]).0.name)
}

/// The kind of stage of that name.
pub open spec fn lookup<F>(e: Seq<(DescView, F)>, name: Seq<char>) -> Option<F>
    decreases e.len(),
{
    if e.len() == 0 {
        None
    } else if e.last().0.name == name {
        Some(e.last().1)
    } else {
        lookup(e.drop_last(), name)
    }
}

/// The entries with one more in its place.
pub open spec fn placed<F>(e: Seq<(DescView, F)>, x: (DescView, F)) -> Seq<(DescView, F)>
    decreases e.len(),
{
    if e.len() == 0 || text_before(e.last().0.name, x.0.name) {
        e.push(x)
    } else {
        placed(e.drop_last(), x).push(e.last())
    }
}

/// The entries of one category, in order.
pub open spec fn in_category<F>(e: Seq<(DescView, F)>, cat: Seq<char>) -> Seq<DescView>
    decreases e.len(),
{
    if e.len() == 0 {
        Seq::empty()
    } else if e.last().0.category == cat {
        in_category(e.drop_last(), cat).push(e.last().0)
    } else {
        in_category(e.drop_last(), cat)
    }
}

/// The views of descriptions.
pub open spec fn descs_view(d: Seq<StageDesc>) -> Seq<DescView> {
    Seq::new(d.len(), |i: int| d[i]@)
}

/// The descriptions of entries.
pub open spec fn descs_of<F>(e: Seq<(DescView, F)>) -> Seq<DescView> {
    Seq::new(e.len(), |i: int| e[i].0)
}

/// What builds stages of one kind from settings.
pub trait StageFactory {
    /// What is built.
    type Stage;

    /// What may come of building from those settings: anything, unless a factory
    /// says so here.
    open spec fn makes(
        &self,
        settings: Map<Seq<char>, ValueView>,
        r: Result<Self::Stage, Error>,
    ) -> bool {
        true
    }

    fn build_stage(&self, settings: &Settings) -> (r: Result<Self::Stage, Error>)
        requires
            settings.wf(),
        ensures
            self.makes(settings@, r),
    ;
}

impl StageFactory for Factory {
    type Stage = Stage;

    open spec fn makes(
        &self,
        settings: Map<Seq<char>, ValueView>,
        r: Result<Stage, Error>,
    ) -> bool {
        r matches Ok(s) && s.wf() && made(*self, settings, s)
    }

    fn build_stage(&self, settings: &Settings) -> (r: Result<Stage, Error>) {
        Ok(self.build(settings))
    }
}

/// Every stage type known, with what builds its stages.
///
/// Registration is explicit, so that it can be told what a program contains.
pub struct Registry<F = Factory> {
    entries: Vec<(StageDesc, F)>,
}

impl<F> View for Registry<F> {
    type V = Seq<(DescView, F)>;

    closed spec fn view(&self) -> Seq<(DescView, F)> {
        Seq::new(self.entries@.len(), |i: int| (self.entries@[i].0@, self.entries@[i].1))
    }
}

/// The order of texts has no ties and no circles.
pub proof fn text_order(a: Seq<char>, b: Seq<char>, c: Seq<char>)
    ensures
        !text_before(a, a),
        text_before(a, b) ==> !text_before(b, a),
        text_before(a, b) && text_before(b, c) ==> text_before(a, c),
        a != b ==> text_before(a, b) || text_before(b, a),
    decreases a.len() + b.len() + c.len(),
{
    if a.len() > 0 && b.len() > 0 {
        let (x, y) = (a.drop_first(), b.drop_first());
        if c.len() > 0 {
            text_order(x, y, c.drop_first());
        } else {
            text_order(x, y, c);
        }
        if a[0] == b[0] && a != b {
            assert(x != y) by {
                if x == y {
                    assert(a =~= b) by {
                        assert forall|i: int| 0 <= i < a.len() implies a[i] == b[i] by {
                            if i > 0 {
                                assert(a[i] == x[i - 1]);
                                assert(b[i] == y[i - 1]);
                            }
                        }
                    }
                }
            }
        }
    } else if a.len() == 0 && b.len() == 0 {
        assert(a =~= b);
    } else if a.len() > 0 {
        text_order(a.drop_first(), b, b);
    }
    if a.len() > 0 {
        text_order(a.drop_first(), Seq::empty(), Seq::empty());
    }
}

proof fn placed_facts<F>(e: Seq<(DescView, F)>, x: (DescView, F))
    requires
        ascending(e),
        lookup(e, x.0.name) is None,
    ensures
        ascending(placed(e, x)),
        placed(e, x).len() == e.len() + 1,
        forall|n: Seq<char>| #[trigger]
            lookup(placed(e, x), n) == if n == x.0.name {
                Some(x.1)
            } else {
                lookup(e, n)
            },
        forall|i: int|
            0 <= i < placed(e, x).len() ==> #[trigger] placed(e, x)[i] == x || e.contains(
                placed(e, x)[i],
            ),
    decreases e.len(),
{
    let p = placed(e, x);
    if e.len() == 0 || text_before(e.last().0.name, x.0.name) {
        assert(p == e.push(x));
        assert(p.drop_last() =~= e);
        assert forall|i: int, j: int| 0 <= i < j < p.len() implies text_before(
            (#[trigger] p[i]).0.name,
            (#[trigger] p[j]).0.name,
        ) by {
            if j == e.len() && i < e.len() - 1 {
                assert(text_before(e[i].0.name, e[e.len() - 1].0.name));
                text_order(e[i].0.name, e.last().0.name, x.0.name);
            }
        }
        assert forall|i: int| 0 <= i < p.len() implies #[trigger] p[i] == x || e.contains(p[i]) by {
            if i < e.len() {
                assert(e[i] == p[i]);
            }
        }
    } else {
        let head = e.drop_last();
        assert forall|i: int, j: int| 0 <= i < j < head.len() implies text_before(
            (#[trigger] head[i]).0.name,
            (#[trigger] head[j]).0.name,
        ) by {
            assert(text_before(e[i].0.name, e[j].0.name));
        }
        placed_facts(head, x);
        let q = placed(head, x);
        assert(p.drop_last() =~= q);
        text_order(e.last().0.name, x.0.name, x.0.name);
        assert(text_before(x.0.name, e.last().0.name));
        assert forall|n: Seq<char>| #[trigger] lookup(p, n) == if n == x.0.name {
            Some(x.1)
        } else {
            lookup(e, n)
        } by {
            assert(lookup(q, n) == if n == x.0.name {
                Some(x.1)
            } else {
                lookup(head, n)
            });
        }
        assert forall|i: int, j: int| 0 <= i < j < p.len() implies text_before(
            (#[trigger] p[i]).0.name,
            (#[trigger] p[j]).0.name,
        ) by {
            if j < q.len() {
                assert(p[i] == q[i] && p[j] == q[j]);
            } else {
                assert(p[i] == q[i]);
                if q[i] != x {
                    let k = choose|k: int| 0 <= k < head.len() && head[k] == q[i];
                    assert(text_before(e[k].0.name, e[e.len() - 1].0.name));
                }
            }
        }
        assert forall|i: int| 0 <= i < p.len() implies #[trigger] p[i] == x || e.contains(p[i]) by {
            if i < q.len() {
                assert(p[i] == q[i]);
                if q[i] != x {
                    let k = choose|k: int| 0 <= k < head.len() && head[k] == q[i];
                    assert(e[k] == p[i]);
                }
            } else {
                assert(e[e.len() - 1] == p[i]);
            }
        }
    }
}

impl<F> Registry<F> {
    /// Whether names ascend.
    pub open spec fn wf(&self) -> bool {
        ascending(self@)
    }

    pub fn new() -> (r: Registry<F>)
        ensures
            r.wf(),
            r@ == Seq::<(DescView, F)>::empty(),
    {
        let r = Registry { entries: Vec::new() };
        assert(r@ =~= Seq::empty());
        r
    }

    /// Adds a kind of stage, whose name must be new.
    pub fn register(&mut self, desc: StageDesc, f: F)
        requires
            old(self).wf(),
            lookup(old(self)@, desc@.name) is None,
        ensures
            final(self).wf(),
            final(self)@ == placed(old(self)@, (desc@, f)),
    {
        let ghost x = (desc@, f);
        let ghost all = self@;
        let mut i: usize = self.entries.len();
        proof {
            placed_facts(all, x);
            assert(all.take(i as int) =~= all);
            assert(placed(all, x) + all.skip(i as int) =~= placed(all, x));
        }
        while i > 0 && !before(self.entries[i - 1].0.name, desc.name)
            invariant
                i <= self.entries@.len(),
                self@ == all,
                x == (desc@, f),
                placed(all.take(i as int), x) + all.skip(i as int) == placed(all, x),
            decreases i,
        {
            proof {
                let head = all.take(i as int);
                let short = all.take(i - 1);
                assert(head.drop_last() =~= short);
                assert(head.last() == all[i - 1]);
                assert(placed(head, x) == placed(short, x).push(all[i - 1]));
                assert(placed(short, x) + all.skip(i - 1) =~= placed(head, x) + all.skip(
                    i as int,
                ));
            }
            i -= 1;
        }
        proof {
            let head = all.take(i as int);
            assert(i > 0 ==> head.last() == all[i - 1]);
            assert(placed(head, x) == head.push(x));
        }
        self.entries.insert(i, (desc, f));
        assert(self@ =~= all.take(i as int).push(x) + all.skip(i as int));
    }

    fn position(&self, name: &str) -> (r: Option<usize>)
        ensures
            match r {
                Some(i) => i < self@.len() && lookup(self@, name@) == Some(self@[i as int].1),
                None => lookup(self@, name@) is None,
            },
    {
        let mut i: usize = self.entries.len();
        assert(self@.take(i as int) =~= self@);
        while i > 0
            invariant
                i <= self@.len(),
                self@.len() == self.entries@.len(),
                lookup(self@, name@) == lookup(self@.take(i as int), name@),
            decreases i,
        {
            proof {
                assert(self@.take(i as int).drop_last() =~= self@.take(i - 1));
                assert(self@.take(i as int).last() == self@[i - 1]);
            }
            i -= 1;
            if same(self.entries[i].0.name, name) {
                return Some(i);
            }
        }
        None
    }

    /// What is said of every kind of stage, by name.
    pub fn list(&self) -> (r: Vec<StageDesc>)
        ensures
            descs_view(r@) == descs_of(self@),
    {
        let mut v: Vec<StageDesc> = Vec::new();
        let n: usize = self.entries.len();
        let mut i: usize = 0;
        while i < n
            invariant
                n == self.entries@.len(),
                n == self@.len(),
                i <= n,
                v@.len() == i,
                descs_view(v@) == descs_of(self@).take(i as int),
            decreases n - i,
        {
            let ghost earlier = v@;
            v.push(self.entries[i].0);
            i += 1;
            assert forall|k: int| 0 <= k < i implies descs_view(v@)[k] == descs_of(self@)[k] by {
                if k < i - 1 {
                    assert(descs_view(earlier)[k] == descs_of(self@).take(i - 1)[k]);
                }
            }
            assert(descs_view(v@) =~= descs_of(self@).take(i as int));
        }
        assert(descs_of(self@).take(n as int) =~= descs_of(self@));
        v
    }

    /// What is said of every kind of stage of a category, by name.
    pub fn by_category(&self, cat: &str) -> (r: Vec<StageDesc>)
        ensures
            descs_view(r@) == in_category(self@, cat@),
    {
        let mut v: Vec<StageDesc> = Vec::new();
        let n: usize = self.entries.len();
        let mut i: usize = 0;
        assert(descs_view(v@) =~= in_category(self@.take(0), cat@));
        while i < n
            invariant
                n == self.entries@.len(),
                n == self@.len(),
                i <= n,
                descs_view(v@) == in_category(self@.take(i as int), cat@),
            decreases n - i,
        {
            let d: StageDesc = self.entries[i].0;
            proof {
                assert(self@.take(i + 1).drop_last() =~= self@.take(i as int));
                assert(self@.take(i + 1).last() == self@[i as int]);
            }
            if same(d.category, cat) {
                v.push(d);
            }
            i += 1;
            assert(descs_view(v@) =~= in_category(self@.take(i as int), cat@));
        }
        assert(self@.take(n as int) =~= self@);
        v
    }

    pub fn contains(&self, name: &str) -> (r: bool)
        ensures
            r == (lookup(self@, name@) is Some),
    {
        self.position(name).is_some()
    }
}

impl<F: StageFactory> Registry<F> {
    /// Builds the stage of that name from settings.
    pub fn build(&self, name: &str, settings: &Settings) -> (r: Result<F::Stage, Error>)
        requires
            settings.wf(),
        ensures
            match lookup(self@, name@) {
                Some(f) => f.makes(settings@, r),
                None => r matches Err(e) && e@ == "no stage registered as "@ + debug_text(name@),
            },
    {
        match self.position(name) {
            Some(i) => self.entries[i].1.build_stage(settings),
            None => {
                let mut s: String = "no stage registered as ".to_owned();
                s.append(quoted(name).as_str());
                Err(Error::other(s))
            },
        }
    }
}

impl<F> Default for Registry<F> {
    fn default() -> (r: Registry<F>)
        ensures
            r.wf(),
            r@ == Seq::<(DescView, F)>::empty(),
    {
        Registry::new()
    }
}

/// A new kind of stage is found by its name, and every other name gives what it
/// gave before.
pub proof fn registering_adds_one_name<F>(
    e: Seq<(DescView, F)>,
    x: (DescView, F),
    name: Seq<char>,
)
    requires
        ascending(e),
        lookup(e, x.0.name) is None,
    ensures
        ascending(placed(e, x)),
        lookup(placed(e, x), name) == if name == x.0.name {
            Some(x.1)
        } else {
            lookup(e, name)
        },
{
    placed_facts(e, x);
}

} // verus!
