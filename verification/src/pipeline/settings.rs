//! Settings that a stage is built from.

use vstd::prelude::*;
use crate::fixed::Micro;
use crate::pipeline::param::ParamValue;
#[allow(unused_imports)]
use crate::pipeline::param::{integer, number, truth, ValueView};
use crate::text::same;

verus! {

/// Values by name, each name once.
#[derive(Debug)]
pub struct Settings {
    entries: Vec<(String, ParamValue)>,
}

/// Whether `m` is what a list of distinct names and values says.
pub open spec fn tells(e: Seq<(String, ParamValue)>, m: Map<Seq<char>, ValueView>) -> bool {
    &&& forall|i: int|
        0 <= i < e.len() ==> #[trigger] m.contains_key(e[i].0@) && m[e[i].0@] == e[i].1@
    &&& forall|k: Seq<char>| #[trigger]
        m.contains_key(k) ==> exists|i: int| 0 <= i < e.len() && (#[trigger] e[i]).0@ == k
}

/// The map that a list of names and values is, where a later one of the same
/// name replaces an earlier one.
pub open spec fn map_of(e: Seq<(String, ParamValue)>) -> Map<Seq<char>, ValueView>
    decreases e.len(),
{
    if e.len() == 0 {
        Map::empty()
    } else {
        map_of(e.drop_last()).insert(e.last().0@, e.last().1@)
    }
}

/// Whether no name occurs twice.
pub open spec fn distinct(e: Seq<(String, ParamValue)>) -> bool {
    forall|i: int, j: int|
        0 <= i < e.len() && 0 <= j < e.len() && i != j ==> (#[trigger] e[i]).0@ != (
        #[trigger] e[j]).0@
}

impl View for Settings {
    type V = Map<Seq<char>, ValueView>;

    closed spec fn view(&self) -> Map<Seq<char>, ValueView> {
        map_of(self.entries@)
    }
}

proof fn map_is_told(e: Seq<(String, ParamValue)>)
    requires
        distinct(e),
    ensures
        tells(e, map_of(e)),
    decreases e.len(),
{
    if e.len() > 0 {
        let head = e.drop_last();
        assert(distinct(head)) by {
            assert forall|i: int, j: int|
                0 <= i < head.len() && 0 <= j < head.len() && i != j implies (
            #[trigger] head[i]).0@ != (#[trigger] head[j]).0@ by {
                assert(e[i].0@ != e[j].0@);
            }
        }
        map_is_told(head);
        let m = map_of(e);
        assert forall|i: int| 0 <= i < e.len() implies #[trigger] m.contains_key(e[i].0@)
            && m[e[i].0@] == e[i].1@ by {
            if i < head.len() {
                assert(e[i].0@ != e[e.len() - 1].0@);
                assert(head[i] == e[i]);
                assert(map_of(head).contains_key(head[i].0@));
            }
        }
        assert forall|k: Seq<char>| #[trigger] m.contains_key(k) implies exists|i: int|
            0 <= i < e.len() && (#[trigger] e[i]).0@ == k by {
            if k == e.last().0@ {
                assert(e[e.len() - 1].0@ == k);
            } else {
                assert(map_of(head).contains_key(k));
                let i = choose|i: int| 0 <= i < head.len() && (#[trigger] head[i]).0@ == k;
                assert(e[i] == head[i]);
            }
        }
    }
}

impl Settings {
    pub closed spec fn wf(&self) -> bool {
        distinct(self.entries@)
    }

    pub fn new() -> (r: Settings)
        ensures
            r.wf(),
            r@ == Map::<Seq<char>, ValueView>::empty(),
    {
        Settings { entries: Vec::new() }
    }

    /// Sets one value, replacing any that the name had.
    pub fn insert(&mut self, key: &str, v: ParamValue)
        requires
            old(self).wf(),
        ensures
            final(self).wf(),
            final(self)@ == old(self)@.insert(key@, v@),
    {
        let n: usize = self.entries.len();
        let mut i: usize = 0;
        let ghost before = self.entries@;
        while i < n
            invariant
                n == self.entries@.len(),
                i <= n,
                self.entries@ == before,
                *self == *old(self),
                distinct(before),
                forall|k: int| 0 <= k < i ==> (#[trigger] before[k]).0@ != key@,
            decreases n - i,
        {
            if same(self.entries[i].0.as_str(), key) {
                self.entries.set(i, (key.to_owned(), v));
                proof {
                    let now = self.entries@;
                    assert forall|a: int, b: int|
                        0 <= a < now.len() && 0 <= b < now.len() && a != b implies (
                    #[trigger] now[a]).0@ != (#[trigger] now[b]).0@ by {
                        assert(before[a].0@ != before[b].0@);
                    }
                    map_is_told(before);
                    map_is_told(now);
                    told_maps_agree(before, now, i as int, key@, v@);
                }
                return;
            }
            i += 1;
        }
        self.entries.push((key.to_owned(), v));
        proof {
            let now = self.entries@;
            assert(now.drop_last() =~= before);
            assert forall|a: int, b: int|
                0 <= a < now.len() && 0 <= b < now.len() && a != b implies (#[trigger] now[a]).0@
                != (#[trigger] now[b]).0@ by {
                if a < before.len() && b < before.len() {
                    assert(before[a].0@ != before[b].0@);
                } else if a < before.len() {
                    assert(before[a].0@ != key@);
                } else {
                    assert(before[b].0@ != key@);
                }
            }
        }
    }

    /// The value of a name.
    pub fn get(&self, key: &str) -> (r: Option<&ParamValue>)
        requires
            self.wf(),
        ensures
            match r {
                Some(v) => self@.contains_key(key@) && self@[key@] == v@,
                None => !self@.contains_key(key@),
            },
    {
        proof {
            map_is_told(self.entries@);
        }
        let mut i: usize = 0;
        while i < self.entries.len()
            invariant
                i <= self.entries@.len(),
                tells(self.entries@, self@),
                forall|k: int| 0 <= k < i ==> (#[trigger] self.entries@[k]).0@ != key@,
            decreases self.entries@.len() - i,
        {
            if same(self.entries[i].0.as_str(), key) {
                assert(self@.contains_key(self.entries@[i as int].0@));
                return Some(&self.entries[i].1);
            }
            i += 1;
        }
        None
    }

    /// How many names have a value.
    pub fn len(&self) -> (r: usize)
        ensures
            self.wf() ==> r == self@.dom().len(),
    {
        proof {
            if self.wf() {
                map_is_as_long(self.entries@);
            }
        }
        self.entries.len()
    }
}

impl Clone for Settings {
    fn clone(&self) -> (r: Settings)
        ensures
            r@ == self@,
            self.wf() ==> r.wf(),
    {
        let n: usize = self.entries.len();
        let mut entries: Vec<(String, ParamValue)> = Vec::new();
        let mut i: usize = 0;
        assert(self.entries@.take(0) =~= Seq::empty());
        while i < n
            invariant
                n == self.entries@.len(),
                i <= n,
                entries@.len() == i,
                forall|k: int|
                    0 <= k < i ==> (#[trigger] entries@[k]).0@ == self.entries@[k].0@,
                map_of(entries@) == map_of(self.entries@.take(i as int)),
            decreases n - i,
        {
            let ghost earlier = entries@;
            entries.push((self.entries[i].0.as_str().to_owned(), self.entries[i].1.clone()));
            assert(entries@.drop_last() =~= earlier);
            assert(self.entries@.take(i + 1).drop_last() =~= self.entries@.take(i as int));
            i += 1;
        }
        assert(self.entries@.take(n as int) =~= self.entries@);
        proof {
            if self.wf() {
                assert forall|a: int, b: int|
                    0 <= a < entries@.len() && 0 <= b < entries@.len() && a != b implies (
                #[trigger] entries@[a]).0@ != (#[trigger] entries@[b]).0@ by {
                    assert(self.entries@[a].0@ != self.entries@[b].0@);
                }
            }
        }
        Settings { entries }
    }
}

proof fn map_is_as_long(e: Seq<(String, ParamValue)>)
    requires
        distinct(e),
    ensures
        map_of(e).dom().finite(),
        map_of(e).dom().len() == e.len(),
    decreases e.len(),
{
    if e.len() > 0 {
        let head = e.drop_last();
        assert(distinct(head)) by {
            assert forall|i: int, j: int|
                0 <= i < head.len() && 0 <= j < head.len() && i != j implies (
            #[trigger] head[i]).0@ != (#[trigger] head[j]).0@ by {
                assert(e[i].0@ != e[j].0@);
            }
        }
        map_is_as_long(head);
        map_is_told(head);
        let key = e.last().0@;
        if map_of(head).contains_key(key) {
            let i = choose|i: int| 0 <= i < head.len() && (#[trigger] head[i]).0@ == key;
            assert(e[i].0@ != e[e.len() - 1].0@);
        }
        assert(map_of(e).dom() =~= map_of(head).dom().insert(key));
    } else {
        assert(map_of(e).dom() =~= Set::empty());
    }
}

proof fn told_maps_agree(
    before: Seq<(String, ParamValue)>,
    now: Seq<(String, ParamValue)>,
    at: int,
    key: Seq<char>,
    v: ValueView,
)
    requires
        distinct(before),
        distinct(now),
        tells(before, map_of(before)),
        tells(now, map_of(now)),
        0 <= at < before.len(),
        now.len() == before.len(),
        before[at].0@ == key,
        now[at].0@ == key,
        now[at].1@ == v,
        forall|i: int| 0 <= i < now.len() && i != at ==> #[trigger] now[i] == before[i],
    ensures
        map_of(now) == map_of(before).insert(key, v),
{
    let a = map_of(now);
    let b = map_of(before).insert(key, v);
    assert forall|k: Seq<char>| #[trigger] a.contains_key(k) == b.contains_key(k) by {
        if a.contains_key(k) {
            let i = choose|i: int| 0 <= i < now.len() && (#[trigger] now[i]).0@ == k;
            if i != at {
                assert(map_of(before).contains_key(before[i].0@));
            }
        }
        if b.contains_key(k) && k != key {
            let i = choose|i: int| 0 <= i < before.len() && (#[trigger] before[i]).0@ == k;
            assert(now[i] == before[i]);
            assert(a.contains_key(now[i].0@));
        }
        if k == key {
            assert(a.contains_key(now[at].0@));
        }
    }
    assert forall|k: Seq<char>| #[trigger] a.contains_key(k) implies a[k] == b[k] by {
        let i = choose|i: int| 0 <= i < now.len() && (#[trigger] now[i]).0@ == k;
        assert(a.contains_key(now[i].0@));
        if i != at {
            assert(now[i] == before[i]);
            assert(map_of(before).contains_key(before[i].0@));
            assert(now[i].0@ != now[at].0@);
        }
    }
    assert(a =~= b);
}

/// The number of a name, in millionths, or a default.
pub open spec fn number_or(m: Map<Seq<char>, ValueView>, key: Seq<char>, default: int) -> int {
    if m.contains_key(key) && number(m[key]) is Some {
        number(m[key])->0
    } else {
        default
    }
}

/// The integer of a name, or a default.
pub open spec fn integer_or(m: Map<Seq<char>, ValueView>, key: Seq<char>, default: int) -> int {
    if m.contains_key(key) && integer(m[key]) is Some {
        integer(m[key])->0
    } else {
        default
    }
}

/// The truth value of a name, or a default.
pub open spec fn truth_or(m: Map<Seq<char>, ValueView>, key: Seq<char>, default: bool) -> bool {
    if m.contains_key(key) && truth(m[key]) is Some {
        truth(m[key])->0
    } else {
        default
    }
}

/// The text of a name, or a default.
pub open spec fn text_or(
    m: Map<Seq<char>, ValueView>,
    key: Seq<char>,
    default: Seq<char>,
) -> Seq<char> {
    if m.contains_key(key) && m[key] is Str {
        m[key]->Str_0
    } else {
        default
    }
}

/// Pulling typed settings out with a default.
pub trait SettingsExt {
    spec fn ready(&self) -> bool;

    spec fn values(&self) -> Map<Seq<char>, ValueView>;

    fn f64_or(&self, key: &str, default: Micro) -> (r: Micro)
        requires
            self.ready(),
        ensures
            r@ == number_or(self.values(), key@, default@),
    ;

    fn i64_or(&self, key: &str, default: i64) -> (r: i64)
        requires
            self.ready(),
        ensures
            r == integer_or(self.values(), key@, default as int),
    ;

    fn bool_or(&self, key: &str, default: bool) -> (r: bool)
        requires
            self.ready(),
        ensures
            r == truth_or(self.values(), key@, default),
    ;

    fn str_or<'a>(&'a self, key: &str, default: &'a str) -> (r: &'a str)
        requires
            self.ready(),
        ensures
            r@ == text_or(self.values(), key@, default@),
    ;
}

impl SettingsExt for Settings {
    open spec fn ready(&self) -> bool {
        self.wf()
    }

    open spec fn values(&self) -> Map<Seq<char>, ValueView> {
        self@
    }

    fn f64_or(&self, key: &str, default: Micro) -> (r: Micro) {
        match self.get(key) {
            Some(v) => match v.as_f64() {
                Some(x) => x,
                None => default,
            },
            None => default,
        }
    }

    fn i64_or(&self, key: &str, default: i64) -> (r: i64) {
        match self.get(key) {
            Some(v) => match v.as_i64() {
                Some(n) => n,
                None => default,
            },
            None => default,
        }
    }

    fn bool_or(&self, key: &str, default: bool) -> (r: bool) {
        match self.get(key) {
            Some(v) => match v.as_bool() {
                Some(b) => b,
                None => default,
            },
            None => default,
        }
    }

    fn str_or<'a>(&'a self, key: &str, default: &'a str) -> (r: &'a str) {
        match self.get(key) {
            Some(v) => match v.as_str() {
                Some(s) => s,
                None => default,
            },
            None => default,
        }
    }
}

} // verus!
