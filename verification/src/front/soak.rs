//! What a steady run costs, as the process measures it itself.

use vstd::prelude::*;
use crate::fixed::Micro;
use crate::text::{push_ratio, push_signed_ratio};
#[allow(unused_imports)]
use crate::text::{ratio_text, signed_ratio_text};

verus! {

/// Whether a character is white space.
pub open spec fn space(c: char) -> bool {
    ||| 9 <= c as int <= 13
    ||| c as int == 0x20
    ||| c as int == 0x85
    ||| c as int == 0xa0
    ||| c as int == 0x1680
    ||| 0x2000 <= c as int <= 0x200a
    ||| c as int == 0x2028
    ||| c as int == 0x2029
    ||| c as int == 0x202f
    ||| c as int == 0x205f
    ||| c as int == 0x3000
}

fn is_space(c: char) -> (r: bool)
    ensures
        r == space(c),
{
    let n: u32 = c as u32;
    (9 <= n && n <= 13) || n == 0x20 || n == 0x85 || n == 0xa0 || n == 0x1680 || (0x2000 <= n && n
        <= 0x200a) || n == 0x2028 || n == 0x2029 || n == 0x202f || n == 0x205f || n == 0x3000
}

/// The words between white space.
pub open spec fn words(s: Seq<char>) -> Seq<Seq<char>>
    decreases s.len(),
{
    if s.len() == 0 {
        Seq::empty()
    } else {
        let before = words(s.drop_last());
        if space(s.last()) {
            before
        } else if s.len() == 1 || space(s[s.len() - 2]) {
            before.push(seq![s.last()])
        } else {
            before.drop_last().push(before.last().push(s.last()))
        }
    }
}

/// Where the last closing bracket before `n` stands.
pub open spec fn last_close(s: Seq<char>, n: int) -> Option<int>
    decreases n,
{
    if n <= 0 {
        None
    } else if s[n - 1] == ')' {
        Some(n - 1)
    } else {
        last_close(s, n - 1)
    }
}

/// The two fields that count time spent: they are numbered from behind the
/// name of the program, which can hold spaces and brackets itself.
pub open spec fn times_of(stat: Seq<char>) -> Option<(Seq<char>, Seq<char>)> {
    match last_close(stat, stat.len() as int) {
        None => None,
        Some(i) => {
            let f = words(stat.skip(i + 1));
            if f.len() > 12 {
                Some((f[11], f[12]))
            } else {
                None
            }
        },
    }
}

/// The views of words.
pub open spec fn texts(w: Seq<String>) -> Seq<Seq<char>> {
    Seq::new(w.len(), |i: int| w[i]@)
}

fn find_close(stat: &str) -> (r: Option<usize>)
    ensures
        match r {
            Some(i) => i < stat@.len() && last_close(stat@, stat@.len() as int) == Some(i as int),
            None => last_close(stat@, stat@.len() as int) is None,
        },
{
    let mut n: usize = stat.unicode_len();
    while n > 0
        invariant
            n <= stat@.len(),
            last_close(stat@, stat@.len() as int) == last_close(stat@, n as int),
        decreases n,
    {
        if stat.get_char(n - 1) == ')' {
            return Some(n - 1);
        }
        n -= 1;
    }
    None
}

/// Splits text at white space.
pub fn split_words(s: &str) -> (r: Vec<String>)
    ensures
        texts(r@) == words(s@),
{
    let n: usize = s.unicode_len();
    let mut v: Vec<String> = Vec::new();
    // Where the word that is being read starts.
    let mut from: usize = 0;
    let mut i: usize = 0;
    assert(s@.take(0) =~= Seq::empty());
    assert(texts(v@) =~= words(s@.take(0)));
    while i < n
        invariant
            n == s@.len(),
            from <= i <= n,
            from < i ==> forall|k: int| from <= k < i ==> !space(#[trigger] s@[k]),
            i > 0 ==> (from == i) == space(s@[i - 1]),
            words(s@.take(i as int)) == (if from < i {
                texts(v@).push(s@.subrange(from as int, i as int))
            } else {
                texts(v@)
            }),
        decreases n - i,
    {
        let c: char = s.get_char(i);
        proof {
            assert(s@.take(i + 1).drop_last() =~= s@.take(i as int));
            assert(s@.take(i + 1).last() == c);
            if i > 0 {
                assert(s@.take(i + 1)[i - 1] == s@[i - 1]);
            }
        }
        if is_space(c) {
            if from < i {
                let ghost had = v@;
                v.push(s.substring_char(from, i).to_owned());
                assert(texts(v@) =~= texts(had).push(s@.subrange(from as int, i as int)));
            }
            from = i + 1;
        } else {
            proof {
                let done = texts(v@);
                if from < i {
                    let w = s@.subrange(from as int, i as int);
                    assert(done.push(w).drop_last() =~= done);
                    assert(w.push(c) =~= s@.subrange(from as int, i + 1));
                } else {
                    assert(seq![c] =~= s@.subrange(from as int, i + 1));
                }
            }
        }
        i += 1;
    }
    assert(s@.take(n as int) =~= s@);
    if from < n {
        let ghost had = v@;
        v.push(s.substring_char(from, n).to_owned());
        assert(texts(v@) =~= texts(had).push(s@.subrange(from as int, n as int)));
    }
    v
}

/// The two fields that count time spent, of what the system says of a process.
pub fn times(stat: &str) -> (r: Option<(String, String)>)
    ensures
        match r {
            Some(t) => times_of(stat@) == Some((t.0@, t.1@)),
            None => times_of(stat@) is None,
        },
{
    let i: usize = match find_close(stat) {
        Some(i) => i,
        None => {
            return None;
        },
    };
    let n: usize = stat.unicode_len();
    let tail: &str = stat.substring_char(i + 1, n);
    assert(tail@ =~= stat@.skip(i + 1));
    let f: Vec<String> = split_words(tail);
    if f.len() > 12 {
        proof {
            assert(texts(f@)[11] == f@[11]@);
            assert(texts(f@)[12] == f@[12]@);
        }
        Some((f[11].as_str().to_owned(), f[12].as_str().to_owned()))
    } else {
        None
    }
}

/// What a run cost, in words.
pub open spec fn report_text(ran: nat, used: nat) -> Seq<char> {
    "ran "@ + ratio_text(ran, 1_000_000, 1) + "s, used "@ + ratio_text(used, 1_000_000, 2)
        + "s CPU = "@ + ratio_text(used * 100, ran, 0) + "% of one core"@
}

/// What a run cost, in words: how long it was, the processor time it took, and
/// the share of one core that is.
pub fn report(ran: Micro, used: Micro) -> (r: String)
    requires
        ran@ > 0,
        used@ >= 0,
    ensures
        r@ == report_text(ran@ as nat, used@ as nat),
{
    let mut s: String = "ran ".to_owned();
    push_ratio(&mut s, ran.0 as u128, 1_000_000, 1);
    s.append("s, used ");
    push_ratio(&mut s, used.0 as u128, 1_000_000, 2);
    s.append("s CPU = ");
    push_ratio(&mut s, used.0 as u128 * 100, ran.0 as u128, 0);
    s.append("% of one core");
    assert(s@ =~= report_text(ran@ as nat, used@ as nat));
    s
}

/// How far the timed runs are, from one call to the next.
#[derive(Clone, Copy, Debug, PartialEq, Eq, Structural)]
pub enum Progress {
    Waiting,
    /// The moment has come.
    Now,
    /// It has come before.
    Over,
}

/// How far a run of at least so long is.
pub fn soak_progress(ran: Micro, secs: Micro, done: bool) -> (r: Progress)
    ensures
        r == (if done {
            Progress::Over
        } else if ran@ < secs@ {
            Progress::Waiting
        } else {
            Progress::Now
        }),
{
    if done {
        Progress::Over
    } else if ran.0 < secs.0 {
        Progress::Waiting
    } else {
        Progress::Now
    }
}

/// Whether a picture is to be taken: more than six seconds in, once, when the
/// tuner has locked and the waterfall has filled.
pub fn shot_progress(ran: Micro, done: bool) -> (r: Progress)
    ensures
        r == (if done {
            Progress::Over
        } else if ran@ > 6_000_000 {
            Progress::Now
        } else {
            Progress::Waiting
        }),
{
    if done {
        Progress::Over
    } else if ran.0 > 6_000_000 {
        Progress::Now
    } else {
        Progress::Waiting
    }
}

/// Whatever the program is called, as long as no closing bracket follows its
/// name the fields are those behind it.
pub proof fn the_name_does_not_matter(name: Seq<char>, rest: Seq<char>)
    requires
        !rest.contains(')'),
    ensures
        times_of(name.push(')') + rest) == (if words(rest).len() > 12 {
            Some((words(rest)[11], words(rest)[12]))
        } else {
            None
        }),
{
    let s = name.push(')') + rest;
    close_is_found(name, rest, rest.len());
    assert(s.skip((name.len() + 1) as int) =~= rest);
}

proof fn close_is_found(name: Seq<char>, rest: Seq<char>, n: nat)
    requires
        !rest.contains(')'),
        n <= rest.len(),
    ensures
        last_close(name.push(')') + rest, (name.len() + 1 + n) as int) == Some(name.len() as int),
    decreases n,
{
    let s = name.push(')') + rest;
    if n > 0 {
        assert(s[(name.len() + n) as int] == rest[n - 1]);
        assert(rest.contains(rest[n - 1]));
        close_is_found(name, rest, (n - 1) as nat);
    } else {
        assert(s[name.len() as int] == ')');
    }
}

} // verus!
