//! What the program is asked to do.

use vstd::prelude::*;
use crate::text::same;

verus! {

/// The first argument from `i` that is `name`.
pub open spec fn place(a: Seq<String>, name: Seq<char>, i: int) -> Option<int>
    decreases a.len() - i,
{
    if i < 0 || i >= a.len() {
        None
    } else if a[i]@ == name {
        Some(i)
    } else {
        place(a, name, i + 1)
    }
}

/// Whether an argument is there.
pub open spec fn given(a: Seq<String>, name: Seq<char>) -> bool {
    exists|i: int| 0 <= i < a.len() && (#[trigger] a[i])@ == name
}

/// The argument behind another.
pub open spec fn behind(a: Seq<String>, i: int) -> Option<Seq<char>> {
    if i + 1 < a.len() {
        Some(a[i + 1]@)
    } else {
        None
    }
}

/// The text of an argument that may be missing.
pub open spec fn maybe(s: Option<String>) -> Option<Seq<char>> {
    match s {
        Some(t) => Some(t@),
        None => None,
    }
}

proof fn placed_is_given(a: Seq<String>, name: Seq<char>, i: int)
    requires
        0 <= i,
    ensures
        place(a, name, i) is Some == exists|k: int| i <= k < a.len() && (#[trigger] a[k])@ == name,
    decreases a.len() - i,
{
    if i < a.len() {
        placed_is_given(a, name, i + 1);
        if a[i]@ != name && place(a, name, i) is Some {
            let k = choose|k: int| i + 1 <= k < a.len() && (#[trigger] a[k])@ == name;
            assert(i <= k < a.len() && a[k]@ == name);
        }
    }
}

fn position(a: &[String], name: &str) -> (r: Option<usize>)
    ensures
        match r {
            Some(i) => i < a@.len() && place(a@, name@, 0) == Some(i as int),
            None => place(a@, name@, 0) is None,
        },
        r is Some == given(a@, name@),
{
    let n: usize = a.len();
    proof {
        placed_is_given(a@, name@, 0);
    }
    let mut i: usize = 0;
    while i < n
        invariant
            n == a@.len(),
            i <= n,
            place(a@, name@, 0) == place(a@, name@, i as int),
            place(a@, name@, 0) is Some == given(a@, name@),
        decreases n - i,
    {
        if same(a[i].as_str(), name) {
            return Some(i);
        }
        i += 1;
    }
    None
}

fn next(a: &[String], i: usize) -> (r: Option<String>)
    requires
        i < a@.len(),
    ensures
        maybe(r) == behind(a@, i as int),
{
    let n: usize = a.len();
    if i < n - 1 {
        Some(a[i + 1].as_str().to_owned())
    } else {
        None
    }
}

/// What the program is asked to do.
#[derive(Debug)]
pub enum Task {
    /// Time the audio chains.
    BenchAudio,
    /// Run the radio without a window, at a frequency in megahertz, and listen
    /// if asked to.
    Probe { mhz: Option<String>, listen: bool },
    /// Show the window.
    Window {
        /// Where to save a picture of it.
        shot: Option<String>,
        /// Measure a run, of so many seconds if that is said.
        soak: Option<Option<String>>,
    },
}

/// A task as mathematical values.
pub enum TaskView {
    BenchAudio,
    Probe { mhz: Option<Seq<char>>, listen: bool },
    Window { shot: Option<Seq<char>>, soak: Option<Option<Seq<char>>> },
}

impl View for Task {
    type V = TaskView;

    open spec fn view(&self) -> TaskView {
        match *self {
            Task::BenchAudio => TaskView::BenchAudio,
            Task::Probe { mhz, listen } => TaskView::Probe { mhz: maybe(mhz), listen },
            Task::Window { shot, soak } => TaskView::Window {
                shot: maybe(shot),
                soak: match soak {
                    Some(s) => Some(maybe(s)),
                    None => None,
                },
            },
        }
    }
}

/// What arguments ask for.
pub open spec fn asked(a: Seq<String>) -> TaskView {
    if given(a, "--bench-audio"@) {
        TaskView::BenchAudio
    } else {
        match place(a, "--probe"@, 0) {
            Some(i) => TaskView::Probe { mhz: behind(a, i), listen: given(a, "--listen"@) },
            None => TaskView::Window {
                shot: match place(a, "--shot"@, 0) {
                    Some(i) => match behind(a, i) {
                        Some(p) => Some(p),
                        None => Some("/tmp/shot.png"@),
                    },
                    None => None,
                },
                soak: match place(a, "--soak"@, 0) {
                    Some(i) => Some(behind(a, i)),
                    None => None,
                },
            },
        }
    }
}

/// Whether the run is to be measured.
pub fn soak_enabled(a: &[String]) -> (r: bool)
    ensures
        r == given(a@, "--soak"@),
{
    position(a, "--soak").is_some()
}

/// What arguments ask for.
pub fn task(a: &[String]) -> (r: Task)
    ensures
        r@ == asked(a@),
{
    if position(a, "--bench-audio").is_some() {
        return Task::BenchAudio;
    }
    if let Some(i) = position(a, "--probe") {
        return Task::Probe { mhz: next(a, i), listen: position(a, "--listen").is_some() };
    }
    let shot: Option<String> = match position(a, "--shot") {
        Some(i) => match next(a, i) {
            Some(p) => Some(p),
            None => Some("/tmp/shot.png".to_owned()),
        },
        None => None,
    };
    let soak: Option<Option<String>> = match position(a, "--soak") {
        Some(i) => Some(next(a, i)),
        None => None,
    };
    Task::Window { shot, soak }
}

/// A run is measured just when measuring was asked for, and nothing that goes
/// without a window was.
pub proof fn soaking_is_what_was_enabled(a: Seq<String>)
    ensures
        asked(a) matches TaskView::Window { shot, soak } ==> soak is Some == given(a, "--soak"@),
{
    placed_is_given(a, "--soak"@, 0);
}

} // verus!
