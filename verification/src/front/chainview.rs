//! The signal chain that is running, laid out as boxes and arrows.
//!
//! Positions are in points below the top of the picture, and to the right of
//! its middle. Drawing it is the caller's part.

use vstd::prelude::*;
use crate::fixed::Micro;
use crate::pipeline::port::{PortKind, StreamSpec};
use crate::text::{push_nat, push_signed_ratio};
#[allow(unused_imports)]
use crate::text::{digits, signed_ratio_text};

verus! {

pub const BOX_W: i64 = 190;

pub const BOX_H: i64 = 46;

pub const GAP: i64 = 34;

/// From the top of one box to the top of the next.
pub const STEP: i64 = 80;

/// What a port carries, in a word.
pub open spec fn kind_text(k: PortKind) -> Seq<char> {
    match k {
        PortKind::Iq => "iq"@,
        PortKind::Real => "real"@,
        PortKind::Bytes => "bytes"@,
        PortKind::Pulses => "pulses"@,
        PortKind::Soft => "soft"@,
    }
}

/// What a port carries, in a word.
pub fn kind_label(k: PortKind) -> (r: &'static str)
    ensures
        r@ == kind_text(k),
{
    match k {
        PortKind::Iq => "iq",
        PortKind::Real => "real",
        PortKind::Bytes => "bytes",
        PortKind::Pulses => "pulses",
        PortKind::Soft => "soft",
    }
}

/// A rate as a person reads it. Every channel runs at the rate of the port over
/// their number, and it is that rate which is shown.
pub open spec fn rate_text(rate: int, channels: nat) -> Seq<char> {
    let base = if rate >= 1_000_000_000_000 * channels {
        signed_ratio_text(rate, 1_000_000_000_000 * channels, 3) + " MS/s"@
    } else if rate >= 10_000_000_000 * channels {
        signed_ratio_text(rate, 1_000_000_000 * channels, 1) + " kS/s"@
    } else {
        signed_ratio_text(rate, 1_000_000 * channels, 0) + " S/s"@
    };
    if channels > 1 {
        base + " x"@ + digits(channels)
    } else {
        base
    }
}

/// A rate as a person reads it, in the unit that suits the magnitude.
pub fn rate_label(s: &StreamSpec) -> (r: String)
    requires
        1 <= s.channels <= 1_000_000_000,
    ensures
        r@ == rate_text(s.rate@, s.channels as nat),
{
    let rate: i128 = s.rate.0 as i128;
    let n: i128 = s.channels as i128;
    let mut t: String = String::new();
    if rate >= 1_000_000_000_000 * n {
        push_signed_ratio(&mut t, rate, (1_000_000_000_000 * n) as u128, 3);
        t.append(" MS/s");
    } else if rate >= 10_000_000_000 * n {
        push_signed_ratio(&mut t, rate, (1_000_000_000 * n) as u128, 1);
        t.append(" kS/s");
    } else {
        push_signed_ratio(&mut t, rate, (1_000_000 * n) as u128, 0);
        t.append(" S/s");
    }
    if s.channels > 1 {
        t.append(" x");
        push_nat(&mut t, s.channels as u128);
    }
    assert(t@ =~= rate_text(s.rate@, s.channels as nat));
    t
}

/// One stage of the chain as it is shown, with what comes out of each of its
/// ports.
#[derive(Debug)]
pub struct ChainNode {
    pub label: String,
    pub kind: String,
    pub outputs: Vec<StreamSpec>,
}

/// One thing to draw.
#[derive(Debug, PartialEq, Eq)]
pub enum Mark {
    /// The line above the picture.
    Header(String),
    /// A box with its top at `y`, either the source or a stage.
    Stage { y: i64, label: String, kind: String, source: bool },
    /// An arrow down from `from` to `to`, and what it carries.
    Edge { from: i64, to: i64, text: String },
    /// What leaves the chain.
    Out { y: i64, text: String },
    /// A box to the right of the stage whose top is at `y`, for an output that
    /// is not the first.
    Branch { y: i64, label: String, carries: &'static str },
}

/// One thing to draw, as mathematical values.
pub enum MarkView {
    Header(Seq<char>),
    Stage { y: int, label: Seq<char>, kind: Seq<char>, source: bool },
    Edge { from: int, to: int, text: Seq<char> },
    Out { y: int, text: Seq<char> },
    Branch { y: int, label: Seq<char>, carries: Seq<char> },
}

impl View for Mark {
    type V = MarkView;

    open spec fn view(&self) -> MarkView {
        match *self {
            Mark::Header(s) => MarkView::Header(s@),
            Mark::Stage { y, label, kind, source } => MarkView::Stage {
                y: y as int,
                label: label@,
                kind: kind@,
                source,
            },
            Mark::Edge { from, to, text } => MarkView::Edge {
                from: from as int,
                to: to as int,
                text: text@,
            },
            Mark::Out { y, text } => MarkView::Out { y: y as int, text: text@ },
            Mark::Branch { y, label, carries } => MarkView::Branch {
                y: y as int,
                label: label@,
                carries: carries@,
            },
        }
    }
}

/// The views of marks.
pub open spec fn marks_view(m: Seq<Mark>) -> Seq<MarkView> {
    Seq::new(m.len(), |i: int| m[i]@)
}

/// What a link carries.
pub open spec fn link_text(s: StreamSpec) -> Seq<char> {
    kind_text(s.kind) + "  "@ + rate_text(s.rate@, s.channels as nat)
}

/// The line above the picture: how many stages, and how long samples take
/// through them.
pub open spec fn header_text(stages: nat, latency_ms: int) -> Seq<char> {
    digits(stages) + " stages   "@ + signed_ratio_text(latency_ms, 1_000_000, 1)
        + " ms through the chain"@
}

/// Where the box of stage `i` begins. The source comes before the first.
pub open spec fn top_of(i: int) -> int {
    12 + (i + 1) * 80
}

/// The first `n` branches of a stage.
pub open spec fn branches(outputs: Seq<StreamSpec>, y: int, n: nat) -> Seq<MarkView>
    decreases n,
{
    if n <= 1 {
        Seq::empty()
    } else {
        branches(outputs, y, (n - 1) as nat).push(
            MarkView::Branch {
                y,
                label: "out "@ + digits((n - 1) as nat),
                carries: kind_text(outputs[n - 1].kind),
            },
        )
    }
}

/// What is drawn for stage `i`: its box, an arrow to the next stage or what
/// leaves the chain, and its branches.
pub open spec fn stage_marks(nodes: Seq<ChainNode>, i: int) -> Seq<MarkView> {
    let n = nodes[i];
    let y = top_of(i);
    let own = seq![
        MarkView::Stage { y, label: n.label@, kind: n.kind@, source: false },
    ];
    let link = if n.outputs@.len() == 0 {
        Seq::empty()
    } else if i < nodes.len() - 1 {
        seq![
            MarkView::Edge { from: y + 46, to: y + 80, text: link_text(n.outputs@[0]) },
        ]
    } else {
        seq![
            MarkView::Out { y: y + 56, text: "out  "@ + link_text(n.outputs@[0]) },
        ]
    };
    own + link + branches(n.outputs@, y, n.outputs@.len())
}

/// What is drawn for the first `n` stages.
pub open spec fn stages_marks(nodes: Seq<ChainNode>, n: nat) -> Seq<MarkView>
    decreases n,
{
    if n == 0 {
        Seq::empty()
    } else {
        stages_marks(nodes, (n - 1) as nat) + stage_marks(nodes, n - 1)
    }
}

/// The whole picture.
pub open spec fn picture(input: StreamSpec, nodes: Seq<ChainNode>, latency_ms: int) -> Seq<
    MarkView,
> {
    seq![
        MarkView::Header(header_text(nodes.len(), latency_ms)),
        MarkView::Stage { y: 12, label: "Source"@, kind: "device"@, source: true },
        MarkView::Edge { from: 58, to: 92, text: link_text(input) },
    ] + stages_marks(nodes, nodes.len())
}

/// Whether every rate can be shown.
pub open spec fn showable(nodes: Seq<ChainNode>) -> bool {
    forall|i: int, k: int|
        0 <= i < nodes.len() && 0 <= k < nodes[i].outputs@.len() ==> 1 <= (
        #[trigger] nodes[i].outputs@[k]).channels <= 1_000_000_000
}

fn push_mark(v: &mut Vec<Mark>, m: Mark)
    ensures
        marks_view(final(v)@) == marks_view(old(v)@).push(m@),
{
    v.push(m);
    assert(marks_view(v@) =~= marks_view(old(v)@).push(m@));
}

fn link(s: &StreamSpec) -> (r: String)
    requires
        1 <= s.channels <= 1_000_000_000,
    ensures
        r@ == link_text(*s),
{
    let mut t: String = kind_label(s.kind).to_owned();
    t.append("  ");
    t.append(rate_label(s).as_str());
    assert(t@ =~= link_text(*s));
    t
}

fn push_stage(v: &mut Vec<Mark>, nodes: &[ChainNode], i: usize)
    requires
        i < nodes@.len(),
        nodes@.len() <= 0xffff_ffff,
        showable(nodes@),
    ensures
        marks_view(final(v)@) == marks_view(old(v)@) + stage_marks(nodes@, i as int),
{
    let n: &ChainNode = &nodes[i];
    let y: i64 = 12 + (i as i64 + 1) * 80;
    let ghost had = marks_view(v@);
    push_mark(
        v,
        Mark::Stage {
            y,
            label: n.label.as_str().to_owned(),
            kind: n.kind.as_str().to_owned(),
            source: false,
        },
    );
    let count: usize = n.outputs.len();
    if count > 0 {
        assert(nodes@[i as int].outputs@[0].channels >= 1);
        let text: String = link(&n.outputs[0]);
        if i < nodes.len() - 1 {
            push_mark(v, Mark::Edge { from: y + BOX_H, to: y + BOX_H + GAP, text });
        } else {
            let mut t: String = "out  ".to_owned();
            t.append(text.as_str());
            push_mark(v, Mark::Out { y: y + BOX_H + 10, text: t });
        }
    }
    let ghost trunk = marks_view(v@);
    let ghost out = n.outputs@;
    let mut k: usize = if count == 0 {
        0
    } else {
        1
    };
    assert(marks_view(v@) =~= trunk + branches(out, y as int, k as nat));
    while k < count
        invariant
            count == n.outputs@.len(),
            out == n.outputs@,
            k <= count,
            k == 0 ==> count == 0,
            marks_view(v@) == trunk + branches(out, y as int, k as nat),
        decreases count - k,
    {
        let mut label: String = "out ".to_owned();
        push_nat(&mut label, k as u128);
        push_mark(v, Mark::Branch { y, label, carries: kind_label(n.outputs[k].kind) });
        k += 1;
        assert(marks_view(v@) =~= trunk + branches(out, y as int, k as nat));
    }
    assert(marks_view(v@) =~= had + stage_marks(nodes@, i as int));
}

/// Lays the chain out: the source, each stage below the one before, arrows that
/// say what they carry, and outputs that are not the first to the side, so that
/// the trunk stays a straight line.
pub fn draw(input: &StreamSpec, nodes: &[ChainNode], latency_ms: Micro) -> (r: Vec<Mark>)
    requires
        1 <= input.channels <= 1_000_000_000,
        nodes@.len() <= 0xffff_ffff,
        showable(nodes@),
    ensures
        marks_view(r@) == picture(*input, nodes@, latency_ms@),
{
    let mut v: Vec<Mark> = Vec::new();
    let n: usize = nodes.len();
    let mut head: String = String::new();
    push_nat(&mut head, n as u128);
    head.append(" stages   ");
    push_signed_ratio(&mut head, latency_ms.0 as i128, 1_000_000, 1);
    head.append(" ms through the chain");
    assert(head@ =~= header_text(n as nat, latency_ms@));
    assert(marks_view(v@) =~= Seq::empty());
    push_mark(&mut v, Mark::Header(head));
    push_mark(
        &mut v,
        Mark::Stage { y: 12, label: "Source".to_owned(), kind: "device".to_owned(), source: true },
    );
    push_mark(&mut v, Mark::Edge { from: 58, to: 92, text: link(input) });
    let ghost start = marks_view(v@);
    assert(start =~= picture(*input, nodes@, latency_ms@).take(3));
    let mut i: usize = 0;
    assert(marks_view(v@) =~= start + stages_marks(nodes@, 0));
    while i < n
        invariant
            n == nodes@.len(),
            n <= 0xffff_ffff,
            showable(nodes@),
            i <= n,
            marks_view(v@) == start + stages_marks(nodes@, i as nat),
        decreases n - i,
    {
        push_stage(&mut v, nodes, i);
        i += 1;
        assert(marks_view(v@) =~= start + stages_marks(nodes@, i as nat));
    }
    assert(marks_view(v@) =~= picture(*input, nodes@, latency_ms@));
    v
}

/// Height of the picture.
pub fn height(stages: usize) -> (r: i64)
    requires
        stages <= 0xffff_ffff,
    ensures
        r == (stages + 1) * 80,
{
    (stages as i64 + 1) * STEP
}

/// Boxes do not overlap: each begins a gap below the end of the one before.
pub proof fn boxes_do_not_overlap(i: int, j: int)
    requires
        -1 <= i < j,
    ensures
        top_of(i) + 46 + 34 <= top_of(j),
{
}

} // verus!
