//! What flows between stages.

use vstd::prelude::*;
use crate::common::Hz;
use crate::fixed::Micro;

verus! {

/// What a port carries.
#[derive(Clone, Copy, Debug, PartialEq, Eq, Structural)]
pub enum PortKind {
    Iq,
    Real,
    Bytes,
    Pulses,
    Soft,
}

/// A stream as its receiver is told of it.
#[derive(Clone, Copy, Debug, PartialEq, Eq, Structural)]
pub struct StreamSpec {
    pub kind: PortKind,
    /// Samples per second on the port, all channels together.
    pub rate: Micro,
    /// Frequency that the middle of the stream stands for.
    pub center: Hz,
    /// Spectral width that is occupied.
    pub bandwidth: Micro,
    /// Interleaved channels.
    pub channels: usize,
}

impl StreamSpec {
    /// A complex stream that occupies its whole rate.
    pub fn iq(rate: Micro, center: Hz) -> (r: StreamSpec)
        ensures
            r == (StreamSpec { kind: PortKind::Iq, rate, center, bandwidth: rate, channels: 1 }),
    {
        StreamSpec { kind: PortKind::Iq, rate, center, bandwidth: rate, channels: 1 }
    }

    /// The same stream carrying something else.
    pub fn with_kind(self, kind: PortKind) -> (r: StreamSpec)
        ensures
            r == (StreamSpec { kind, ..self }),
    {
        StreamSpec { kind, ..self }
    }

    /// The same stream at another rate.
    pub fn with_rate(self, rate: Micro) -> (r: StreamSpec)
        ensures
            r == (StreamSpec { rate, ..self }),
    {
        StreamSpec { rate, ..self }
    }

    /// The same stream as one of `channels`, each at the rate it had.
    pub fn with_channels(self, channels: usize) -> (r: StreamSpec)
        requires
            channels >= 1,
            i64::MIN <= self.rate@ * channels <= i64::MAX,
        ensures
            r.rate@ == self.rate@ * channels,
            r == (StreamSpec { channels, rate: r.rate, ..self }),
    {
        let rate: i128 = self.rate.0 as i128;
        assert(-0x8000_0000_0000_0000 * 0xffff_ffff_ffff_ffff <= rate * channels
            <= 0x8000_0000_0000_0000 * 0xffff_ffff_ffff_ffff) by (nonlinear_arith)
            requires
                -0x8000_0000_0000_0000 <= rate <= 0x7fff_ffff_ffff_ffff,
                0 <= channels <= 0xffff_ffff_ffff_ffff,
        ;
        let total: i128 = rate * channels as i128;
        StreamSpec { channels, rate: Micro(total as i64), ..self }
    }
}

/// A value attached to a sample.
#[derive(Clone, Copy, Debug, PartialEq, Eq, Structural)]
pub enum TagValue {
    Float(Micro),
    Int(i64),
    Bool(bool),
}

/// A mark on one sample of a stream.
#[derive(Clone, Copy, Debug, PartialEq, Eq)]
pub struct Tag {
    pub index: u64,
    pub key: &'static str,
    pub value: TagValue,
}

impl Tag {
    pub fn new(index: u64, key: &'static str, value: TagValue) -> (r: Tag)
        ensures
            r.index == index,
            r.key@ == key@,
            r.value == value,
    {
        Tag { index, key, value }
    }
}

/// A tag as mathematical values.
pub struct TagView {
    pub index: nat,
    pub key: Seq<char>,
    pub value: TagValue,
}

impl View for Tag {
    type V = TagView;

    open spec fn view(&self) -> TagView {
        TagView { index: self.index as nat, key: self.key@, value: self.value }
    }
}

} // verus!
