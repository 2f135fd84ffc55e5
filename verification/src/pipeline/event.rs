//! Results that are not samples.

use vstd::prelude::*;
use crate::common::Hz;
use crate::fixed::Micro;

verus! {

/// Anything a stage wants to report that is not a sample.
#[derive(Debug, PartialEq, Eq)]
pub enum Event {
    /// A signal appeared or vanished in this chain's band.
    Squelch { open: bool, at: Micro, level_db: Micro },
    /// A detector believes there is a carrier here.
    Detection { center: Hz, bandwidth: Micro, snr_db: Micro, at: Micro },
    /// A decoder produced a frame.
    Decoded(Decoded),
    /// Periodic measurement.
    Metric { name: &'static str, value: Micro },
    /// Something went wrong but the chain can continue.
    Warning { stage: String, message: String },
}

/// A decoded frame from some protocol.
#[derive(Debug, PartialEq, Eq)]
pub struct Decoded {
    pub protocol: &'static str,
    /// Where it came from.
    pub center: Hz,
    /// Millionths of a second from the start of the stream to its burst.
    pub at: i128,
    /// Payload bytes, before any interpretation.
    pub payload: Vec<u8>,
    /// Human-readable rendering, if there is one.
    pub text: Option<String>,
    /// Whether an integrity check passed; none means the protocol has none.
    pub crc_ok: Option<bool>,
}

/// An event as mathematical values.
pub enum EventView {
    Squelch { open: bool, at: int, level_db: int },
    Detection { center: nat, bandwidth: int, snr_db: int, at: int },
    Decoded {
        protocol: Seq<char>,
        center: nat,
        at: int,
        payload: Seq<u8>,
        text: Option<Seq<char>>,
        crc_ok: Option<bool>,
    },
    Metric { name: Seq<char>, value: int },
    Warning { stage: Seq<char>, message: Seq<char> },
}

impl View for Event {
    type V = EventView;

    open spec fn view(&self) -> EventView {
        match *self {
            Event::Squelch { open, at, level_db } => EventView::Squelch {
                open,
                at: at@,
                level_db: level_db@,
            },
            Event::Detection { center, bandwidth, snr_db, at } => EventView::Detection {
                center: center.0 as nat,
                bandwidth: bandwidth@,
                snr_db: snr_db@,
                at: at@,
            },
            Event::Decoded(d) => EventView::Decoded {
                protocol: d.protocol@,
                center: d.center.0 as nat,
                at: d.at as int,
                payload: d.payload@,
                text: match d.text {
                    Some(t) => Some(t@),
                    None => None,
                },
                crc_ok: d.crc_ok,
            },
            Event::Metric { name, value } => EventView::Metric { name: name@, value: value@ },
            Event::Warning { stage, message } => EventView::Warning {
                stage: stage@,
                message: message@,
            },
        }
    }
}

impl Clone for Decoded {
    fn clone(&self) -> (r: Decoded)
        ensures
            Event::Decoded(r)@ == Event::Decoded(*self)@,
    {
        let payload: Vec<u8> = self.payload.clone();
        assert(payload@ =~= self.payload@);
        let text: Option<String> = match &self.text {
            Some(t) => Some(t.as_str().to_owned()),
            None => None,
        };
        Decoded {
            protocol: self.protocol,
            center: self.center,
            at: self.at,
            payload,
            text,
            crc_ok: self.crc_ok,
        }
    }
}

impl Clone for Event {
    fn clone(&self) -> (r: Event)
        ensures
            r@ == self@,
    {
        match self {
            Event::Squelch { open, at, level_db } => Event::Squelch {
                open: *open,
                at: *at,
                level_db: *level_db,
            },
            Event::Detection { center, bandwidth, snr_db, at } => Event::Detection {
                center: *center,
                bandwidth: *bandwidth,
                snr_db: *snr_db,
                at: *at,
            },
            Event::Decoded(d) => Event::Decoded(d.clone()),
            Event::Metric { name, value } => Event::Metric { name: *name, value: *value },
            Event::Warning { stage, message } => Event::Warning {
                stage: stage.as_str().to_owned(),
                message: message.as_str().to_owned(),
            },
        }
    }
}

/// The views of a list of events.
pub open spec fn events_view(e: Seq<Event>) -> Seq<EventView> {
    Seq::new(e.len(), |i: int| e[i]@)
}

} // verus!
