//! What a protocol is and what it reports.

use vstd::prelude::*;
use crate::decode::bits::BitBuffer;
use crate::decode::oregon::OregonV3;
#[allow(unused_imports)]
use crate::decode::oregon::oregon_verdict;
use crate::fixed::Micro;
use crate::text::{push_int, push_micro, same};
#[allow(unused_imports)]
use crate::text::{int_text, micro_text};

verus! {

/// How bits are carried by marks and gaps.
#[derive(Clone, Copy, Debug, PartialEq, Eq, Structural)]
pub enum Coding {
    Pwm,
    Ppm,
    Manchester,
    Nrz,
}

/// Timings under which a pulse train is sliced into bits, in microseconds.
#[derive(Clone, Copy, Debug, PartialEq, Eq, Structural)]
pub struct Timing {
    pub coding: Coding,
    pub short_us: u32,
    pub long_us: u32,
    pub sync_us: u32,
    pub tolerance_us: u32,
    pub reset_us: u32,
}

/// A reported value.
#[derive(Clone, Copy, Debug, PartialEq, Eq, Structural)]
pub enum Value {
    Int(i64),
    Float(Micro),
    Bool(bool),
}

/// Why bits were not accepted.
#[derive(Clone, Copy, Debug, PartialEq, Eq)]
pub enum DecodeError {
    NotThisProtocol,
    WrongLength { got: usize, want: usize },
    CrcFailed,
    Implausible(&'static str),
}

/// A decoded frame.
#[derive(Debug, PartialEq, Eq)]
pub struct Report {
    pub model: &'static str,
    pub crc_valid: Option<bool>,
    /// The frame itself, before interpretation.
    pub raw: Vec<u8>,
    pub fields: Vec<(&'static str, Value)>,
}

/// A report as mathematical values.
pub struct ReportView {
    pub model: Seq<char>,
    pub crc_valid: Option<bool>,
    pub raw: Seq<u8>,
    pub fields: Seq<(Seq<char>, Value)>,
}

/// What came of decoding, as mathematical values.
pub enum Verdict {
    NotThisProtocol,
    WrongLength { got: int, want: int },
    CrcFailed,
    Implausible(Seq<char>),
    Reading(ReportView),
}

/// The fields of a report with their names as character sequences.
pub open spec fn fields_view(f: Seq<(&'static str, Value)>) -> Seq<(Seq<char>, Value)> {
    Seq::new(f.len(), |i: int| (f[i].0@, f[i].1))
}

/// The outcome of a decoder as mathematical values.
pub open spec fn verdict_of(r: Result<Report, DecodeError>) -> Verdict {
    match r {
        Ok(rep) => Verdict::Reading(rep@),
        Err(DecodeError::NotThisProtocol) => Verdict::NotThisProtocol,
        Err(DecodeError::WrongLength { got, want }) => Verdict::WrongLength {
            got: got as int,
            want: want as int,
        },
        Err(DecodeError::CrcFailed) => Verdict::CrcFailed,
        Err(DecodeError::Implausible(why)) => Verdict::Implausible(why@),
    }
}

/// Index of the first field of that name.
pub open spec fn first_field(f: Seq<(Seq<char>, Value)>, key: Seq<char>, i: int) -> bool {
    &&& 0 <= i < f.len()
    &&& f[i].0 == key
    &&& forall|k: int| 0 <= k < i ==> (#[trigger] f[k]).0 != key
}

/// Text of one value.
pub open spec fn value_text(v: Value) -> Seq<char> {
    match v {
        Value::Int(n) => int_text(n as int),
        Value::Float(x) => micro_text(x@),
        Value::Bool(true) => "true"@,
        Value::Bool(false) => "false"@,
    }
}

/// Text of the fields, each as ` name=value`.
pub open spec fn fields_text(f: Seq<(Seq<char>, Value)>) -> Seq<char>
    decreases f.len(),
{
    if f.len() == 0 {
        Seq::empty()
    } else {
        fields_text(f.drop_last()) + " "@ + f.last().0 + "="@ + value_text(f.last().1)
    }
}

/// Text of a whole report.
pub open spec fn report_text(r: ReportView) -> Seq<char> {
    r.model + fields_text(r.fields) + match r.crc_valid {
        Some(true) => " [CRC ok]"@,
        Some(false) => " [CRC failed]"@,
        None => Seq::empty(),
    }
}

impl View for Report {
    type V = ReportView;

    open spec fn view(&self) -> ReportView {
        ReportView {
            model: self.model@,
            crc_valid: self.crc_valid,
            raw: self.raw@,
            fields: fields_view(self.fields@),
        }
    }
}

impl Report {
    /// A report of nothing yet.
    pub fn new(model: &'static str) -> (r: Report)
        ensures
            r@.model == model@,
            r@.crc_valid == None::<bool>,
            r@.raw == Seq::<u8>::empty(),
            r@.fields == Seq::<(Seq<char>, Value)>::empty(),
    {
        let r: Report = Report { model, crc_valid: None, raw: Vec::new(), fields: Vec::new() };
        assert(r@.fields =~= Seq::empty());
        r
    }

    /// Adds a field.
    pub fn with(self, key: &'static str, v: Value) -> (r: Report)
        ensures
            r@.model == self@.model,
            r@.crc_valid == self@.crc_valid,
            r@.raw == self@.raw,
            r@.fields == self@.fields.push((key@, v)),
    {
        let mut r: Report = self;
        r.fields.push((key, v));
        assert(r@.fields =~= self@.fields.push((key@, v)));
        r
    }

    pub fn with_int(self, key: &'static str, v: i64) -> (r: Report)
        ensures
            r@.model == self@.model,
            r@.crc_valid == self@.crc_valid,
            r@.raw == self@.raw,
            r@.fields == self@.fields.push((key@, Value::Int(v))),
    {
        self.with(key, Value::Int(v))
    }

    pub fn with_float(self, key: &'static str, v: Micro) -> (r: Report)
        ensures
            r@.model == self@.model,
            r@.crc_valid == self@.crc_valid,
            r@.raw == self@.raw,
            r@.fields == self@.fields.push((key@, Value::Float(v))),
    {
        self.with(key, Value::Float(v))
    }

    pub fn with_bool(self, key: &'static str, v: bool) -> (r: Report)
        ensures
            r@.model == self@.model,
            r@.crc_valid == self@.crc_valid,
            r@.raw == self@.raw,
            r@.fields == self@.fields.push((key@, Value::Bool(v))),
    {
        self.with(key, Value::Bool(v))
    }

    /// The first field of that name.
    pub fn get(&self, key: &str) -> (r: Option<&Value>)
        ensures
            match r {
                Some(v) => exists|i: int| #[trigger]
                    first_field(self@.fields, key@, i) && self@.fields[i].1 == *v,
                None => forall|k: int|
                    0 <= k < self@.fields.len() ==> (#[trigger] self@.fields[k]).0 != key@,
            },
    {
        let mut i: usize = 0;
        while i < self.fields.len()
            invariant
                i <= self.fields@.len(),
                forall|k: int| 0 <= k < i ==> (#[trigger] self@.fields[k]).0 != key@,
            decreases self.fields@.len() - i,
        {
            if same(self.fields[i].0, key) {
                assert(first_field(self@.fields, key@, i as int));
                return Some(&self.fields[i].1);
            }
            i += 1;
        }
        None
    }

    /// The report in one line.
    pub fn to_string(&self) -> (r: String)
        ensures
            r@ == report_text(self@),
    {
        let mut s: String = self.model.to_owned();
        let mut i: usize = 0;
        while i < self.fields.len()
            invariant
                i <= self.fields@.len(),
                s@ == self@.model + fields_text(self@.fields.take(i as int)),
            decreases self.fields@.len() - i,
        {
            let ghost before = s@;
            let (key, v) = self.fields[i];
            s.append(" ");
            s.append(key);
            s.append("=");
            match v {
                Value::Int(n) => push_int(&mut s, n),
                Value::Float(x) => push_micro(&mut s, x.0),
                Value::Bool(true) => s.append("true"),
                Value::Bool(false) => s.append("false"),
            }
            proof {
                let f = self@.fields.take(i + 1);
                assert(f.drop_last() =~= self@.fields.take(i as int));
                assert(f.last() == (key@, v));
                assert(s@ =~= self@.model + fields_text(f));
            }
            i += 1;
        }
        proof {
            assert(self@.fields.take(i as int) =~= self@.fields);
        }
        match self.crc_valid {
            Some(true) => s.append(" [CRC ok]"),
            Some(false) => s.append(" [CRC failed]"),
            None => {},
        }
        assert(s@ =~= report_text(self@));
        s
    }
}

/// A device family that can be told from its bits.
pub trait Protocol {
    fn name(&self) -> &'static str;

    fn timing(&self) -> Timing;

    fn decode(&self, bits: &BitBuffer) -> Result<Report, DecodeError>;
}

/// The families this build knows.
#[derive(Clone, Copy, Debug, PartialEq, Eq, Structural)]
pub enum Family {
    OregonV3,
}

/// Name of a family.
pub open spec fn family_name(f: Family) -> Seq<char> {
    match f {
        Family::OregonV3 => "Oregon-v3"@,
    }
}

/// What a family makes of bits.
pub open spec fn family_verdict(f: Family, bits: Seq<bool>) -> Verdict {
    match f {
        Family::OregonV3 => oregon_verdict(bits),
    }
}

/// An ordered choice of families to try.
#[derive(Debug)]
pub struct Protocols {
    families: Vec<Family>,
}

impl View for Protocols {
    type V = Seq<Family>;

    closed spec fn view(&self) -> Seq<Family> {
        self.families@
    }
}

impl Protocols {
    /// No family.
    pub fn none() -> (r: Protocols)
        ensures
            r@ == Seq::<Family>::empty(),
    {
        Protocols { families: Vec::new() }
    }

    /// Every family this build knows.
    pub fn all() -> (r: Protocols)
        ensures
            r@ == seq![Family::OregonV3],
    {
        let mut families: Vec<Family> = Vec::new();
        families.push(Family::OregonV3);
        assert(families@ =~= seq![Family::OregonV3]);
        Protocols { families }
    }

    pub fn len(&self) -> (r: usize)
        ensures
            r == self@.len(),
    {
        self.families.len()
    }

    /// Timing under which family `i` wants its pulses sliced.
    pub fn timing(&self, i: usize) -> (r: Timing)
        requires
            i < self@.len(),
        ensures
            self@[i as int] == Family::OregonV3 ==> r == (Timing {
                coding: Coding::Manchester,
                short_us: 488,
                long_us: 976,
                sync_us: 0,
                tolerance_us: 0,
                reset_us: 2400,
            }),
    {
        match self.families[i] {
            Family::OregonV3 => OregonV3.timing(),
        }
    }

    /// Tries every family on the bits sliced for it, in order.
    pub fn diagnose(&self, sliced: &[BitBuffer]) -> (r: Vec<
        (&'static str, Result<Report, DecodeError>),
    >)
        requires
            sliced@.len() == self@.len(),
        ensures
            r@.len() == self@.len(),
            forall|i: int|
                0 <= i < r@.len() ==> {
                    &&& (#[trigger] r@[i]).0@ == family_name(self@[i])
                    &&& verdict_of(r@[i].1) == family_verdict(self@[i], sliced@[i]@)
                },
    {
        let mut out: Vec<(&'static str, Result<Report, DecodeError>)> = Vec::new();
        let mut i: usize = 0;
        while i < self.families.len()
            invariant
                i <= self@.len(),
                sliced@.len() == self@.len(),
                out@.len() == i,
                forall|k: int|
                    0 <= k < i ==> {
                        &&& (#[trigger] out@[k]).0@ == family_name(self@[k])
                        &&& verdict_of(out@[k].1) == family_verdict(self@[k], sliced@[k]@)
                    },
            decreases self@.len() - i,
        {
            match self.families[i] {
                Family::OregonV3 => out.push((OregonV3.name(), OregonV3.decode(&sliced[i]))),
            }
            i += 1;
        }
        out
    }
}

} // verus!
