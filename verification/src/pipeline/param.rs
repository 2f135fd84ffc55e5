//! What a stage can be told while it runs.

use vstd::prelude::*;
use crate::fixed::Micro;
#[allow(unused_imports)]
use crate::fixed::{clamp_spec, trunc_spec};

verus! {

/// The value of a parameter.
#[derive(Debug, PartialEq, Eq)]
pub enum ParamValue {
    Float(Micro),
    Int(i64),
    Bool(bool),
    Str(String),
}

/// A parameter's value as a mathematical one.
pub enum ValueView {
    Float(int),
    Int(int),
    Bool(bool),
    Str(Seq<char>),
}

impl View for ParamValue {
    type V = ValueView;

    open spec fn view(&self) -> ValueView {
        match *self {
            ParamValue::Float(x) => ValueView::Float(x@),
            ParamValue::Int(n) => ValueView::Int(n as int),
            ParamValue::Bool(b) => ValueView::Bool(b),
            ParamValue::Str(s) => ValueView::Str(s@),
        }
    }
}

/// A value as a number, in millionths. An integer too large for that counts as
/// the largest.
pub open spec fn number(v: ValueView) -> Option<int> {
    match v {
        ValueView::Float(x) => Some(x),
        ValueView::Int(n) => Some(clamp_spec(n * 1_000_000, i64::MIN as int, i64::MAX as int)),
        _ => None,
    }
}

/// A value as an integer.
pub open spec fn integer(v: ValueView) -> Option<int> {
    match v {
        ValueView::Float(x) => Some(trunc_spec(x)),
        ValueView::Int(n) => Some(n),
        _ => None,
    }
}

/// A value as a truth value.
pub open spec fn truth(v: ValueView) -> Option<bool> {
    match v {
        ValueView::Bool(b) => Some(b),
        _ => None,
    }
}

impl ParamValue {
    pub fn as_f64(&self) -> (r: Option<Micro>)
        ensures
            match r {
                Some(x) => number(self@) == Some(x@),
                None => number(self@) is None,
            },
    {
        match self {
            ParamValue::Float(x) => Some(*x),
            ParamValue::Int(n) => {
                let v: i128 = *n as i128 * 1_000_000;
                if v > i64::MAX as i128 {
                    Some(Micro(i64::MAX))
                } else if v < i64::MIN as i128 {
                    Some(Micro(i64::MIN))
                } else {
                    Some(Micro(v as i64))
                }
            },
            _ => None,
        }
    }

    pub fn as_i64(&self) -> (r: Option<i64>)
        ensures
            match r {
                Some(n) => integer(self@) == Some(n as int),
                None => integer(self@) is None,
            },
    {
        match self {
            ParamValue::Float(x) => Some(x.trunc()),
            ParamValue::Int(n) => Some(*n),
            _ => None,
        }
    }

    pub fn as_bool(&self) -> (r: Option<bool>)
        ensures
            r == truth(self@),
    {
        match self {
            ParamValue::Bool(b) => Some(*b),
            _ => None,
        }
    }

    pub fn as_str(&self) -> (r: Option<&str>)
        ensures
            match r {
                Some(s) => self@ == ValueView::Str(s@),
                None => !(self@ is Str),
            },
    {
        match self {
            ParamValue::Str(s) => Some(s.as_str()),
            _ => None,
        }
    }

    /// The same value again.
    pub fn copy(&self) -> (r: ParamValue)
        ensures
            r@ == self@,
    {
        match self {
            ParamValue::Float(x) => ParamValue::Float(*x),
            ParamValue::Int(n) => ParamValue::Int(*n),
            ParamValue::Bool(b) => ParamValue::Bool(*b),
            ParamValue::Str(s) => ParamValue::Str(s.as_str().to_owned()),
        }
    }
}

impl Clone for ParamValue {
    fn clone(&self) -> (r: ParamValue)
        ensures
            r@ == self@,
    {
        self.copy()
    }
}

/// What a parameter may be set to.
#[derive(Clone, Copy, Debug, PartialEq, Eq)]
pub enum ParamRange {
    Any,
    Float(Micro, Micro),
    Int(i64, i64),
}

/// A parameter of a stage, for a control panel.
#[derive(Debug, PartialEq, Eq)]
pub struct Param {
    pub name: &'static str,
    pub value: ParamValue,
    pub range: ParamRange,
    pub unit: &'static str,
    pub label: &'static str,
    /// Best shown on a logarithmic scale.
    pub log: bool,
    /// Changing it changes the rate of what follows.
    pub affects_rate: bool,
}

/// A parameter as mathematical values.
pub struct ParamView {
    pub name: Seq<char>,
    pub value: ValueView,
    pub range: ParamRange,
    pub unit: Seq<char>,
    pub label: Seq<char>,
    pub log: bool,
    pub affects_rate: bool,
}

/// A parameter of that name and value with nothing more said of it.
pub open spec fn plain(name: Seq<char>, value: ValueView, range: ParamRange) -> ParamView {
    ParamView {
        name,
        value,
        range,
        unit: Seq::empty(),
        label: Seq::empty(),
        log: false,
        affects_rate: false,
    }
}

/// The views of a list of parameters.
pub open spec fn params_view(p: Seq<Param>) -> Seq<ParamView> {
    Seq::new(p.len(), |i: int| p[i]@)
}

impl View for Param {
    type V = ParamView;

    open spec fn view(&self) -> ParamView {
        ParamView {
            name: self.name@,
            value: self.value@,
            range: self.range,
            unit: self.unit@,
            label: self.label@,
            log: self.log,
            affects_rate: self.affects_rate,
        }
    }
}

impl Param {
    fn of(name: &'static str, value: ParamValue, range: ParamRange) -> (r: Param)
        ensures
            r@ == plain(name@, value@, range),
    {
        proof {
            reveal_strlit("");
        }
        let r = Param {
            name,
            value,
            range,
            unit: "",
            label: "",
            log: false,
            affects_rate: false,
        };
        assert(r@.unit =~= Seq::empty());
        assert(r@.label =~= Seq::empty());
        r
    }

    pub fn float(name: &'static str, value: Micro, low: Micro, high: Micro) -> (r: Param)
        ensures
            r@ == plain(name@, ValueView::Float(value@), ParamRange::Float(low, high)),
    {
        Param::of(name, ParamValue::Float(value), ParamRange::Float(low, high))
    }

    pub fn integer(name: &'static str, value: i64, low: i64, high: i64) -> (r: Param)
        ensures
            r@ == plain(name@, ValueView::Int(value as int), ParamRange::Int(low, high)),
    {
        Param::of(name, ParamValue::Int(value), ParamRange::Int(low, high))
    }

    pub fn switch(name: &'static str, value: bool) -> (r: Param)
        ensures
            r@ == plain(name@, ValueView::Bool(value), ParamRange::Any),
    {
        Param::of(name, ParamValue::Bool(value), ParamRange::Any)
    }

    pub fn unit(self, unit: &'static str) -> (r: Param)
        ensures
            r@ == (ParamView { unit: unit@, ..self@ }),
    {
        Param { unit, ..self }
    }

    pub fn label(self, label: &'static str) -> (r: Param)
        ensures
            r@ == (ParamView { label: label@, ..self@ }),
    {
        Param { label, ..self }
    }

    pub fn log(self) -> (r: Param)
        ensures
            r@ == (ParamView { log: true, ..self@ }),
    {
        Param { log: true, ..self }
    }

    pub fn affects_rate(self) -> (r: Param)
        ensures
            r@ == (ParamView { affects_rate: true, ..self@ }),
    {
        Param { affects_rate: true, ..self }
    }

    /// What to call it: its label, or its name where it has none.
    pub fn display_label(&self) -> (r: &'static str)
        ensures
            r@ == (if self@.label.len() > 0 {
                self@.label
            } else {
                self@.name
            }),
    {
        if self.label.unicode_len() > 0 {
            self.label
        } else {
            self.name
        }
    }
}

/// A value means the same as a number and as an integer: an integer is itself and
/// as many millions of millionths, a number loses its fraction, and what is
/// neither is neither.
pub proof fn values_mean_one_number(v: ValueView)
    ensures
        v matches ValueView::Int(n) ==> integer(v) == Some(n) && (i64::MIN <= n * 1_000_000
            <= i64::MAX ==> number(v) == Some(n * 1_000_000)),
        v matches ValueView::Float(x) ==> number(v) == Some(x) && (integer(v) matches Some(n) && (x
            >= 0 ==> 0 <= x - n * 1_000_000 < 1_000_000) && (x <= 0 ==> -1_000_000 < x - n
            * 1_000_000 <= 0)),
        v matches ValueView::Bool(b) ==> truth(v) == Some(b) && number(v) is None && integer(
            v,
        ) is None,
        v is Str ==> truth(v) is None && number(v) is None && integer(v) is None,
        !(v is Bool) ==> truth(v) is None,
{
}

} // verus!
