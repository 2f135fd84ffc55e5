//! What is known of each family of devices, and how its reports are put
//! together.

use vstd::prelude::*;
#[allow(unused_imports)]
use crate::decode::protocol::{
    family_name, first_field, value_text, Coding, Family, Protocols, Report, Timing, Value,
};
#[allow(unused_imports)]
use crate::fixed::Micro;
#[allow(unused_imports)]
use crate::text::{decimal, digits_read_back, int_text, micro_text, value};

verus! {

/// The sensors send 1024 symbols a second in Manchester code: half a symbol is
/// the short width, to the microsecond below, and a whole one the long. A gap of
/// 2.4 milliseconds ends a frame.
pub proof fn sensors_send_1024_symbols_a_second(p: &Protocols, i: usize, t: Timing)
    requires
        i < p@.len(),
        p@[i as int] == Family::OregonV3,
        call_ensures(Protocols::timing, (p, i), t),
    ensures
        t.coding == Coding::Manchester,
        1024 * 2 * t.short_us <= 1_000_000 < 1024 * 2 * (t.short_us + 1),
        t.long_us == 2 * t.short_us,
        10 * t.reset_us == 24 * 1000,
        t.sync_us == 0,
        t.tolerance_us == 0,
{
}

/// Every family is tried where all are asked for, none where none is.
pub proof fn all_families_are_tried(all: Protocols, none: Protocols, f: Family)
    requires
        call_ensures(Protocols::all, (), all),
        call_ensures(Protocols::none, (), none),
    ensures
        all@.contains(f),
        all@.no_duplicates(),
        !none@.contains(f),
        family_name(f) == "Oregon-v3"@,
{
    assert(all@[0] == f);
}

/// A field is added behind the others, under its name and with its value.
pub proof fn fields_are_added_behind(
    r: Report,
    key: &'static str,
    n: i64,
    x: Micro,
    b: bool,
    s: Report,
    t: Report,
    u: Report,
)
    requires
        call_ensures(Report::with_int, (r, key, n), s),
        call_ensures(Report::with_float, (r, key, x), t),
        call_ensures(Report::with_bool, (r, key, b), u),
    ensures
        s@.fields == r@.fields.push((key@, Value::Int(n))),
        t@.fields == r@.fields.push((key@, Value::Float(x))),
        u@.fields == r@.fields.push((key@, Value::Bool(b))),
        s@.model == r@.model && s@.raw == r@.raw && s@.crc_valid == r@.crc_valid,
        t@.model == r@.model && t@.raw == r@.raw && t@.crc_valid == r@.crc_valid,
        u@.model == r@.model && u@.raw == r@.raw && u@.crc_valid == r@.crc_valid,
{
}

/// A field is found by its name, the first where there are several.
pub proof fn fields_are_found_by_name(r: &Report, key: &str, found: Option<&Value>, i: int)
    requires
        call_ensures(Report::get, (r, key), found),
    ensures
        0 <= i < r@.fields.len() && r@.fields[i].0 == key@ && (forall|k: int|
            0 <= k < i ==> (#[trigger] r@.fields[k]).0 != key@) ==> (found matches Some(v) && *v
            == r@.fields[i].1),
        (forall|k: int| 0 <= k < r@.fields.len() ==> (#[trigger] r@.fields[k]).0 != key@)
            ==> found is None,
{
    if found is Some {
        let j = choose|j: int| #[trigger]
            first_field(r@.fields, key@, j) && r@.fields[j].1 == *found->0;
        assert(r@.fields[j].0 == key@);
        if 0 <= i < r@.fields.len() && r@.fields[i].0 == key@ && (forall|k: int|
            0 <= k < i ==> (#[trigger] r@.fields[k]).0 != key@) {
            if i < j {
                assert(r@.fields[i].0 != key@);
            }
            assert(i == j);
        }
    }
}

/// Values are written as what they are: a count in digits, with a sign where it
/// is negative, a number as millionths are, and a truth value in a word.
pub proof fn values_are_read_back(n: i64, x: Micro, b: bool)
    ensures
        n >= 0 ==> decimal(value_text(Value::Int(n))) && value(value_text(Value::Int(n))) == n,
        n < 0 ==> ({
            let t = value_text(Value::Int(n));
            t.len() > 1 && t[0] == '-' && decimal(t.skip(1)) && value(t.skip(1)) == -n
        }),
        value_text(Value::Float(x)) == micro_text(x@),
        value_text(Value::Bool(b)) == if b {
            "true"@
        } else {
            "false"@
        },
{
    if n >= 0 {
        digits_read_back(n as nat);
    } else {
        let m = (-n) as nat;
        digits_read_back(m);
        assert(int_text(n as int).skip(1) =~= crate::text::digits(m));
    }
}

} // verus!
