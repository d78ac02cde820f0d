use crate::text::{compare_strings, lex_order};
use crate::value::{lemma_view_shape, JsonView, Value};
use std::cmp::Ordering;
use vstd::prelude::*;

verus! {

/// The instant a string names when read as an RFC 3339 timestamp: seconds
/// since the Unix epoch and the nanoseconds past them, or `None` when the
/// string is no such timestamp.
pub uninterp spec fn instant_of(s: Seq<char>) -> Option<(i64, u32)>;

/// Reads a string as a UTC timestamp.
/// Relies on chrono's `FromStr for DateTime<Utc>` (a relaxed RFC 3339 reader),
/// whose result depends on the string alone; `timestamp` and
/// `timestamp_subsec_nanos` turn the instant into plain numbers.
#[verifier::external_body]
fn parse_instant(s: &str) -> (r: Option<(i64, u32)>)
    ensures
        r == instant_of(s@),
{
    s.parse::<chrono::DateTime<chrono::Utc>>().ok().map(|d| (d.timestamp(), d.timestamp_subsec_nanos()))
}

/// Three-way comparison of integers.
pub open spec fn int_order(x: int, y: int) -> Ordering {
    if x < y {
        Ordering::Less
    } else if x > y {
        Ordering::Greater
    } else {
        Ordering::Equal
    }
}

/// Instants in time order: by their seconds, then by their nanoseconds.
pub open spec fn instant_order(a: (i64, u32), b: (i64, u32)) -> Ordering {
    if a.0 != b.0 {
        int_order(a.0 as int, b.0 as int)
    } else {
        int_order(a.1 as int, b.1 as int)
    }
}

/// Two strings in order: as instants when both read as timestamps,
/// otherwise by their characters.
pub open spec fn string_order(a: Seq<char>, b: Seq<char>, ia: Option<(i64, u32)>, ib: Option<(i64, u32)>) -> Ordering {
    match (ia, ib) {
        (Some(x), Some(y)) => instant_order(x, y),
        _ => lex_order(a, b),
    }
}

/// The order of two values: numbers by value, strings as [`string_order`]
/// states; any other pair is incomparable.
pub open spec fn value_order(a: JsonView, b: JsonView) -> Option<Ordering> {
    match (a, b) {
        (JsonView::Num(x, _), JsonView::Num(y, _)) => Some(int_order(x, y)),
        (JsonView::Str(s), JsonView::Str(t)) => Some(string_order(s, t, instant_of(s), instant_of(t))),
        _ => None,
    }
}

/// Compares two numbers by value; anything else is incomparable.
pub fn compare_numbers(a: &Value, b: &Value) -> (r: Option<Ordering>)
    ensures
        r == match (a@, b@) {
            (JsonView::Num(x, _), JsonView::Num(y, _)) => Some(int_order(x, y)),
            _ => None,
        },
{
    proof {
        lemma_view_shape(a);
        lemma_view_shape(b);
    }
    match (a, b) {
        (Value::Number(x), Value::Number(y)) => {
            if x.scaled < y.scaled {
                Some(Ordering::Less)
            } else if x.scaled > y.scaled {
                Some(Ordering::Greater)
            } else {
                Some(Ordering::Equal)
            }
        },
        _ => None,
    }
}

/// Orders two strings given what each reads as when taken for a timestamp
/// (see [`string_order`]).
pub fn order_strings(a: &String, b: &String, ia: Option<(i64, u32)>, ib: Option<(i64, u32)>) -> (r: Ordering)
    ensures
        r == string_order(a@, b@, ia, ib),
{
    match (ia, ib) {
        (Some(x), Some(y)) => {
            if x.0 < y.0 {
                Ordering::Less
            } else if x.0 > y.0 {
                Ordering::Greater
            } else if x.1 < y.1 {
                Ordering::Less
            } else if x.1 > y.1 {
                Ordering::Greater
            } else {
                Ordering::Equal
            }
        },
        _ => compare_strings(a, b),
    }
}

/// Compares two values as [`value_order`] states: numbers by value, then
/// strings as timestamps or by their characters.
pub fn compare_values(a: &Value, b: &Value) -> (r: Option<Ordering>)
    ensures
        r == value_order(a@, b@),
{
    proof {
        lemma_view_shape(a);
        lemma_view_shape(b);
    }
    match compare_numbers(a, b) {
        Some(o) => {
            return Some(o);
        },
        None => {},
    }
    match (a, b) {
        (Value::String(s), Value::String(t)) => {
            let ia = parse_instant(s.as_str());
            let ib = parse_instant(t.as_str());
            Some(order_strings(s, t, ia, ib))
        },
        _ => None,
    }
}

} // verus!
