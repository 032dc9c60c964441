//! What the library reads of the values that the host hands over.
use vstd::prelude::*;

verus! {

/// As much of a host value as decides whether it counts as true.
#[derive(Clone, Copy, Debug, PartialEq, Eq, Structural)]
pub enum HostValue {
    Null,
    Number {
        zero: bool,
    },
    Other,
}

/// Null and the number zero are false; everything else is true.
pub open spec fn is_truthy(value: HostValue) -> bool {
    value != HostValue::Null && value != HostValue::Number { zero: true }
}

pub fn truthy(value: HostValue) -> (r: bool)
    ensures
        r == is_truthy(value),
{
    match value {
        HostValue::Null => false,
        HostValue::Number { zero } => !zero,
        HostValue::Other => true,
    }
}

/// The number, or zero for a value that is none.
pub open spec fn number_or_zero(number: Option<i32>) -> i32 {
    match number {
        Some(n) => n,
        None => 0,
    }
}

pub(crate) fn or_zero(number: Option<i32>) -> (n: i32)
    ensures
        n == number_or_zero(number),
{
    match number {
        Some(n) => n,
        None => 0,
    }
}

/// The nearest coordinate to a number.
pub open spec fn nearest_coordinate(n: i32) -> i16 {
    if n < i16::MIN {
        i16::MIN
    } else if n > i16::MAX {
        i16::MAX
    } else {
        n as i16
    }
}

pub(crate) fn to_coordinate(n: i32) -> (c: i16)
    ensures
        c == nearest_coordinate(n),
{
    if n < -32768 {
        -32768
    } else if n > 32767 {
        32767
    } else {
        n as i16
    }
}

} // verus!
