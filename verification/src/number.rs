//! Exact numbers.
use vstd::prelude::*;

verus! {

/// How many units make one: `2^64`.
pub open spec fn units_per_one() -> int {
    0x1_0000_0000_0000_0000
}

/// A number held exactly, as a count of units of `2^-64`.
///
/// The view is that count; the number stands for `view / 2^64`. Every value
/// of the type is a number, and two values are the same number exactly when
/// their views are equal.
#[derive(Debug, Clone, Copy, PartialEq, Eq, Structural)]
pub struct Number {
    pub units: i128,
}

impl View for Number {
    type V = int;

    open spec fn view(&self) -> int {
        self.units as int
    }
}

impl Number {
    /// The number made of `units` units of `2^-64`.
    pub fn from_units(units: i128) -> (n: Number)
        ensures
            n@ == units,
    {
        Number { units }
    }

    /// The whole number `value`.
    pub fn from_integer(value: i64) -> (n: Number)
        ensures
            n@ == value * units_per_one(),
    {
        let wide: i128 = value as i128;
        assert(-0x8000_0000_0000_0000 <= wide < 0x8000_0000_0000_0000);
        Number { units: wide * 0x1_0000_0000_0000_0000i128 }
    }

    /// The number of units.
    pub fn units(self) -> (u: i128)
        ensures
            u == self@,
    {
        self.units
    }

    /// The sum of two numbers, where it can be held: `None` exactly when the
    /// sum of the views is outside the range of the type.
    pub fn checked_add(self, other: Number) -> (sum: Option<Number>)
        ensures
            sum == Number::spec_sum(self@, other@),
    {
        match self.units.checked_add(other.units) {
            Some(units) => Some(Number { units }),
            None => None,
        }
    }

    /// The sum of the numbers with views `a` and `b`, if it is in range.
    pub open spec fn spec_sum(a: int, b: int) -> Option<Number> {
        if i128::MIN <= a + b <= i128::MAX {
            Some(Number { units: (a + b) as i128 })
        } else {
            None
        }
    }
}

} // verus!
