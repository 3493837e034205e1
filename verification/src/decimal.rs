//! Exact fixed-point numbers for prices and sizes.

use std::str::FromStr;
use vstd::prelude::*;

verus! {

/// Number of decimal places that a [`Decimal`] carries.
pub const DECIMAL_PLACES: u32 = 8;

/// Number of units that make up the value one.
pub const UNITS_PER_ONE: i64 = 100_000_000;

/// An exact fixed-point number: a whole count of units of 10^-8.
#[derive(Clone, Copy, Debug, PartialEq, Eq, Structural)]
pub struct Decimal {
    pub units: i64,
}

impl Decimal {
    /// The value zero.
    pub fn zero() -> (d: Decimal)
        ensures
            d.units == 0,
    {
        Decimal { units: 0 }
    }

    /// The largest value; a market bid is priced here.
    pub fn max() -> (d: Decimal)
        ensures
            d.units == i64::MAX,
    {
        Decimal { units: i64::MAX }
    }

    /// The whole number `n`.
    pub fn from_u32(n: u32) -> (d: Decimal)
        ensures
            d.units == n * UNITS_PER_ONE,
    {
        let wide: i64 = n as i64;
        Decimal { units: wide * UNITS_PER_ONE }
    }

    /// The sum of two numbers, where it fits.
    pub fn checked_add(&self, other: &Decimal) -> (sum: Option<Decimal>)
        ensures
            sum == if i64::MIN <= self.units + other.units <= i64::MAX {
                Some(Decimal { units: (self.units + other.units) as i64 })
            } else {
                None
            },
    {
        match self.units.checked_add(other.units) {
            Some(units) => Some(Decimal { units }),
            None => None,
        }
    }

    /// The difference of two numbers, where it fits.
    pub fn checked_sub(&self, other: &Decimal) -> (difference: Option<Decimal>)
        ensures
            difference == if i64::MIN <= self.units - other.units <= i64::MAX {
                Some(Decimal { units: (self.units - other.units) as i64 })
            } else {
                None
            },
    {
        match self.units.checked_sub(other.units) {
            Some(units) => Some(Decimal { units }),
            None => None,
        }
    }

    /// Whether this number is below the other.
    pub fn is_below(&self, other: &Decimal) -> (below: bool)
        ensures
            below == (self.units < other.units),
    {
        self.units < other.units
    }

    /// The smaller of two numbers.
    pub fn smaller_of(&self, other: &Decimal) -> (least: Decimal)
        ensures
            least.units == if self.units < other.units {
                self.units
            } else {
                other.units
            },
    {
        if self.units < other.units {
            *self
        } else {
            *other
        }
    }

    /// Whether the value is strictly above zero.
    pub fn is_positive(&self) -> (b: bool)
        ensures
            b == (self.units > 0),
    {
        self.units > 0
    }
}


/// What a decimal text stands for: the digits as a whole number and the count of digits
/// behind the point; nothing for a text that is no decimal number.
pub uninterp spec fn decimal_parts(text: Seq<char>) -> Option<(i128, u32)>;

/// The text of the number with the given count of units.
pub uninterp spec fn decimal_text(units: i64) -> Seq<char>;

/// `rust_decimal::Decimal::from_str`, with the parsed number handed out as its mantissa and
/// its scale; nothing where the text is refused.
#[verifier::external_body]
pub(crate) fn parse_parts(text: &str) -> (parts: Option<(i128, u32)>)
    ensures
        parts == decimal_parts(text@),
{
    match rust_decimal::Decimal::from_str(text) {
        Ok(number) => Some((number.mantissa(), number.scale())),
        Err(_) => None,
    }
}

/// `rust_decimal::Decimal::to_string` of the number with the given units, without the zeros
/// at its end.
#[verifier::external_body]
pub(crate) fn units_text(units: i64) -> (text: String)
    ensures
        text@ == decimal_text(units),
{
    rust_decimal::Decimal::from_i128_with_scale(units as i128, DECIMAL_PLACES)
        .normalize()
        .to_string()
}

/// Ten to the power of `n`.
pub open spec fn pow10(n: nat) -> int
    decreases n,
{
    if n == 0 {
        1
    } else {
        10 * pow10((n - 1) as nat)
    }
}

/// The largest mantissa that a decimal of 96 bits can have.
pub const MAX_MANTISSA: i128 = 0xFFFF_FFFF_FFFF_FFFF_FFFF_FFFF;

/// The count of units of the number `mantissa / 10^scale`, where it is a whole count that
/// fits: a scale above 28 and a mantissa of more than 96 bits stand for no number, and a
/// number with more than eight digits behind the point that are not all zero has no whole
/// count of units.
pub open spec fn parts_units(mantissa: int, scale: nat) -> Option<int> {
    let magnitude = if mantissa < 0 {
        -mantissa
    } else {
        mantissa
    };
    if scale > 28 || magnitude > MAX_MANTISSA {
        None
    } else {
        let count = if scale <= 8 {
            Some(magnitude * pow10((8 - scale) as nat))
        } else if magnitude % pow10((scale - 8) as nat) == 0 {
            Some(magnitude / pow10((scale - 8) as nat))
        } else {
            None
        };
        match count {
            Some(c) => if c > i64::MAX {
                None
            } else if mantissa < 0 {
                Some(-c)
            } else {
                Some(c)
            },
            None => None,
        }
    }
}

/// The number that a pair of mantissa and scale stands for, where there is one.
pub open spec fn decimal_of_parts(parts: Option<(i128, u32)>) -> Option<Decimal> {
    match parts {
        Some((mantissa, scale)) => match parts_units(mantissa as int, scale as nat) {
            Some(units) => Some(Decimal { units: units as i64 }),
            None => None,
        },
        None => None,
    }
}

/// The powers of ten are positive and grow with the exponent.
proof fn lemma_pow10_grows(a: nat, b: nat)
    requires
        a <= b,
    ensures
        0 < pow10(a) <= pow10(b),
    decreases b,
{
    if a < b {
        lemma_pow10_grows(a, (b - 1) as nat);
    } else if a > 0 {
        lemma_pow10_grows((a - 1) as nat, (a - 1) as nat);
    }
}

/// The two powers of ten that bound the conversions.
proof fn lemma_pow10_20()
    ensures
        pow10(20) == 100_000_000_000_000_000_000,
        pow10(8) == 100_000_000,
{
    reveal_with_fuel(pow10, 21);
}

/// Ten to the power of `n`, for an `n` of at most twenty.
pub fn pow10_of(n: u32) -> (power: i128)
    requires
        n <= 20,
    ensures
        power == pow10(n as nat),
        0 < power <= 100_000_000_000_000_000_000,
{
    let mut power: i128 = 1;
    let mut i: u32 = 0;
    while i < n
        invariant
            i <= n <= 20,
            power == pow10(i as nat),
            0 < power,
        decreases n - i,
    {
        proof {
            lemma_pow10_grows((i + 1) as nat, 20);
            lemma_pow10_20();
        }
        power = power * 10;
        i = i + 1;
    }
    proof {
        lemma_pow10_grows(n as nat, 20);
        lemma_pow10_20();
    }
    power
}

impl Decimal {
    /// The number `mantissa / 10^scale`, where it has a whole count of units that fits.
    pub fn from_parts(mantissa: i128, scale: u32) -> (d: Option<Decimal>)
        ensures
            d == decimal_of_parts(Some((mantissa, scale))),
    {
        if scale > 28 || mantissa > MAX_MANTISSA || mantissa < -MAX_MANTISSA {
            return None;
        }
        let magnitude: i128 = if mantissa < 0 {
            -mantissa
        } else {
            mantissa
        };
        let count: i128 = if scale <= 8 {
            let factor = pow10_of(8 - scale);
            proof {
                lemma_pow10_grows((8 - scale) as nat, 8);
                lemma_pow10_20();
                assert(magnitude * factor <= 0xFFFF_FFFF_FFFF_FFFF_FFFF_FFFF * 100_000_000)
                    by (nonlinear_arith)
                    requires
                        0 <= magnitude <= 0xFFFF_FFFF_FFFF_FFFF_FFFF_FFFF,
                        0 < factor <= 100_000_000,
                ;
                assert(magnitude * factor >= 0) by (nonlinear_arith)
                    requires
                        0 <= magnitude,
                        0 < factor,
                ;
            }
            magnitude * factor
        } else {
            let divisor = pow10_of(scale - 8);
            if magnitude % divisor != 0 {
                return None;
            }
            magnitude / divisor
        };
        if count > i64::MAX as i128 {
            return None;
        }
        if mantissa < 0 {
            Some(Decimal { units: (-count) as i64 })
        } else {
            Some(Decimal { units: count as i64 })
        }
    }

    /// The number that a decimal text stands for, where it has a whole count of units.
    pub fn parse(text: &str) -> (d: Option<Decimal>)
        ensures
            d == decimal_of_parts(decimal_parts(text@)),
    {
        match parse_parts(text) {
            Some((mantissa, scale)) => Decimal::from_parts(mantissa, scale),
            None => None,
        }
    }

    /// The number as text, without zeros at its end.
    pub fn to_text(&self) -> (text: String)
        ensures
            text@ == decimal_text(self.units),
    {
        units_text(self.units)
    }
}

} // verus!
