//! Rotation angles as exact fixed-point numbers, and the decimal literals
//! that write them.
//!
//! An angle is a whole number of femtoradians. Sums of angles are therefore
//! exact, and whether a rotation is negligible is an exact comparison. A
//! literal such as `1.5708`, `-.5` or `2e-3` is read digit by digit: what it
//! holds below one femtoradian is dropped, and a magnitude beyond what an
//! angle can hold, about 9223 rad, is held at that bound.

use crate::text::{
    all_digits, chars_of, decimal_value, digit, digit_number, digit_value, find_first, first_in,
    is_digit, CharSet,
};
use vstd::prelude::*;
use vstd::slice::slice_subrange;

verus! {

/// The largest magnitude, in femtoradians, that still counts as no rotation
/// at all: 10^-10 rad.
pub const NEGLIGIBLE_FEMTORADIANS: i64 = 100_000;

/// The number of decimal places that an angle keeps: one radian is 10^15
/// femtoradians.
pub const DECIMAL_PLACES: usize = 15;

/// A rotation angle, held exactly as a whole number of femtoradians
/// (one femtoradian is 10^-15 rad).
#[derive(Debug, Clone, Copy, PartialEq, Eq, Structural)]
pub struct Angle {
    pub femtoradians: i64,
}

impl Angle {
    /// The angle nearest to `femtoradians` that an `Angle` can hold.
    pub open spec fn clamp(femtoradians: int) -> Angle {
        if femtoradians < i64::MIN {
            Angle { femtoradians: i64::MIN }
        } else if femtoradians > i64::MAX {
            Angle { femtoradians: i64::MAX }
        } else {
            Angle { femtoradians: femtoradians as i64 }
        }
    }

    /// Whether the angle is within 10^-10 rad of zero.
    pub open spec fn is_negligible(self) -> bool {
        -NEGLIGIBLE_FEMTORADIANS <= self.femtoradians <= NEGLIGIBLE_FEMTORADIANS
    }
}

/// A decimal literal taken apart: its sign, the digits before and behind
/// the point, and the power of ten that scales it.
pub struct Literal {
    pub negative: bool,
    pub integer: Seq<char>,
    pub fraction: Seq<char>,
    pub exponent: int,
}

/// The whole number that `text` writes: an optional sign, then one decimal
/// digit or more, and nothing else.
pub open spec fn signed_value(text: Seq<char>) -> Option<int> {
    let signed = text.len() > 0 && (text[0] == '+' || text[0] == '-');
    let digits = if signed {
        text.skip(1)
    } else {
        text
    };
    if digits.len() > 0 && all_digits(digits) {
        if signed && text[0] == '-' {
            Some(-(decimal_value(digits) as int))
        } else {
            Some(decimal_value(digits) as int)
        }
    } else {
        None
    }
}

/// The parts of the decimal literal `text`, where it is one: an optional
/// sign; digits with at most one point among them, of which at least one is
/// a digit; and optionally `e` or `E` with a whole number behind it.
pub open spec fn literal(text: Seq<char>) -> Option<Literal> {
    let signed = text.len() > 0 && (text[0] == '+' || text[0] == '-');
    let body = if signed {
        text.skip(1)
    } else {
        text
    };
    let mark = first_in(body, CharSet::ExponentMark);
    let mantissa = body.take(mark);
    let point = first_in(mantissa, CharSet::Point);
    let integer = mantissa.take(point);
    let fraction = if point < mantissa.len() {
        mantissa.skip(point + 1)
    } else {
        Seq::empty()
    };
    let exponent = if mark < body.len() {
        signed_value(body.skip(mark + 1))
    } else {
        Some(0int)
    };
    if all_digits(integer) && all_digits(fraction) && integer.len() + fraction.len() > 0
        && exponent is Some {
        Some(
            Literal {
                negative: signed && text[0] == '-',
                integer,
                fraction,
                exponent: exponent->0,
            },
        )
    } else {
        None
    }
}

/// `count` zeros.
pub open spec fn zeros(count: nat) -> Seq<char> {
    Seq::new(count, |i: int| '0')
}

/// `magnitude`, or the most that an angle can hold where that is less.
pub open spec fn capped(magnitude: nat) -> int {
    if magnitude > i64::MAX {
        i64::MAX as int
    } else {
        magnitude as int
    }
}

/// The digits that stand left of the point once it has moved `places`
/// places to the right of the start of `digits`; zeros fill the places for
/// which there is no digit.
pub open spec fn digits_left_of(digits: Seq<char>, places: int) -> Seq<char> {
    if places <= 0 {
        Seq::empty()
    } else if places <= digits.len() {
        digits.take(places)
    } else {
        digits + zeros((places - digits.len()) as nat)
    }
}

impl Literal {
    /// The whole number of femtoradians in the magnitude of the literal;
    /// what is left of a femtoradian is dropped.
    pub open spec fn magnitude(self) -> nat {
        decimal_value(
            digits_left_of(
                self.integer + self.fraction,
                self.integer.len() + DECIMAL_PLACES + self.exponent,
            ),
        )
    }

    /// The angle that the literal writes: its magnitude, no larger than an
    /// angle can hold, with its sign.
    pub open spec fn angle(self) -> Angle {
        if self.negative {
            Angle { femtoradians: (-capped(self.magnitude())) as i64 }
        } else {
            Angle { femtoradians: capped(self.magnitude()) as i64 }
        }
    }
}

/// The angle that `text` writes in radians, where it is a decimal literal.
pub open spec fn literal_angle(text: Seq<char>) -> Option<Angle> {
    match literal(text) {
        Some(parts) => Some(parts.angle()),
        None => None,
    }
}

/// Ten to the power of `exponent`.
pub open spec fn power_of_ten(exponent: nat) -> nat
    decreases exponent,
{
    if exponent == 0 {
        1
    } else {
        10 * power_of_ten((exponent - 1) as nat)
    }
}

/// The exponent beyond which the angle of a literal no longer changes.
const EXPONENT_LIMIT: i128 = 1_000_000_000_000_000_000_000_000_000_000;

/// `exponent`, held within the limit.
spec fn bounded(exponent: int) -> int {
    if exponent > EXPONENT_LIMIT {
        EXPONENT_LIMIT as int
    } else if exponent < -EXPONENT_LIMIT {
        -EXPONENT_LIMIT as int
    } else {
        exponent
    }
}

impl Angle {
    /// Reads a whole number with an optional sign, holding it within the
    /// exponent limit.
    fn read_exponent(text: &[char]) -> (exponent: Option<i128>)
        ensures
            exponent is Some <==> signed_value(text@) is Some,
            exponent is Some ==> exponent->0 == bounded(signed_value(text@)->0),
    {
        let signed = text.len() > 0 && (text[0] == '+' || text[0] == '-');
        let digits = if signed {
            slice_subrange(text, 1, text.len())
        } else {
            text
        };
        if digits.len() == 0 {
            return None;
        }
        let mut value: i128 = 0;
        let mut i: usize = 0;
        while i < digits.len()
            invariant
                digits@.len() > 0,
                digits@ == if text@.len() > 0 && (text@[0] == '+' || text@[0] == '-') {
                    text@.skip(1)
                } else {
                    text@
                },
                i <= digits.len(),
                all_digits(digits@.take(i as int)),
                0 <= value <= EXPONENT_LIMIT,
                value == bounded(decimal_value(digits@.take(i as int)) as int),
            decreases digits.len() - i,
        {
            let c = digits[i];
            if !digit(c) {
                assert(!all_digits(digits@)) by {
                    assert(!is_digit(digits@[i as int]));
                }
                return None;
            }
            proof {
                assert(digits@.take(i + 1).drop_last() =~= digits@.take(i as int));
                assert forall|k: int| 0 <= k < i + 1 implies is_digit(
                    #[trigger] digits@.take(i + 1)[k],
                ) by {
                    if k < i {
                        assert(digits@.take(i as int)[k] == digits@[k]);
                    }
                }
            }
            value = 10 * value + digit_number(c) as i128;
            if value > EXPONENT_LIMIT {
                value = EXPONENT_LIMIT;
            }
            i = i + 1;
        }
        assert(digits@.take(i as int) =~= digits@);
        if signed && text[0] == '-' {
            Some(-value)
        } else {
            Some(value)
        }
    }

    /// Appends the characters of `part` to `digits` if all of them are
    /// decimal digits, and tells whether they are.
    fn collect_digits(part: &[char], digits: &mut Vec<char>) -> (all: bool)
        requires
            all_digits(old(digits)@),
        ensures
            all == all_digits(part@),
            all ==> final(digits)@ == old(digits)@ + part@,
            all_digits(final(digits)@),
    {
        let mut i: usize = 0;
        while i < part.len()
            invariant
                i <= part.len(),
                digits@ == old(digits)@ + part@.take(i as int),
                all_digits(digits@),
            decreases part.len() - i,
        {
            let c = part[i];
            if !digit(c) {
                assert(!all_digits(part@)) by {
                    assert(!is_digit(part@[i as int]));
                }
                return false;
            }
            proof {
                let grown = digits@.push(c);
                assert forall|k: int| 0 <= k < grown.len() implies is_digit(
                    #[trigger] grown[k],
                ) by {
                    if k < digits@.len() {
                        assert(grown[k] == digits@[k]);
                    }
                }
            }
            digits.push(c);
            i = i + 1;
        }
        assert(all_digits(part@)) by {
            assert forall|k: int| 0 <= k < part@.len() implies is_digit(#[trigger] part@[k]) by {
                assert(digits@[old(digits)@.len() + k] == part@[k]);
            }
        }
        true
    }

    /// The capped value of the digits that stand left of the point once it
    /// has moved `places` places to the right of the start of `digits`.
    fn capped_magnitude(digits: &Vec<char>, places: i128) -> (magnitude: i64)
        requires
            all_digits(digits@),
        ensures
            magnitude == capped(decimal_value(digits_left_of(digits@, places as int))),
            0 <= magnitude,
    {
        let mut magnitude: i64 = 0;
        let mut i: usize = 0;
        while i < digits.len() && (i as i128) < places
            invariant
                all_digits(digits@),
                i <= digits.len(),
                i <= places || i == 0,
                0 <= magnitude,
                magnitude == capped(decimal_value(digits@.take(i as int))),
            decreases digits.len() - i,
        {
            assert(digits@.take(i + 1).drop_last() =~= digits@.take(i as int));
            let d = digit_number(digits[i]) as i64;
            if magnitude <= (i64::MAX - d) / 10 {
                magnitude = 10 * magnitude + d;
            } else {
                magnitude = i64::MAX;
            }
            i = i + 1;
        }
        if places <= digits.len() as i128 {
            return magnitude;
        }
        assert(digits@.take(i as int) =~= digits@);
        let ghost count = (places - digits.len()) as nat;
        let mut missing: i128 = places - digits.len() as i128;
        while missing > 0 && magnitude != 0 && magnitude != i64::MAX
            invariant
                0 <= missing <= count,
                0 <= magnitude,
                magnitude == capped(decimal_value(digits@ + zeros((count - missing) as nat))),
            decreases missing,
        {
            proof {
                let written = (count - missing) as nat;
                zeros_scale(digits@, written);
                zeros_scale(digits@, written + 1);
                assert(decimal_value(digits@) * (10 * power_of_ten(written)) == 10 * (decimal_value(
                    digits@,
                ) * power_of_ten(written))) by (nonlinear_arith);
            }
            if magnitude <= i64::MAX / 10 {
                magnitude = 10 * magnitude;
            } else {
                magnitude = i64::MAX;
            }
            missing = missing - 1;
        }
        proof {
            let written = (count - missing) as nat;
            let value = decimal_value(digits@);
            zeros_scale(digits@, written);
            zeros_scale(digits@, count);
            power_of_ten_grows(written, count);
            let small = power_of_ten(written);
            let large = power_of_ten(count);
            if missing > 0 && magnitude == 0 {
                assert(value == 0) by (nonlinear_arith)
                    requires
                        value * small == 0,
                        small >= 1,
                ;
                assert(value * large == 0) by (nonlinear_arith)
                    requires
                        value == 0,
                ;
            } else if missing > 0 {
                assert(value * small <= value * large) by (nonlinear_arith)
                    requires
                        small <= large,
                ;
            }
        }
        magnitude
    }

    /// Reads the angle that `text` writes in radians.
    pub fn read(text: &[char]) -> (angle: Option<Angle>)
        ensures
            angle == literal_angle(text@),
    {
        let signed = text.len() > 0 && (text[0] == '+' || text[0] == '-');
        let body = if signed {
            slice_subrange(text, 1, text.len())
        } else {
            text
        };
        let mark = find_first(body, CharSet::ExponentMark);
        let mantissa = slice_subrange(body, 0, mark);
        let point = find_first(mantissa, CharSet::Point);
        let integer = slice_subrange(mantissa, 0, point);
        let mut digits: Vec<char> = Vec::new();
        if !Self::collect_digits(integer, &mut digits) {
            return None;
        }
        if point < mantissa.len() {
            let fraction = slice_subrange(mantissa, point + 1, mantissa.len());
            if !Self::collect_digits(fraction, &mut digits) {
                return None;
            }
        }
        if digits.len() == 0 {
            return None;
        }
        let exponent: i128 = if mark < body.len() {
            match Self::read_exponent(slice_subrange(body, mark + 1, body.len())) {
                Some(exponent) => exponent,
                None => {
                    return None;
                },
            }
        } else {
            0
        };
        proof {
            let parts = literal(text@)->0;
            bounded_exponent_suffices(parts.integer, parts.fraction, parts.exponent);
        }
        let places: i128 = integer.len() as i128 + DECIMAL_PLACES as i128 + exponent;
        let magnitude = Self::capped_magnitude(&digits, places);
        if signed && text[0] == '-' {
            Some(Angle { femtoradians: -magnitude })
        } else {
            Some(Angle { femtoradians: magnitude })
        }
    }

    /// Reads the angle that `text` writes in radians.
    pub fn parse(text: &str) -> (angle: Option<Angle>)
        ensures
            angle == literal_angle(text@),
    {
        let chars = chars_of(text);
        Self::read(chars.as_slice())
    }

    /// The angle nearest to `femtoradians` that an `Angle` can hold.
    pub fn nearest(femtoradians: i128) -> (angle: Angle)
        ensures
            angle == Angle::clamp(femtoradians as int),
    {
        if femtoradians < i64::MIN as i128 {
            Angle { femtoradians: i64::MIN }
        } else if femtoradians > i64::MAX as i128 {
            Angle { femtoradians: i64::MAX }
        } else {
            Angle { femtoradians: femtoradians as i64 }
        }
    }

    /// Tells whether the angle is within 10^-10 rad of zero.
    pub fn negligible(&self) -> (small: bool)
        ensures
            small == self.is_negligible(),
    {
        -NEGLIGIBLE_FEMTORADIANS <= self.femtoradians && self.femtoradians
            <= NEGLIGIBLE_FEMTORADIANS
    }
}

/// Writing `count` zeros behind a number multiplies it by ten to the power
/// of `count`.
pub proof fn zeros_scale(digits: Seq<char>, count: nat)
    ensures
        decimal_value(digits + zeros(count)) == decimal_value(digits) * power_of_ten(count),
    decreases count,
{
    let value = decimal_value(digits);
    if count == 0 {
        assert(digits + zeros(0) =~= digits);
        assert(value * 1 == value) by (nonlinear_arith);
    } else {
        let shorter = (count - 1) as nat;
        let padded = digits + zeros(count);
        zeros_scale(digits, shorter);
        assert(padded.drop_last() =~= digits + zeros(shorter));
        assert(padded.last() == '0');
        assert(decimal_value(padded) == 10 * decimal_value(padded.drop_last()) + digit_value(
            padded.last(),
        ));
        assert(10 * (value * power_of_ten(shorter)) == value * (10 * power_of_ten(shorter)))
            by (nonlinear_arith);
    }
}

/// A number of `digits.len()` digits is less than ten to the power of that
/// length.
pub proof fn decimal_value_below_power(digits: Seq<char>)
    requires
        all_digits(digits),
    ensures
        decimal_value(digits) < power_of_ten(digits.len()),
    decreases digits.len(),
{
    if digits.len() > 0 {
        let front = digits.drop_last();
        assert forall|i: int| 0 <= i < front.len() implies is_digit(#[trigger] front[i]) by {
            assert(front[i] == digits[i]);
        }
        decimal_value_below_power(front);
        assert(is_digit(digits[digits.len() - 1]));
    }
}

/// Leaving off the last `dropped` digits of a number divides it by ten to
/// the power of `dropped`, what is left of the division being dropped too.
pub proof fn leading_digits_divide(digits: Seq<char>, dropped: nat)
    requires
        all_digits(digits),
        dropped <= digits.len(),
    ensures
        decimal_value(digits.take(digits.len() - dropped)) == decimal_value(digits) / power_of_ten(
            dropped,
        ),
    decreases dropped,
{
    let value = decimal_value(digits) as int;
    if dropped == 0 {
        assert(digits.take(digits.len() as int) =~= digits);
        assert(value / 1 == value);
    } else {
        let fewer = (dropped - 1) as nat;
        let longer = digits.take(digits.len() - fewer);
        leading_digits_divide(digits, fewer);
        power_of_ten_grows(0, fewer);
        assert(longer.drop_last() =~= digits.take(digits.len() - dropped));
        assert(is_digit(digits[digits.len() - dropped]));
        assert(longer.last() == digits[digits.len() - dropped]);
        assert(decimal_value(longer.drop_last()) == decimal_value(longer) / 10);
        vstd::arithmetic::div_mod::lemma_div_denominator(value, power_of_ten(fewer) as int, 10);
        assert(power_of_ten(fewer) * 10 == power_of_ten(dropped));
    }
}

/// The magnitude of a literal is the number that its digits write, times
/// the power of ten that brings it to femtoradians, or divided by it, what
/// is left of the division being dropped.
pub proof fn magnitude_is_scaled_value(parts: Literal)
    requires
        all_digits(parts.integer),
        all_digits(parts.fraction),
    ensures
        ({
            let value = decimal_value(parts.integer + parts.fraction);
            let scale = DECIMAL_PLACES + parts.exponent - parts.fraction.len();
            parts.magnitude() == if scale >= 0 {
                value * power_of_ten(scale as nat)
            } else {
                value / power_of_ten((-scale) as nat)
            }
        }),
{
    let digits = parts.integer + parts.fraction;
    let value = decimal_value(digits);
    let scale = DECIMAL_PLACES + parts.exponent - parts.fraction.len();
    let places = parts.integer.len() + DECIMAL_PLACES + parts.exponent;
    assert(places == digits.len() + scale);
    assert forall|i: int| 0 <= i < digits.len() implies is_digit(#[trigger] digits[i]) by {
        if i < parts.integer.len() {
            assert(digits[i] == parts.integer[i]);
        } else {
            assert(digits[i] == parts.fraction[i - parts.integer.len()]);
        }
    }
    if scale >= 0 {
        zeros_scale(digits, scale as nat);
        if places <= digits.len() {
            assert(digits.take(places) =~= digits + zeros(0));
            assert(digits_left_of(digits, places) =~= digits + zeros(0));
        }
    } else if places <= 0 {
        let dropped = (-scale) as nat;
        decimal_value_below_power(digits);
        power_of_ten_grows(digits.len(), dropped);
        vstd::arithmetic::div_mod::lemma_basic_div(value as int, power_of_ten(dropped) as int);
    } else {
        leading_digits_divide(digits, (-scale) as nat);
    }
}

/// Powers of ten grow with the exponent, and the nineteenth is beyond what
/// an angle can hold.
proof fn power_of_ten_grows(small: nat, large: nat)
    requires
        small <= large,
    ensures
        1 <= power_of_ten(small) <= power_of_ten(large),
        power_of_ten(19) == 10_000_000_000_000_000_000,
    decreases large,
{
    reveal_with_fuel(power_of_ten, 20);
    if small < large {
        power_of_ten_grows(small, (large - 1) as nat);
    } else if small > 0 {
        power_of_ten_grows((small - 1) as nat, (small - 1) as nat);
    }
}

/// Once the point stands nineteen places or more to the right of the last
/// digit, the capped magnitude is the cap, or 0 where all digits are zeros.
proof fn far_right_saturates(digits: Seq<char>, places: int)
    requires
        places >= digits.len() + 19,
    ensures
        capped(decimal_value(digits_left_of(digits, places))) == (if decimal_value(digits) == 0 {
            0
        } else {
            i64::MAX as int
        }),
{
    let count = (places - digits.len()) as nat;
    zeros_scale(digits, count);
    power_of_ten_grows(19, count);
    let value = decimal_value(digits);
    let power = power_of_ten(count);
    if value == 0 {
        assert(value * power == 0) by (nonlinear_arith)
            requires
                value == 0,
        ;
    } else {
        assert(value * power >= 10_000_000_000_000_000_000) by (nonlinear_arith)
            requires
                value >= 1,
                power >= 10_000_000_000_000_000_000,
        ;
    }
}

/// Holding the exponent within the limit does not change the capped
/// magnitude.
proof fn bounded_exponent_suffices(integer: Seq<char>, fraction: Seq<char>, exponent: int)
    requires
        integer.len() + fraction.len() <= usize::MAX,
    ensures
        capped(
            decimal_value(
                digits_left_of(integer + fraction, integer.len() + DECIMAL_PLACES + exponent),
            ),
        ) == capped(
            decimal_value(
                digits_left_of(
                    integer + fraction,
                    integer.len() + DECIMAL_PLACES + bounded(exponent),
                ),
            ),
        ),
{
    let digits = integer + fraction;
    if exponent > EXPONENT_LIMIT {
        far_right_saturates(digits, integer.len() + DECIMAL_PLACES + exponent);
        far_right_saturates(digits, integer.len() + DECIMAL_PLACES + bounded(exponent));
    }
}

} // verus!
