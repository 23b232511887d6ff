//! Fixed-point decimal numbers.
//!
//! A [`Decimal`] is a 96-bit mantissa with up to 28 decimal places. Its view
//! is the number itself, counted in units of `1e-28`, so that order and
//! equality of decimals are order and equality of integers, and two ways to
//! write one number (`1.5` and `1.50`) have the same view.
//!
//! The four operations round: a result is the exact number rounded half to
//! even at the finest decimal place, the 28th at most, at which the mantissa
//! still fits in 96 bits. Where it does not fit at any place the operation is
//! out of range. The one exception is a quotient midway between two decimals
//! whose divisor is written with a mantissa of more than 64 bits: it goes to
//! either. How many places a result is written with depends on how its operands
//! are written. The specification functions [`plus`], [`minus`], [`times`] and
//! [`over`] say so on `Option<Num>`, with `None` for "out of range", so that a
//! whole formula can be written by nesting them.

use crate::text;
use crate::decimal_laws::quotients_by_counts_are_in_range;
use core::cmp::Ordering;
use core::ops::{Add, Div, Mul, Sub};
use vstd::arithmetic::div_mod::lemma_div_multiples_vanish;
use vstd::prelude::*;
use vstd::string::*;

verus! {

/// The view of the number one: `10^28` units.
pub open spec fn unit() -> int {
    10_000_000_000_000_000_000_000_000_000
}

/// The greatest mantissa, `2^96 - 1`.
pub open spec fn max_mantissa() -> int {
    79_228_162_514_264_337_593_543_950_335
}

/// Ten to the power `n`.
pub open spec fn pow10(n: nat) -> int
    decreases n,
{
    if n == 0 {
        1
    } else {
        10 * pow10((n - 1) as nat)
    }
}

/// What becomes of a number midway between two neighbours.
#[derive(Clone, Copy, Debug, PartialEq, Eq, Structural)]
pub enum Tie {
    /// The even neighbour is taken.
    Even,
    /// The upper neighbour is taken.
    Up,
    /// The lower neighbour is taken.
    Down,
}

/// The integer nearest to `num / den`. The denominator is positive.
pub open spec fn nearest_integer(num: int, den: int, tie: Tie) -> int {
    let q = num / den;
    let r = num % den;
    let midway_down = match tie {
        Tie::Even => q % 2 == 0,
        Tie::Up => false,
        Tie::Down => true,
    };
    if 2 * r < den || (2 * r == den && midway_down) {
        q
    } else {
        q + 1
    }
}

/// Whether an integer is a mantissa.
pub open spec fn fits(m: int) -> bool {
    -max_mantissa() <= m <= max_mantissa()
}

/// The mantissa of `num / den` rounded at decimal place `place`.
pub open spec fn mantissa_at(num: int, den: int, place: nat, tie: Tie) -> int {
    nearest_integer(num * pow10(place), den, tie)
}

/// The number `num / den`, in units, rounded at the finest of the decimal
/// places `0..=place` at which its mantissa fits; `None` where none does.
pub open spec fn nearest_from(num: int, den: int, place: nat, tie: Tie) -> Option<int>
    decreases place,
{
    let m = mantissa_at(num, den, place, tie);
    if fits(m) {
        Some(m * pow10((28 - place) as nat))
    } else if place == 0 {
        None
    } else {
        nearest_from(num, den, (place - 1) as nat, tie)
    }
}

/// The decimal, in units, that stands for the rational number `num / den`;
/// `None` where it is out of range or `den` is zero.
pub open spec fn nearest(num: int, den: int, tie: Tie) -> Option<int> {
    if den > 0 {
        nearest_from(num, den, 28, tie)
    } else if den < 0 {
        nearest_from(-num, -den, 28, tie)
    } else {
        None
    }
}

/// A decimal as it is written: a number of units, and the number of decimal
/// places.
pub struct Num {
    /// The number in units.
    pub units: int,
    /// The number of decimal places.
    pub places: nat,
}

impl Num {
    /// The number without its point.
    pub open spec fn mantissa(self) -> int {
        self.units / pow10((28 - self.places) as nat)
    }
}

/// The greater of two numbers of places.
pub open spec fn more_places(a: Num, b: Num) -> nat {
    if a.places < b.places {
        b.places
    } else {
        a.places
    }
}

/// The finest of the decimal places `0..=place` at which the mantissa of
/// `num / den`, rounded half to even, fits; zero where none does.
pub open spec fn fitting_place(num: int, den: int, place: nat) -> nat
    decreases place,
{
    if place == 0 || fits(mantissa_at(num, den, place, Tie::Even)) {
        place
    } else {
        fitting_place(num, den, (place - 1) as nat)
    }
}

/// The exact sum of two numbers in units, rounded to a decimal.
pub open spec fn add_units(a: int, b: int) -> Option<int> {
    nearest(a + b, unit(), Tie::Even)
}

/// The exact difference of two numbers in units, rounded to a decimal.
pub open spec fn sub_units(a: int, b: int) -> Option<int> {
    nearest(a - b, unit(), Tie::Even)
}

/// The exact product of two numbers in units, rounded to a decimal.
pub open spec fn mul_units(a: int, b: int) -> Option<int> {
    nearest(a * b, unit() * unit(), Tie::Even)
}

/// The decimal sum. It has as many places as the operands, as far as they fit;
/// zero adds none.
pub open spec fn plus(x: Option<Num>, y: Option<Num>) -> Option<Num> {
    match (x, y) {
        (Some(a), Some(b)) => match add_units(a.units, b.units) {
            Some(units) => Some(
                Num {
                    units,
                    places: if a.units == 0 {
                        b.places
                    } else if b.units == 0 {
                        a.places
                    } else {
                        fitting_place(a.units + b.units, unit(), more_places(a, b))
                    },
                },
            ),
            None => None,
        },
        _ => None,
    }
}

/// The decimal difference. It has as many places as the operands, as far as they
/// fit; zero adds none.
pub open spec fn minus(x: Option<Num>, y: Option<Num>) -> Option<Num> {
    match (x, y) {
        (Some(a), Some(b)) => match sub_units(a.units, b.units) {
            Some(units) => Some(
                Num {
                    units,
                    places: if a.units == 0 {
                        b.places
                    } else if b.units == 0 {
                        a.places
                    } else {
                        fitting_place(a.units - b.units, unit(), more_places(a, b))
                    },
                },
            ),
            None => None,
        },
        _ => None,
    }
}

/// Whether a mantissa takes at most 32 bits.
pub open spec fn is_short(m: int) -> bool {
    -0x1_0000_0000 < m < 0x1_0000_0000
}

/// The number of places of a product: those of both factors together, as far as
/// they fit. A product with zero has none, nor has one of short mantissas with more
/// than 47 places, which is zero.
pub open spec fn product_places(a: Num, b: Num) -> nat {
    let places = a.places + b.places;
    if a.units == 0 || b.units == 0 || (is_short(a.mantissa()) && is_short(b.mantissa()) && places
        > 47) {
        0
    } else {
        fitting_place(
            a.units * b.units,
            unit() * unit(),
            if places > 28 {
                28
            } else {
                places
            },
        )
    }
}

/// The decimal product.
pub open spec fn times(x: Option<Num>, y: Option<Num>) -> Option<Num> {
    match (x, y) {
        (Some(a), Some(b)) => match mul_units(a.units, b.units) {
            Some(units) => Some(Num { units, places: product_places(a, b) }),
            None => None,
        },
        _ => None,
    }
}

/// Whether a number is written with a mantissa of at most 64 bits.
pub open spec fn is_narrow(a: Num) -> bool {
    -0x1_0000_0000_0000_0000 < a.mantissa() < 0x1_0000_0000_0000_0000
}

/// What `rust_decimal`'s `/` leaves open of the quotient of two decimals, given
/// by their units and places: whether it takes the upper of two decimals that are
/// equally near where the mantissa of the divisor takes more than 64 bits, and how
/// many places it writes.
pub uninterp spec fn written_quotient(a: int, a_places: nat, b: int, b_places: nat) -> (bool, nat);

/// What becomes of a quotient midway between two decimals: the even one is
/// taken, but where the divisor is written with a mantissa of more than 64 bits it
/// may be either.
pub open spec fn quotient_tie(a: Num, b: Num) -> Tie {
    if is_narrow(b) {
        Tie::Even
    } else if written_quotient(a.units, a.places, b.units, b.places).0 {
        Tie::Up
    } else {
        Tie::Down
    }
}

/// The decimal quotient; `None` also where the divisor is zero.
pub open spec fn over(x: Option<Num>, y: Option<Num>) -> Option<Num> {
    match (x, y) {
        (Some(a), Some(b)) => match nearest(a.units, b.units, quotient_tie(a, b)) {
            Some(units) => Some(
                Num {
                    units,
                    places: written_quotient(a.units, a.places, b.units, b.places).1,
                },
            ),
            None => None,
        },
        _ => None,
    }
}

/// Whether a number is in range and has so many units, however it is written.
pub open spec fn amounts_to(x: Option<Num>, units: int) -> bool {
    x is Some && x->0.units == units
}

/// Whether a number is zero, however it is written.
pub open spec fn is_nought(x: Option<Num>) -> bool {
    amounts_to(x, 0)
}

/// The decimal quotient, or another number where the divisor is zero.
pub open spec fn over_or(x: Option<Num>, y: Option<Num>, other: Option<Num>) -> Option<Num> {
    if y is None {
        None
    } else if is_nought(y) {
        other
    } else {
        over(x, y)
    }
}

/// The absolute value.
pub open spec fn magnitude(x: Option<Num>) -> Option<Num> {
    match x {
        Some(a) => Some(Num { units: if a.units < 0 { -a.units } else { a.units }, ..a }),
        None => None,
    }
}

/// The greater of two numbers.
pub open spec fn larger(x: Option<Num>, y: Option<Num>) -> Option<Num> {
    match (x, y) {
        (Some(a), Some(b)) => Some(if a.units < b.units { b } else { a }),
        _ => None,
    }
}

/// The smaller of two numbers.
pub open spec fn smaller(x: Option<Num>, y: Option<Num>) -> Option<Num> {
    match (x, y) {
        (Some(a), Some(b)) => Some(if b.units < a.units { b } else { a }),
        _ => None,
    }
}

/// The number zero, without decimal places.
pub open spec fn nought() -> Num {
    Num { units: 0, places: 0 }
}

/// The whole number `n`.
pub open spec fn whole(n: int) -> Option<Num> {
    Some(Num { units: n * unit(), places: 0 })
}

/// The number of `n` hundredths.
pub open spec fn hundredths(n: int) -> Option<Num> {
    Some(Num { units: n * 100_000_000_000_000_000_000_000_000, places: 2 })
}

/// A number in decimal: the whole part, and as many digits after the point as
/// there are decimal places.
pub open spec fn decimal_text(mantissa: int, scale: nat) -> Seq<char> {
    let m = if mantissa < 0 {
        -mantissa
    } else {
        mantissa
    };
    let sign = if mantissa < 0 {
        "-"@
    } else {
        Seq::empty()
    };
    let places = if scale == 0 {
        Seq::empty()
    } else {
        "."@ + text::padded((m % pow10(scale)) as nat, scale)
    };
    sign + text::digits((m / pow10(scale)) as nat) + places
}

/// What a partial function on decimals returns: `value` where `when` holds,
/// and `None` where it does not.
pub open spec fn yields(r: Option<Decimal>, when: bool, value: Option<Num>) -> bool {
    if when {
        r is Some && r->0.val() == value
    } else {
        r is None
    }
}

/// A decimal number `mantissa / 10^scale`.
#[derive(Clone, Copy, Debug)]
pub struct Decimal {
    mantissa: i128,
    scale: u32,
}

impl View for Decimal {
    type V = int;

    /// The number in units of `1e-28`.
    closed spec fn view(&self) -> int {
        self.mantissa * pow10((28 - self.scale) as nat)
    }
}

impl Decimal {
    #[verifier::type_invariant]
    spec fn inv(self) -> bool {
        fits(self.mantissa as int) && self.scale <= 28
    }

    /// The number as an operand of [`plus`] and the like.
    pub open spec fn val(self) -> Option<Num> {
        Some(self.num())
    }

    /// The number as it is written.
    pub open spec fn num(self) -> Num {
        Num { units: self@, places: self.places() }
    }

    /// The number of decimal places.
    pub closed spec fn places(self) -> nat {
        self.scale as nat
    }

    /// The number in decimal.
    pub open spec fn text(self) -> Seq<char> {
        decimal_text(self.num().mantissa(), self.places())
    }

    /// The mantissa is the number without its point.
    proof fn lemma_mantissa(self)
        ensures
            self.scale <= 28 ==> self.num().mantissa() == self.mantissa,
    {
        if self.scale <= 28 {
            let p = pow10((28 - self.scale) as nat);
            lemma_pow10_positive((28 - self.scale) as nat);
            lemma_div_multiples_vanish(self.mantissa as int, p);
            assert(p * self.mantissa == self.mantissa * p) by (nonlinear_arith);
        }
    }

    /// The number `mantissa / 10^scale`; `None` where the mantissa takes more
    /// than 96 bits or there are more than 28 decimal places.
    pub fn from_parts(mantissa: i128, scale: u32) -> (r: Option<Decimal>)
        ensures
            yields(
                r,
                fits(mantissa as int) && scale <= 28,
                Some(Num { units: mantissa * pow10((28 - scale) as nat), places: scale as nat }),
            ),
            r is Some ==> r->0.text() == decimal_text(mantissa as int, scale as nat),
    {
        if -79_228_162_514_264_337_593_543_950_335 <= mantissa && mantissa
            <= 79_228_162_514_264_337_593_543_950_335 && scale <= 28 {
            let r = Decimal { mantissa, scale };
            proof {
                r.lemma_mantissa();
            }
            Some(r)
        } else {
            None
        }
    }

    /// The mantissa and the number of decimal places.
    pub fn parts(&self) -> (r: (i128, u32))
        ensures
            fits(r.0 as int),
            r.1 <= 28,
            self@ == r.0 * pow10((28 - r.1) as nat),
            self.places() == r.1,
            self.num().mantissa() == r.0,
    {
        proof {
            use_type_invariant(self);
            self.lemma_mantissa();
        }
        (self.mantissa, self.scale)
    }

    /// A whole number.
    pub fn whole(n: i64) -> (r: Decimal)
        ensures
            r.val() == whole(n as int),
    {
        proof {
            lemma_pow10_28();
        }
        Decimal { mantissa: n as i128, scale: 0 }
    }

    /// A count.
    pub fn count(n: u64) -> (r: Decimal)
        ensures
            r.val() == whole(n as int),
    {
        proof {
            lemma_pow10_28();
        }
        Decimal { mantissa: n as i128, scale: 0 }
    }

    /// A number of hundredths.
    pub fn hundredths(n: i64) -> (r: Decimal)
        ensures
            r.val() == hundredths(n as int),
    {
        proof {
            assert(pow10(26) == 100_000_000_000_000_000_000_000_000) by {
                reveal_with_fuel(pow10, 27);
            }
        }
        Decimal { mantissa: n as i128, scale: 2 }
    }

    /// The number `1e-9`.
    pub fn billionth() -> (r: Decimal)
        ensures
            r.num() == (Num { units: 10_000_000_000_000_000_000, places: 9 }),
    {
        proof {
            assert(pow10(19) == 10_000_000_000_000_000_000) by {
                reveal_with_fuel(pow10, 20);
            }
        }
        Decimal { mantissa: 1, scale: 9 }
    }

    /// The number `1e-12`.
    pub fn trillionth() -> (r: Decimal)
        ensures
            r.num() == (Num { units: 10_000_000_000_000_000, places: 12 }),
    {
        proof {
            assert(pow10(16) == 10_000_000_000_000_000) by {
                reveal_with_fuel(pow10, 17);
            }
        }
        Decimal { mantissa: 1, scale: 12 }
    }

    /// The number in decimal, such as `-12.50`: with as many digits after the
    /// point as there are decimal places.
    pub fn to_string(&self) -> (r: String)
        ensures
            r@ == self.text(),
    {
        proof {
            use_type_invariant(self);
            self.lemma_mantissa();
        }
        let m: u128 = if self.mantissa < 0 {
            (-self.mantissa) as u128
        } else {
            self.mantissa as u128
        };
        let p: u128 = power_of_ten(self.scale);
        let mut r = if self.mantissa < 0 {
            String::from_str("-")
        } else {
            String::new()
        };
        r.append(text::number_text(m / p).as_str());
        if self.scale > 0 {
            r.append(".");
            r.append(text::padded_text(m % p, self.scale).as_str());
        }
        assert(r@ =~= self.text());
        r
    }

    /// The number zero.
    pub fn zero() -> (r: Decimal)
        ensures
            r.num() == nought(),
    {
        Decimal { mantissa: 0, scale: 0 }
    }

    /// Whether the number is zero.
    pub fn is_zero(&self) -> (r: bool)
        ensures
            r == (self@ == 0),
    {
        proof {
            lemma_pow10_positive((28 - self.scale) as nat);
            lemma_product_sign(self.mantissa as int, pow10((28 - self.scale) as nat));
        }
        self.mantissa == 0
    }

    /// The absolute value.
    pub fn abs(&self) -> (r: Decimal)
        ensures
            r.val() == magnitude(self.val()),
    {
        proof {
            use_type_invariant(self);
            lemma_pow10_positive((28 - self.scale) as nat);
            lemma_product_sign(self.mantissa as int, pow10((28 - self.scale) as nat));
        }
        if self.mantissa < 0 {
            Decimal { mantissa: -self.mantissa, scale: self.scale }
        } else {
            *self
        }
    }

    /// The greater of two numbers.
    pub fn max(self, other: Decimal) -> (r: Decimal)
        ensures
            r.val() == larger(self.val(), other.val()),
    {
        if self < other {
            other
        } else {
            self
        }
    }

    /// The smaller of two numbers.
    pub fn min(self, other: Decimal) -> (r: Decimal)
        ensures
            r.val() == smaller(self.val(), other.val()),
    {
        if other < self {
            other
        } else {
            self
        }
    }

    /// `rust_decimal::Decimal::cmp`: it orders decimals as numbers, whatever
    /// their scales.
    #[verifier::external_body]
    fn compared_with(&self, other: &Decimal) -> (r: Ordering)
        ensures
            r == (if self@ < other@ {
                Ordering::Less
            } else if self@ > other@ {
                Ordering::Greater
            } else {
                Ordering::Equal
            }),
    {
        let a = rust_decimal::Decimal::from_i128_with_scale(self.mantissa, self.scale);
        let b = rust_decimal::Decimal::from_i128_with_scale(other.mantissa, other.scale);
        a.cmp(&b)
    }

    /// `rust_decimal::Decimal::checked_add`: the sum rounded half to even at the
    /// finest place at which it fits, and `None` where it is out of range. It is
    /// written with as many places as the operands, as far as they
    /// fit; it is the other operand where one is zero.
    #[verifier::external_body]
    pub(crate) fn checked_add(self, rhs: Decimal) -> (r: Option<Decimal>)
        ensures
            yields(r, plus(self.val(), rhs.val()) is Some, plus(self.val(), rhs.val())),
    {
        let a = rust_decimal::Decimal::from_i128_with_scale(self.mantissa, self.scale);
        let b = rust_decimal::Decimal::from_i128_with_scale(rhs.mantissa, rhs.scale);
        let c = a.checked_add(b)?;
        Some(Decimal { mantissa: c.mantissa(), scale: c.scale() })
    }

    /// `rust_decimal::Decimal::checked_sub`: the difference rounded half to even at the
    /// finest place at which it fits, and `None` where it is out of range. It is
    /// written with as many places as the operands, as far as
    /// they fit; it is written as the other operand where one is zero.
    #[verifier::external_body]
    pub(crate) fn checked_sub(self, rhs: Decimal) -> (r: Option<Decimal>)
        ensures
            yields(r, minus(self.val(), rhs.val()) is Some, minus(self.val(), rhs.val())),
    {
        let a = rust_decimal::Decimal::from_i128_with_scale(self.mantissa, self.scale);
        let b = rust_decimal::Decimal::from_i128_with_scale(rhs.mantissa, rhs.scale);
        let c = a.checked_sub(b)?;
        Some(Decimal { mantissa: c.mantissa(), scale: c.scale() })
    }

    /// `rust_decimal::Decimal::checked_mul`: the product rounded half to even at the
    /// finest place at which it fits, and `None` where it is out of range. It is
    /// written with the places of both factors together, as far as
    /// they fit; a product with zero has none, nor has one of two mantissas of 32
    /// bits with more than 47 places.
    #[verifier::external_body]
    pub(crate) fn checked_mul(self, rhs: Decimal) -> (r: Option<Decimal>)
        ensures
            yields(r, times(self.val(), rhs.val()) is Some, times(self.val(), rhs.val())),
    {
        let a = rust_decimal::Decimal::from_i128_with_scale(self.mantissa, self.scale);
        let b = rust_decimal::Decimal::from_i128_with_scale(rhs.mantissa, rhs.scale);
        let c = a.checked_mul(b)?;
        Some(Decimal { mantissa: c.mantissa(), scale: c.scale() })
    }

    /// `rust_decimal::Decimal::checked_div`: the quotient rounded half to even at
    /// the finest place at which it fits, and `None` where it is out of range or the
    /// divisor is zero. Where the divisor has a mantissa of more than 64 bits, a
    /// quotient midway between two decimals may go to either; which one, and how many
    /// places the quotient is written with, depends on how the operands are written.
    #[verifier::external_body]
    pub(crate) fn checked_div(self, rhs: Decimal) -> (r: Option<Decimal>)
        ensures
            yields(
                r,
                nearest(self@, rhs@, quotient_tie(self.num(), rhs.num())) is Some,
                Some(
                    Num {
                        units: nearest(self@, rhs@, quotient_tie(self.num(), rhs.num()))->0,
                        places: written_quotient(self@, self.places(), rhs@, rhs.places()).1,
                    },
                ),
            ),
    {
        let a = rust_decimal::Decimal::from_i128_with_scale(self.mantissa, self.scale);
        let b = rust_decimal::Decimal::from_i128_with_scale(rhs.mantissa, rhs.scale);
        let c = a.checked_div(b)?;
        Some(Decimal { mantissa: c.mantissa(), scale: c.scale() })
    }

    /// The number divided by a count, which is always in range.
    pub(crate) fn per(self, n: u64) -> (r: Decimal)
        requires
            n > 0,
        ensures
            r.val() == over(self.val(), whole(n as int)),
    {
        proof {
            use_type_invariant(&self);
            let p = pow10((28 - self.scale) as nat);
            lemma_pow10_28();
            lemma_pow10_positive((28 - self.scale) as nat);
            lemma_pow10_positive(self.scale as nat);
            lemma_pow10_adds((28 - self.scale) as nat, self.scale as nat);
            assert(p <= unit()) by (nonlinear_arith)
                requires
                    p > 0,
                    pow10(self.scale as nat) >= 1,
                    p * pow10(self.scale as nat) == unit(),
            ;
            let m = self.mantissa as int;
            assert(-(max_mantissa() * n) * unit() <= m * p <= (max_mantissa() * n) * unit())
                by (nonlinear_arith)
                requires
                    -max_mantissa() <= m <= max_mantissa(),
                    0 < p <= unit(),
                    n >= 1,
            {
                assert(-max_mantissa() * p <= m * p <= max_mantissa() * p);
                assert(max_mantissa() * p <= max_mantissa() * unit());
                assert(max_mantissa() * unit() <= (max_mantissa() * n) * unit());
            }
            quotients_by_counts_are_in_range(self.num(), n as int, max_mantissa());
        }
        self / Decimal::count(n)
    }
}

impl PartialEq for Decimal {
    fn eq(&self, other: &Decimal) -> (r: bool) {
        match self.compared_with(other) {
            Ordering::Equal => true,
            _ => false,
        }
    }
}

impl vstd::std_specs::cmp::PartialEqSpecImpl for Decimal {
    open spec fn obeys_eq_spec() -> bool {
        true
    }

    open spec fn eq_spec(&self, other: &Decimal) -> bool {
        self@ == other@
    }
}

impl PartialOrd for Decimal {
    fn partial_cmp(&self, other: &Decimal) -> (r: Option<Ordering>) {
        Some(self.compared_with(other))
    }
}

impl vstd::std_specs::cmp::PartialOrdSpecImpl for Decimal {
    open spec fn obeys_partial_cmp_spec() -> bool {
        true
    }

    open spec fn partial_cmp_spec(&self, other: &Decimal) -> Option<Ordering> {
        if self@ < other@ {
            Some(Ordering::Less)
        } else if self@ > other@ {
            Some(Ordering::Greater)
        } else {
            Some(Ordering::Equal)
        }
    }
}

impl Add for Decimal {
    type Output = Decimal;

    fn add(self, rhs: Decimal) -> (r: Decimal)
        ensures
            r.val() == plus(self.val(), rhs.val()),
    {
        self.checked_add(rhs).unwrap()
    }
}

impl vstd::std_specs::ops::AddSpecImpl for Decimal {
    open spec fn obeys_add_spec() -> bool {
        false
    }

    open spec fn add_req(self, rhs: Decimal) -> bool {
        plus(self.val(), rhs.val()) is Some
    }

    open spec fn add_spec(self, rhs: Decimal) -> Decimal {
        self
    }
}

impl Sub for Decimal {
    type Output = Decimal;

    fn sub(self, rhs: Decimal) -> (r: Decimal)
        ensures
            r.val() == minus(self.val(), rhs.val()),
    {
        self.checked_sub(rhs).unwrap()
    }
}

impl vstd::std_specs::ops::SubSpecImpl for Decimal {
    open spec fn obeys_sub_spec() -> bool {
        false
    }

    open spec fn sub_req(self, rhs: Decimal) -> bool {
        minus(self.val(), rhs.val()) is Some
    }

    open spec fn sub_spec(self, rhs: Decimal) -> Decimal {
        self
    }
}

impl Mul for Decimal {
    type Output = Decimal;

    fn mul(self, rhs: Decimal) -> (r: Decimal)
        ensures
            r.val() == times(self.val(), rhs.val()),
    {
        self.checked_mul(rhs).unwrap()
    }
}

impl vstd::std_specs::ops::MulSpecImpl for Decimal {
    open spec fn obeys_mul_spec() -> bool {
        false
    }

    open spec fn mul_req(self, rhs: Decimal) -> bool {
        times(self.val(), rhs.val()) is Some
    }

    open spec fn mul_spec(self, rhs: Decimal) -> Decimal {
        self
    }
}

impl Div for Decimal {
    type Output = Decimal;

    fn div(self, rhs: Decimal) -> (r: Decimal)
        ensures
            r.val() == over(self.val(), rhs.val()),
    {
        self.checked_div(rhs).unwrap()
    }
}

impl vstd::std_specs::ops::DivSpecImpl for Decimal {
    open spec fn obeys_div_spec() -> bool {
        false
    }

    open spec fn div_req(self, rhs: Decimal) -> bool {
        over(self.val(), rhs.val()) is Some
    }

    open spec fn div_spec(self, rhs: Decimal) -> Decimal {
        self
    }
}

/// Ten to the power `n`.
pub(crate) fn power_of_ten(n: u32) -> (r: u128)
    requires
        n <= 28,
    ensures
        r == pow10(n as nat),
        r > 0,
    decreases n,
{
    proof {
        reveal_with_fuel(pow10, 29);
    }
    if n == 0 {
        1
    } else {
        10 * power_of_ten(n - 1)
    }
}

pub(crate) proof fn lemma_pow10_positive(n: nat)
    ensures
        pow10(n) > 0,
    decreases n,
{
    if n > 0 {
        lemma_pow10_positive((n - 1) as nat);
    }
}

pub(crate) proof fn lemma_pow10_adds(a: nat, b: nat)
    ensures
        pow10(a + b) == pow10(a) * pow10(b),
    decreases a,
{
    if a == 0 {
        assert(pow10(a) * pow10(b) == pow10(b)) by (nonlinear_arith)
            requires
                pow10(a) == 1,
        ;
    } else {
        lemma_pow10_adds((a - 1) as nat, b);
        assert(pow10(a + b) == 10 * pow10((a - 1 + b) as nat));
        let p = pow10((a - 1) as nat);
        let q = pow10(b);
        assert(10 * (p * q) == (10 * p) * q) by (nonlinear_arith);
    }
}

pub(crate) proof fn lemma_pow10_28()
    ensures
        pow10(28) == unit(),
{
    reveal_with_fuel(pow10, 29);
}

pub(crate) proof fn lemma_product_sign(m: int, p: int)
    by (nonlinear_arith)
    requires
        p > 0,
    ensures
        m == 0 <==> m * p == 0,
        m < 0 <==> m * p < 0,
        (-m) * p == -(m * p),
{
}

} // verus!
