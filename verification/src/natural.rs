//! Whole numbers of any size.
//!
//! Sums of squares and cubes of decimals take many more digits than a decimal
//! has. They are worked out exactly on the numbers of this module.

use crate::decimal::{power_of_ten, Decimal};
use vstd::prelude::*;

verus! {

/// The base of the digits.
pub open spec fn base() -> int {
    0x1_0000_0000
}

/// The weight of the digit at position `i`.
pub open spec fn weight(i: nat) -> int
    decreases i,
{
    if i == 0 {
        1
    } else {
        base() * weight((i - 1) as nat)
    }
}

/// The digit at position `i`: zero beyond the last one.
pub open spec fn digit(s: Seq<u32>, i: int) -> int {
    if 0 <= i < s.len() {
        s[i] as int
    } else {
        0
    }
}

/// The value of the first `n` digits, the lowest first.
pub open spec fn value_of(s: Seq<u32>, n: nat) -> int
    decreases n,
{
    if n == 0 {
        0
    } else {
        value_of(s, (n - 1) as nat) + digit(s, n - 1) * weight((n - 1) as nat)
    }
}

proof fn lemma_weight_positive(i: nat)
    ensures
        weight(i) > 0,
    decreases i,
{
    if i > 0 {
        lemma_weight_positive((i - 1) as nat);
    }
}

proof fn lemma_weights_multiply(i: nat, j: nat)
    ensures
        weight(i + j) == weight(i) * weight(j),
    decreases i,
{
    if i == 0 {
        assert(weight(0) * weight(j) == weight(j)) by (nonlinear_arith)
            requires
                weight(0) == 1,
        ;
    } else {
        lemma_weights_multiply((i - 1) as nat, j);
        assert(weight(i + j) == base() * weight((i - 1 + j) as nat));
        let (p, q) = (weight((i - 1) as nat), weight(j));
        assert(base() * (p * q) == (base() * p) * q) by (nonlinear_arith);
    }
}

proof fn lemma_value_bound(s: Seq<u32>, n: nat)
    ensures
        0 <= value_of(s, n) < weight(n),
    decreases n,
{
    if n > 0 {
        lemma_value_bound(s, (n - 1) as nat);
        let (d, w) = (digit(s, n - 1), weight((n - 1) as nat));
        assert(0 <= d * w <= (base() - 1) * w) by (nonlinear_arith)
            requires
                0 <= d <= base() - 1,
                w > 0,
        ;
        assert((base() - 1) * w == base() * w - w) by (nonlinear_arith);
    }
}

proof fn lemma_value_beyond(s: Seq<u32>, n: nat)
    requires
        n >= s.len(),
    ensures
        value_of(s, n) == value_of(s, s.len()),
    decreases n,
{
    if n > s.len() {
        lemma_value_beyond(s, (n - 1) as nat);
        assert(0 * weight((n - 1) as nat) == 0);
    }
}

proof fn lemma_same_digits(s: Seq<u32>, t: Seq<u32>, n: nat)
    requires
        forall|i: int| 0 <= i < n ==> #[trigger] digit(s, i) == digit(t, i),
    ensures
        value_of(s, n) == value_of(t, n),
    decreases n,
{
    if n > 0 {
        lemma_same_digits(s, t, (n - 1) as nat);
        assert(digit(s, n - 1) == digit(t, n - 1));
    }
}

proof fn lemma_push(s: Seq<u32>, d: u32)
    ensures
        value_of(s.push(d), s.len() + 1) == value_of(s, s.len()) + d * weight(s.len()),
{
    assert forall|i: int| 0 <= i < s.len() implies #[trigger] digit(s.push(d), i) == digit(s, i) by {}
    lemma_same_digits(s.push(d), s, s.len());
}

/// A whole number that is not negative, of any size.
#[derive(Debug)]
pub struct Natural {
    /// The digits, the lowest first.
    limbs: Vec<u32>,
}

impl View for Natural {
    type V = int;

    closed spec fn view(&self) -> int {
        value_of(self.limbs@, self.limbs@.len())
    }
}

/// The digit at a position.
fn digit_at(limbs: &Vec<u32>, i: usize) -> (r: u64)
    ensures
        r == digit(limbs@, i as int),
        r < base(),
{
    if i < limbs.len() {
        limbs[i] as u64
    } else {
        0
    }
}

impl Natural {
    /// A natural number is not negative.
    pub proof fn is_not_negative(&self)
        ensures
            self@ >= 0,
    {
        lemma_value_bound(self.limbs@, self.limbs@.len());
    }

    /// A natural number has no more digits than can be held.
    pub proof fn is_bounded(&self)
        ensures
            self@ < weight(self.size()),
    {
        lemma_value_bound(self.limbs@, self.limbs@.len());
    }

    /// The number of digits.
    pub closed spec fn size(&self) -> nat {
        self.limbs@.len()
    }

    /// The number of digits that are held, as far as it matters: it can be counted.
    pub(crate) fn counted(&self) -> (r: usize)
        ensures
            r == self.size(),
    {
        self.limbs.len()
    }

    /// The number `n`.
    pub fn new(n: u128) -> (r: Natural)
        ensures
            r@ == n,
    {
        let mut limbs: Vec<u32> = Vec::new();
        let mut left: u128 = n;
        proof {
            assert(n * weight(0) == n) by (nonlinear_arith)
                requires
                    weight(0) == 1,
            ;
        }
        while left > 0
            invariant
                value_of(limbs@, limbs@.len()) + left * weight(limbs@.len()) == n,
            decreases left,
        {
            let low: u32 = (left % 0x1_0000_0000) as u32;
            let high: u128 = left / 0x1_0000_0000;
            proof {
                lemma_push(limbs@, low);
                let w = weight(limbs@.len());
                assert(weight(limbs@.len() + 1) == base() * w);
                assert(left * w == low * w + high * (base() * w)) by (nonlinear_arith)
                    requires
                        left == low + high * base(),
                ;
            }
            limbs.push(low);
            left = high;
        }
        assert(0 * weight(limbs@.len()) == 0);
        Natural { limbs }
    }

    /// Whether the number is not above another.
    pub fn is_at_most(&self, other: &Natural) -> (r: bool)
        ensures
            r == (self@ <= other@),
    {
        let n: usize = if self.limbs.len() >= other.limbs.len() {
            self.limbs.len()
        } else {
            other.limbs.len()
        };
        let ghost (a, b) = (self.limbs@, other.limbs@);
        proof {
            lemma_value_beyond(a, n as nat);
            lemma_value_beyond(b, n as nat);
        }
        let mut i: usize = n;
        while i > 0
            invariant
                i <= n,
                a == self.limbs@,
                b == other.limbs@,
                value_of(a, n as nat) - value_of(a, i as nat) == value_of(b, n as nat) - value_of(
                    b,
                    i as nat,
                ),
                value_of(a, n as nat) == self@,
                value_of(b, n as nat) == other@,
            decreases i,
        {
            let x: u64 = digit_at(&self.limbs, i - 1);
            let y: u64 = digit_at(&other.limbs, i - 1);
            proof {
                let k = (i - 1) as nat;
                let w = weight(k);
                lemma_value_bound(a, k);
                lemma_value_bound(b, k);
                assert(x < y ==> x * w + w <= y * w) by (nonlinear_arith)
                    requires
                        w > 0,
                ;
                assert(x > y ==> y * w + w <= x * w) by (nonlinear_arith)
                    requires
                        w > 0,
                ;
            }
            if x != y {
                return x < y;
            }
            i -= 1;
        }
        true
    }

    /// Whether the number is zero.
    pub fn is_zero(&self) -> (r: bool)
        ensures
            r == (self@ == 0),
    {
        proof {
            self.is_not_negative();
        }
        self.is_at_most(&Natural::new(0))
    }

    /// The sum.
    pub fn plus(&self, other: &Natural) -> (r: Natural)
        ensures
            r@ == self@ + other@,
    {
        let n: usize = if self.limbs.len() >= other.limbs.len() {
            self.limbs.len()
        } else {
            other.limbs.len()
        };
        let ghost (a, b) = (self.limbs@, other.limbs@);
        let mut limbs: Vec<u32> = Vec::new();
        let mut carry: u64 = 0;
        let mut i: usize = 0;
        assert(0 * weight(0) == 0);
        while i < n
            invariant
                i <= n,
                a == self.limbs@,
                b == other.limbs@,
                limbs@.len() == i,
                carry <= 1,
                value_of(limbs@, i as nat) + carry * weight(i as nat) == value_of(a, i as nat)
                    + value_of(b, i as nat),
            decreases n - i,
        {
            let x: u64 = digit_at(&self.limbs, i);
            let y: u64 = digit_at(&other.limbs, i);
            let sum: u64 = x + y + carry;
            let low: u32 = (sum % 0x1_0000_0000) as u32;
            let high: u64 = sum / 0x1_0000_0000;
            proof {
                lemma_push(limbs@, low);
                let w = weight(i as nat);
                assert(weight((i + 1) as nat) == base() * w);
                assert(low * w + high * (base() * w) == x * w + y * w + carry * w)
                    by (nonlinear_arith)
                    requires
                        low + high * base() == x + y + carry,
                ;
            }
            limbs.push(low);
            carry = high;
            i += 1;
        }
        proof {
            lemma_push(limbs@, carry as u32);
            lemma_value_beyond(a, n as nat);
            lemma_value_beyond(b, n as nat);
        }
        limbs.push(carry as u32);
        Natural { limbs }
    }

    /// The difference of a number and one that is not above it.
    pub fn minus(&self, other: &Natural) -> (r: Natural)
        requires
            other@ <= self@,
        ensures
            r@ == self@ - other@,
    {
        let n: usize = if self.limbs.len() >= other.limbs.len() {
            self.limbs.len()
        } else {
            other.limbs.len()
        };
        let ghost (a, b) = (self.limbs@, other.limbs@);
        let mut limbs: Vec<u32> = Vec::new();
        let mut borrow: u64 = 0;
        let mut i: usize = 0;
        assert(0 * weight(0) == 0);
        while i < n
            invariant
                i <= n,
                a == self.limbs@,
                b == other.limbs@,
                limbs@.len() == i,
                borrow <= 1,
                value_of(limbs@, i as nat) - borrow * weight(i as nat) == value_of(a, i as nat)
                    - value_of(b, i as nat),
            decreases n - i,
        {
            let x: u64 = digit_at(&self.limbs, i);
            let y: u64 = digit_at(&other.limbs, i);
            let all: u64 = x + 0x1_0000_0000 - y - borrow;
            let low: u32 = (all % 0x1_0000_0000) as u32;
            let next: u64 = 1 - all / 0x1_0000_0000;
            proof {
                lemma_push(limbs@, low);
                let w = weight(i as nat);
                assert(weight((i + 1) as nat) == base() * w);
                assert(low * w - next * (base() * w) == x * w - y * w - borrow * w)
                    by (nonlinear_arith)
                    requires
                        low - next * base() == x - y - borrow,
                ;
            }
            limbs.push(low);
            borrow = next;
            i += 1;
        }
        proof {
            lemma_value_beyond(a, n as nat);
            lemma_value_beyond(b, n as nat);
            lemma_value_bound(limbs@, n as nat);
            assert(borrow == 1 ==> borrow * weight(n as nat) == weight(n as nat))
                by (nonlinear_arith);
            assert(0 * weight(n as nat) == 0);
        }
        Natural { limbs }
    }

    /// The product of the number and one digit, put `k` positions up.
    fn times_digit(&self, d: u32, k: usize) -> (r: Natural)
        ensures
            r@ == self@ * d * weight(k as nat),
    {
        let ghost a = self.limbs@;
        let n: usize = self.limbs.len();
        let ghost up = weight(k as nat);
        let mut limbs: Vec<u32> = Vec::new();
        let mut i: usize = 0;
        while i < k
            invariant
                i <= k,
                limbs@.len() == i,
                value_of(limbs@, i as nat) == 0,
            decreases k - i,
        {
            proof {
                lemma_push(limbs@, 0);
                assert(0 * weight(i as nat) == 0);
            }
            limbs.push(0);
            i += 1;
        }
        let mut carry: u64 = 0;
        let mut j: usize = 0;
        assert(0 * weight(k as nat) == 0);
        assert(0 * d * up == 0) by (nonlinear_arith);
        while j < n
            invariant
                j <= n == a.len(),
                a == self.limbs@,
                up == weight(k as nat),
                limbs@.len() == k + j,
                carry < base(),
                value_of(limbs@, (k + j) as nat) + carry * weight((k + j) as nat) == value_of(
                    a,
                    j as nat,
                ) * d * up,
            decreases n - j,
        {
            let x: u64 = digit_at(&self.limbs, j);
            proof {
                assert(x * d + carry <= (base() - 1) * (base() - 1) + base() - 1)
                    by (nonlinear_arith)
                    requires
                        0 <= x <= base() - 1,
                        0 <= d <= base() - 1,
                        0 <= carry <= base() - 1,
                ;
            }
            let all: u64 = x * (d as u64) + carry;
            let low: u32 = (all % 0x1_0000_0000) as u32;
            let high: u64 = all / 0x1_0000_0000;
            proof {
                lemma_push(limbs@, low);
                lemma_weights_multiply(k as nat, j as nat);
                let w = weight((k + j) as nat);
                let v = value_of(a, j as nat);
                let wj = weight(j as nat);
                assert(weight((k + j + 1) as nat) == base() * w);
                assert(low * w + high * (base() * w) == (x * d) * w + carry * w)
                    by (nonlinear_arith)
                    requires
                        low + high * base() == x * d + carry,
                ;
                assert((v + x * wj) * d * up == v * d * up + (x * d) * (up * wj))
                    by (nonlinear_arith);
            }
            limbs.push(low);
            carry = high;
            j += 1;
        }
        proof {
            lemma_push(limbs@, carry as u32);
        }
        limbs.push(carry as u32);
        Natural { limbs }
    }

    /// The product.
    pub fn times(&self, other: &Natural) -> (r: Natural)
        ensures
            r@ == self@ * other@,
    {
        let ghost b = other.limbs@;
        let mut r = Natural::new(0);
        let mut j: usize = 0;
        assert(self@ * 0 == 0);
        while j < other.limbs.len()
            invariant
                j <= b.len(),
                b == other.limbs@,
                r@ == self@ * value_of(b, j as nat),
            decreases b.len() - j,
        {
            let part = self.times_digit(other.limbs[j], j);
            proof {
                let (v, d, w) = (value_of(b, j as nat), b[j as int] as int, weight(j as nat));
                assert(self@ * (v + d * w) == self@ * v + self@ * d * w) by (nonlinear_arith);
            }
            r = r.plus(&part);
            j += 1;
        }
        r
    }

    /// A copy.
    pub fn copied(&self) -> (r: Natural)
        ensures
            r@ == self@,
    {
        self.plus(&Natural::new(0))
    }
}

/// A whole number of any size.
#[derive(Debug)]
pub struct Integer {
    /// Whether the number is below zero.
    negative: bool,
    /// The size of the number.
    magnitude: Natural,
}

impl View for Integer {
    type V = int;

    closed spec fn view(&self) -> int {
        if self.negative {
            -self.magnitude@
        } else {
            self.magnitude@
        }
    }
}

/// Numbers as integers.
pub open spec fn integers(s: Seq<Integer>) -> Seq<int> {
    s.map_values(|i: Integer| i@)
}

impl Integer {
    /// The number `n`.
    pub fn new(n: i128) -> (r: Integer)
        ensures
            r@ == n,
    {
        if n < 0 {
            // The lowest number has no positive counterpart.
            let m: u128 = (-(n + 1)) as u128;
            Integer { negative: true, magnitude: Natural::new(m).plus(&Natural::new(1)) }
        } else {
            Integer { negative: false, magnitude: Natural::new(n as u128) }
        }
    }

    /// A number or its negative.
    pub fn signed(negative: bool, magnitude: Natural) -> (r: Integer)
        ensures
            r@ == (if negative { -magnitude@ } else { magnitude@ }),
    {
        Integer { negative, magnitude }
    }

    /// A decimal as a number of units.
    pub fn units(d: Decimal) -> (r: Integer)
        ensures
            r@ == d@,
    {
        let (mantissa, scale) = d.parts();
        let up: u128 = power_of_ten(28 - scale);
        Integer::new(mantissa).times(&Integer { negative: false, magnitude: Natural::new(up) })
    }

    /// Whether the number is below zero.
    pub fn is_negative(&self) -> (r: bool)
        ensures
            r == (self@ < 0),
    {
        proof {
            self.magnitude.is_not_negative();
        }
        self.negative && !self.magnitude.is_zero()
    }

    /// The size of the number.
    pub fn magnitude(&self) -> (r: Natural)
        ensures
            r@ == (if self@ < 0 { -self@ } else { self@ }),
    {
        proof {
            self.magnitude.is_not_negative();
        }
        self.magnitude.copied()
    }

    /// The sum.
    pub fn plus(&self, other: &Integer) -> (r: Integer)
        ensures
            r@ == self@ + other@,
    {
        if self.negative == other.negative {
            Integer { negative: self.negative, magnitude: self.magnitude.plus(&other.magnitude) }
        } else if other.magnitude.is_at_most(&self.magnitude) {
            Integer { negative: self.negative, magnitude: self.magnitude.minus(&other.magnitude) }
        } else {
            Integer { negative: other.negative, magnitude: other.magnitude.minus(&self.magnitude) }
        }
    }

    /// The difference.
    pub fn minus(&self, other: &Integer) -> (r: Integer)
        ensures
            r@ == self@ - other@,
    {
        self.plus(&Integer { negative: !other.negative, magnitude: other.magnitude.copied() })
    }

    /// The product.
    pub fn times(&self, other: &Integer) -> (r: Integer)
        ensures
            r@ == self@ * other@,
    {
        proof {
            let (a, b) = (self.magnitude@, other.magnitude@);
            assert((-a) * b == -(a * b) && a * (-b) == -(a * b) && (-a) * (-b) == a * b)
                by (nonlinear_arith);
        }
        Integer {
            negative: self.negative != other.negative,
            magnitude: self.magnitude.times(&other.magnitude),
        }
    }

    /// The number as one of 128 bits; `None` where it takes more.
    pub fn to_i128(&self) -> (r: Option<i128>)
        ensures
            match r {
                Some(n) => n == self@,
                None => !(i128::MIN <= self@ <= i128::MAX),
            },
    {
        proof {
            self.magnitude.is_not_negative();
        }
        let top = Natural::new(i128::MAX as u128);
        if self.magnitude.is_at_most(&top) {
            let m: i128 = self.magnitude.small();
            Some(if self.negative {
                -m
            } else {
                m
            })
        } else if self.negative && self.magnitude.is_at_most(&top.plus(&Natural::new(1))) {
            Some(i128::MIN)
        } else {
            None
        }
    }
}

impl Natural {
    /// The number where it takes at most 127 bits.
    fn small(&self) -> (r: i128)
        requires
            self@ <= i128::MAX,
        ensures
            r == self@,
    {
        let ghost a = self.limbs@;
        let mut r: i128 = 0;
        let mut i: usize = self.limbs.len();
        proof {
            lemma_value_bound(a, a.len());
        }
        assert(0 * weight(a.len()) == 0);
        while i > 0
            invariant
                i <= a.len(),
                a == self.limbs@,
                r >= 0,
                self@ <= i128::MAX,
                self@ == r * weight(i as nat) + value_of(a, i as nat),
            decreases i,
        {
            proof {
                let k = (i - 1) as nat;
                let (w, d) = (weight(k), digit(a, k as int));
                lemma_weight_positive(k);
                lemma_value_bound(a, k);
                assert(weight(i as nat) == base() * w);
                assert(r * (base() * w) + d * w == (r * base() + d) * w) by (nonlinear_arith);
                assert(r * base() + d <= (r * base() + d) * w) by (nonlinear_arith)
                    requires
                        r >= 0,
                        d >= 0,
                        w >= 1,
                ;
            }
            r = r * 0x1_0000_0000 + self.limbs[i - 1] as i128;
            i -= 1;
        }
        assert(r * weight(0) == r) by (nonlinear_arith)
            requires
                weight(0) == 1,
        ;
        r
    }
}

} // verus!
