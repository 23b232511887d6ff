//! Deviations, scores, correlations and skewness of lists of numbers.
//!
//! They are quotients and roots of sums of powers of the offsets of the numbers
//! from their mean. An offset times the length of the list is a whole number of
//! units, so that the sums are exact.

use crate::decimal::{unit, Decimal};
use crate::natural::{integers, Integer, Natural};
use crate::scientific::{is_root, ratio_of, root_of, yields_ratio, yields_root, Scientific};
use crate::series::numbers;
use vstd::prelude::*;

verus! {

/// The sum of numbers.
pub open spec fn sum_of(xs: Seq<int>) -> int
    decreases xs.len(),
{
    if xs.len() == 0 {
        0
    } else {
        sum_of(xs.drop_last()) + xs.last()
    }
}

/// The sum of the products of the numbers of two lists.
pub open spec fn dot(xs: Seq<int>, ys: Seq<int>) -> int
    decreases xs.len(),
{
    if xs.len() == 0 || ys.len() == 0 {
        0
    } else {
        dot(xs.drop_last(), ys.drop_last()) + xs.last() * ys.last()
    }
}

/// The distances of numbers from their mean, times the length of the list.
pub open spec fn offsets(xs: Seq<int>) -> Seq<int> {
    Seq::new(xs.len(), |i: int| xs.len() * xs[i] - sum_of(xs))
}

/// The squares of numbers.
pub open spec fn squares(xs: Seq<int>) -> Seq<int> {
    Seq::new(xs.len(), |i: int| xs[i] * xs[i])
}

/// The sum of the squares of the offsets.
pub open spec fn spread(xs: Seq<int>) -> int {
    dot(offsets(xs), offsets(xs))
}

/// The sum of the products of the offsets of two lists.
pub open spec fn cross(xs: Seq<int>, ys: Seq<int>) -> int {
    dot(offsets(xs), offsets(ys))
}

/// The sum of the cubes of the offsets.
pub open spec fn cubes(xs: Seq<int>) -> int {
    dot(squares(offsets(xs)), offsets(xs))
}

/// The sum of the products of offsets with those that follow them.
pub open spec fn lagged(xs: Seq<int>) -> int {
    dot(offsets(xs).drop_last(), offsets(xs).skip(1))
}

/// The square of the standard deviation of numbers of units is
/// `spread(xs) / deviation_den(xs, by)`, where the sum of squares is divided by
/// `by`: the length of the list for a whole population, and one less for a sample.
pub open spec fn deviation_den(xs: Seq<int>, by: int) -> int {
    ((xs.len() * xs.len()) * by) * (unit() * unit())
}

/// Whether a partial function returns the standard deviation of numbers of units.
pub open spec fn yields_deviation(
    r: Option<Scientific>,
    when: bool,
    xs: Seq<int>,
    by: int,
) -> bool {
    yields_root(r, when, false, spread(xs), deviation_den(xs, by))
}

/// Whether a partial function returns the distance of `v` from the mean of `xs` in
/// standard deviations.
pub open spec fn yields_score(
    r: Option<Scientific>,
    when: bool,
    v: int,
    xs: Seq<int>,
    by: int,
) -> bool {
    let offset = xs.len() * v - sum_of(xs);
    yields_root(r, when, offset < 0, (offset * offset) * by, spread(xs))
}

/// Whether a partial function returns `factor` standard deviations of a population
/// over its mean.
pub open spec fn yields_variation(
    r: Option<Scientific>,
    when: bool,
    negative: bool,
    factor: int,
    xs: Seq<int>,
) -> bool {
    let n = xs.len() as int;
    yields_root(
        r,
        when,
        negative,
        (factor * factor) * spread(xs),
        n * (sum_of(xs) * sum_of(xs)),
    )
}

/// Whether a partial function returns the Pearson correlation of two lists.
pub open spec fn yields_correlation(
    r: Option<Scientific>,
    when: bool,
    xs: Seq<int>,
    ys: Seq<int>,
) -> bool {
    let c = cross(xs, ys);
    yields_root(r, when, c < 0, c * c, spread(xs) * spread(ys))
}

/// Whether a partial function returns the skewness of a list: the mean cube of the
/// distances from the mean in standard deviations.
pub open spec fn yields_skewness(r: Option<Scientific>, when: bool, xs: Seq<int>) -> bool {
    let (c, s) = (cubes(xs), spread(xs));
    yields_root(r, when, c < 0, (c * c) * xs.len(), (s * s) * s)
}

proof fn lemma_dot_of_squares(xs: Seq<int>)
    ensures
        dot(xs, xs) >= 0,
        dot(xs, xs) == 0 ==> forall|i: int| 0 <= i < xs.len() ==> #[trigger] xs[i] == 0,
    decreases xs.len(),
{
    if xs.len() > 0 {
        let rest = xs.drop_last();
        lemma_dot_of_squares(rest);
        let v = xs.last();
        assert(v * v >= 0 && (v != 0 ==> v * v > 0)) by (nonlinear_arith);
        if dot(xs, xs) == 0 {
            assert forall|i: int| 0 <= i < xs.len() implies #[trigger] xs[i] == 0 by {
                if i < rest.len() {
                    assert(rest[i] == 0);
                }
            }
        }
    }
}

/// A spread is not negative, and it is zero only where all numbers are the same.
pub proof fn spread_tells_whether_numbers_vary(xs: Seq<int>)
    ensures
        spread(xs) >= 0,
        spread(xs) == 0 <==> forall|i: int, j: int|
            0 <= i < xs.len() && 0 <= j < xs.len() ==> xs[i] == xs[j],
{
    let n = xs.len() as int;
    let o = offsets(xs);
    lemma_dot_of_squares(o);
    if spread(xs) == 0 {
        assert forall|i: int, j: int| 0 <= i < n && 0 <= j < n implies xs[i] == xs[j] by {
            assert(o[i] == 0 && o[j] == 0);
            assert(xs[i] == xs[j]) by (nonlinear_arith)
                requires
                    n * xs[i] == n * xs[j],
                    n > 0,
            ;
        }
    }
    if forall|i: int, j: int| 0 <= i < n && 0 <= j < n ==> xs[i] == xs[j] {
        if n > 0 {
            lemma_sum_of_equals(xs, xs[0]);
            assert forall|i: int| 0 <= i < n implies #[trigger] o[i] == 0 by {
                assert(xs[i] == xs[0]);
            }
            lemma_dot_of_zeros(o);
        }
    }
}

proof fn lemma_sum_of_equals(xs: Seq<int>, v: int)
    requires
        forall|i: int| 0 <= i < xs.len() ==> #[trigger] xs[i] == v,
    ensures
        sum_of(xs) == xs.len() * v,
    decreases xs.len(),
{
    if xs.len() > 0 {
        lemma_sum_of_equals(xs.drop_last(), v);
        assert((xs.len() - 1) * v + v == xs.len() * v) by (nonlinear_arith);
    } else {
        assert(0 * v == 0);
    }
}

proof fn lemma_dot_of_zeros(xs: Seq<int>)
    requires
        forall|i: int| 0 <= i < xs.len() ==> #[trigger] xs[i] == 0,
    ensures
        dot(xs, xs) == 0,
    decreases xs.len(),
{
    if xs.len() > 0 {
        let rest = xs.drop_last();
        assert forall|i: int| 0 <= i < rest.len() implies #[trigger] rest[i] == 0 by {
            assert(xs[i] == 0);
        }
        lemma_dot_of_zeros(rest);
        assert(xs.last() == 0);
    }
}

/// The offsets of numbers from their mean add up to zero, and so do their distances
/// from it in standard deviations.
pub proof fn offsets_add_up_to_zero(xs: Seq<int>)
    ensures
        sum_of(offsets(xs)) == 0,
{
    let s = sum_of(xs);
    let n = xs.len() as int;
    lemma_sum_of_offsets(xs, n, s);
    assert(offsets(xs) =~= Seq::new(xs.len(), |i: int| n * xs[i] - s));
}

proof fn lemma_sum_of_offsets(xs: Seq<int>, n: int, s: int)
    ensures
        sum_of(Seq::new(xs.len(), |i: int| n * xs[i] - s)) == n * sum_of(xs) - xs.len() * s,
    decreases xs.len(),
{
    let all = Seq::new(xs.len(), |i: int| n * xs[i] - s);
    if xs.len() > 0 {
        let rest = xs.drop_last();
        lemma_sum_of_offsets(rest, n, s);
        assert(all.drop_last() =~= Seq::new(rest.len(), |i: int| n * rest[i] - s));
        let (t, v, k) = (sum_of(rest), xs.last(), rest.len() as int);
        assert(n * (t + v) == n * t + n * v) by (nonlinear_arith);
        assert((k + 1) * s == k * s + s) by (nonlinear_arith);
    } else {
        assert(n * 0 == 0 && 0 * s == 0);
    }
}

/// The correlation of a list with another does not depend on which comes first.
pub proof fn cross_is_symmetric(xs: Seq<int>, ys: Seq<int>)
    requires
        xs.len() == ys.len(),
    ensures
        cross(xs, ys) == cross(ys, xs),
{
    lemma_dot_is_symmetric(offsets(xs), offsets(ys));
}

proof fn lemma_dot_is_symmetric(xs: Seq<int>, ys: Seq<int>)
    ensures
        dot(xs, ys) == dot(ys, xs),
    decreases xs.len(),
{
    if xs.len() > 0 && ys.len() > 0 {
        lemma_dot_is_symmetric(xs.drop_last(), ys.drop_last());
        assert(xs.last() * ys.last() == ys.last() * xs.last()) by (nonlinear_arith);
    }
}

/// Decimals as numbers of units.
pub(crate) fn units_of(list: &[Decimal]) -> (r: Vec<Integer>)
    ensures
        integers(r@) == numbers(list@),
        r@.len() == list@.len(),
{
    let mut r: Vec<Integer> = Vec::new();
    let mut i: usize = 0;
    while i < list.len()
        invariant
            i <= list@.len(),
            r@.len() == i,
            forall|k: int| 0 <= k < i ==> (#[trigger] r@[k])@ == list@[k]@,
        decreases list@.len() - i,
    {
        r.push(Integer::units(list[i]));
        i += 1;
    }
    assert(integers(r@) =~= numbers(list@));
    r
}

/// The sum of numbers.
pub(crate) fn add_up(xs: &Vec<Integer>) -> (r: Integer)
    ensures
        r@ == sum_of(integers(xs@)),
{
    let ghost all = integers(xs@);
    let mut r = Integer::new(0);
    let mut i: usize = 0;
    assert(all.take(0) =~= Seq::<int>::empty());
    while i < xs.len()
        invariant
            i <= xs@.len(),
            all == integers(xs@),
            r@ == sum_of(all.take(i as int)),
        decreases xs@.len() - i,
    {
        assert(all.take(i + 1).drop_last() =~= all.take(i as int));
        r = r.plus(&xs[i]);
        i += 1;
    }
    assert(all.take(i as int) =~= all);
    r
}

/// The sum of the products of `n` numbers of one list and of another from the
/// positions `a` and `b` on.
pub(crate) fn add_up_products(
    xs: &Vec<Integer>,
    a: usize,
    ys: &Vec<Integer>,
    b: usize,
    n: usize,
) -> (r: Integer)
    requires
        a + n <= xs.len(),
        b + n <= ys.len(),
    ensures
        r@ == dot(
            integers(xs@).subrange(a as int, a + n),
            integers(ys@).subrange(b as int, b + n),
        ),
{
    let ghost p = integers(xs@).subrange(a as int, a + n);
    let ghost q = integers(ys@).subrange(b as int, b + n);
    let mut r = Integer::new(0);
    let mut i: usize = 0;
    assert(p.take(0) =~= Seq::<int>::empty());
    while i < n
        invariant
            i <= n,
            a + n <= xs.len(),
            b + n <= ys.len(),
            p == integers(xs@).subrange(a as int, a + n),
            q == integers(ys@).subrange(b as int, b + n),
            r@ == dot(p.take(i as int), q.take(i as int)),
        decreases n - i,
    {
        assert(p.take(i + 1).drop_last() =~= p.take(i as int));
        assert(q.take(i + 1).drop_last() =~= q.take(i as int));
        r = r.plus(&xs[a + i].times(&ys[b + i]));
        i += 1;
    }
    assert(p.take(i as int) =~= p);
    assert(q.take(i as int) =~= q);
    r
}

/// The sum of the products of the numbers of two lists.
fn dot_of(xs: &Vec<Integer>, ys: &Vec<Integer>) -> (r: Integer)
    requires
        xs@.len() == ys@.len(),
    ensures
        r@ == dot(integers(xs@), integers(ys@)),
{
    let n: usize = xs.len();
    assert(integers(xs@).subrange(0, n as int) =~= integers(xs@));
    assert(integers(ys@).subrange(0, n as int) =~= integers(ys@));
    add_up_products(xs, 0, ys, 0, n)
}

/// The offsets of numbers from their mean.
fn offsets_of(xs: &Vec<Integer>) -> (r: Vec<Integer>)
    ensures
        integers(r@) == offsets(integers(xs@)),
        r@.len() == xs@.len(),
{
    let ghost all = integers(xs@);
    let n = Integer::new(xs.len() as i128);
    let sum = add_up(xs);
    let mut r: Vec<Integer> = Vec::new();
    let mut i: usize = 0;
    while i < xs.len()
        invariant
            i <= xs@.len(),
            all == integers(xs@),
            n@ == xs@.len(),
            sum@ == sum_of(all),
            r@.len() == i,
            forall|k: int| 0 <= k < i ==> (#[trigger] r@[k])@ == offsets(all)[k],
        decreases xs@.len() - i,
    {
        r.push(n.times(&xs[i]).minus(&sum));
        i += 1;
    }
    assert(integers(r@) =~= offsets(all));
    r
}

/// The sum of the squares of the offsets.
pub(crate) fn spread_of(xs: &Vec<Integer>) -> (r: Natural)
    ensures
        r@ == spread(integers(xs@)),
{
    let o = offsets_of(xs);
    proof {
        spread_tells_whether_numbers_vary(integers(xs@));
    }
    dot_of(&o, &o).magnitude()
}

/// The standard deviation of numbers of units.
pub(crate) fn deviation_of(xs: &Vec<Integer>, by: u64) -> (r: Scientific)
    requires
        xs@.len() > 0,
        by > 0,
    ensures
        is_root(
            r,
            false,
            spread(integers(xs@)),
            deviation_den(integers(xs@), by as int),
        ),
        r.exponent > i128::MIN,
{
    let spread = spread_of(xs);
    let n = Natural::new(xs.len() as u128);
    let one = Natural::new(10_000_000_000_000_000_000_000_000_000);
    let den = n.times(&n).times(&Natural::new(by as u128)).times(&one.times(&one));
    proof {
        let k = xs@.len() as int;
        assert(((k * k) * by) * (unit() * unit()) > 0) by (nonlinear_arith)
            requires
                k > 0,
                by > 0,
                unit() > 0,
        ;
    }
    root_of(false, &spread, &den)
}

/// The distance of a number from the mean of others in standard deviations; `None`
/// where these do not vary.
pub(crate) fn score_of(v: &Integer, xs: &Vec<Integer>, by: u64) -> (r: Option<Scientific>)
    requires
        by > 0,
    ensures
        yields_score(r, spread(integers(xs@)) != 0, v@, integers(xs@), by as int),
{
    let spread = spread_of(xs);
    if spread.is_zero() {
        return None;
    }
    proof {
        spread_tells_whether_numbers_vary(integers(xs@));
    }
    let offset = Integer::new(xs.len() as i128).times(v).minus(&add_up(xs));
    let size = offset.magnitude();
    assert((-offset@) * (-offset@) == offset@ * offset@) by (nonlinear_arith);
    let num = size.times(&size).times(&Natural::new(by as u128));
    Some(root_of(offset.is_negative(), &num, &spread))
}

/// Standard deviations of a population over its mean, or over the size of its mean;
/// `None` where the mean is zero.
pub(crate) fn variation_of(xs: &Vec<Integer>, factor: u64, signed: bool) -> (r: Option<Scientific>)
    requires
        xs@.len() > 0,
    ensures
        yields_variation(
            r,
            sum_of(integers(xs@)) != 0,
            signed && sum_of(integers(xs@)) < 0,
            factor as int,
            integers(xs@),
        ),
{
    let sum = add_up(xs);
    let size = sum.magnitude();
    if size.is_zero() {
        return None;
    }
    let spread = spread_of(xs);
    let factor = Natural::new(factor as u128);
    let num = factor.times(&factor).times(&spread);
    let den = Natural::new(xs.len() as u128).times(&size.times(&size));
    proof {
        let (n, s) = (xs@.len() as int, sum@);
        assert((-s) * (-s) == s * s) by (nonlinear_arith);
        assert(n * (s * s) > 0) by (nonlinear_arith)
            requires
                n > 0,
                s != 0,
        ;
    }
    Some(root_of(signed && sum.is_negative(), &num, &den))
}

/// The Pearson correlation of two lists; `None` where one of them does not vary.
pub(crate) fn correlation_of(xs: &Vec<Integer>, ys: &Vec<Integer>) -> (r: Option<Scientific>)
    requires
        xs@.len() == ys@.len(),
    ensures
        yields_correlation(
            r,
            spread(integers(xs@)) != 0 && spread(integers(ys@)) != 0,
            integers(xs@),
            integers(ys@),
        ),
{
    let sx = spread_of(xs);
    let sy = spread_of(ys);
    if sx.is_zero() || sy.is_zero() {
        return None;
    }
    let c = dot_of(&offsets_of(xs), &offsets_of(ys));
    let size = c.magnitude();
    proof {
        spread_tells_whether_numbers_vary(integers(xs@));
        spread_tells_whether_numbers_vary(integers(ys@));
        assert((-c@) * (-c@) == c@ * c@) by (nonlinear_arith);
        assert(sx@ * sy@ > 0) by (nonlinear_arith)
            requires
                sx@ > 0,
                sy@ > 0,
        ;
    }
    Some(root_of(c.is_negative(), &size.times(&size), &sx.times(&sy)))
}

/// The skewness of a list that varies.
pub(crate) fn skewness_of(xs: &Vec<Integer>) -> (r: Scientific)
    requires
        spread(integers(xs@)) != 0,
    ensures
        yields_skewness(Some(r), true, integers(xs@)),
{
    let s = spread_of(xs);
    let o = offsets_of(xs);
    let ghost all = integers(o@);
    let mut q: Vec<Integer> = Vec::new();
    let mut i: usize = 0;
    while i < o.len()
        invariant
            i <= o@.len(),
            q@.len() == i,
            all == integers(o@),
            forall|k: int| 0 <= k < i ==> (#[trigger] q@[k])@ == squares(all)[k],
        decreases o@.len() - i,
    {
        q.push(o[i].times(&o[i]));
        i += 1;
    }
    assert(integers(q@) =~= squares(all));
    let c = dot_of(&q, &o);
    let size = c.magnitude();
    proof {
        spread_tells_whether_numbers_vary(integers(xs@));
        assert((-c@) * (-c@) == c@ * c@) by (nonlinear_arith);
        assert((s@ * s@) * s@ > 0) by (nonlinear_arith)
            requires
                s@ > 0,
        ;
    }
    let num = size.times(&size).times(&Natural::new(xs.len() as u128));
    root_of(c.is_negative(), &num, &s.times(&s).times(&s))
}

/// The covariance of numbers with those that follow them over their variance, each
/// as a mean; `None` where they do not vary.
pub(crate) fn autocorrelation_of(xs: &Vec<Integer>) -> (r: Option<Scientific>)
    requires
        xs@.len() >= 2,
    ensures
        yields_ratio(
            r,
            spread(integers(xs@)) != 0,
            lagged(integers(xs@)) * xs@.len(),
            spread(integers(xs@)) * (xs@.len() - 1),
        ),
{
    let s = spread_of(xs);
    if s.is_zero() {
        return None;
    }
    let n: usize = xs.len();
    let o = offsets_of(xs);
    let l = add_up_products(&o, 0, &o, 1, n - 1);
    let ghost all = integers(o@);
    assert(all.subrange(0, n - 1) =~= all.drop_last());
    assert(all.subrange(1, n as int) =~= all.skip(1));
    let num = l.times(&Integer::new(n as i128));
    let den = s.times(&Natural::new((n - 1) as u128));
    proof {
        spread_tells_whether_numbers_vary(integers(xs@));
        let v = num@;
        assert((-v) * (-v) == v * v) by (nonlinear_arith);
        assert(s@ * (n - 1) > 0) by (nonlinear_arith)
            requires
                s@ > 0,
                n >= 2,
        ;
    }
    Some(ratio_of(num.is_negative(), &num.magnitude(), &den))
}

/// The indices below `n`.
pub open spec fn indices(n: int) -> Seq<int> {
    Seq::new(n as nat, |i: int| i)
}

/// The indices below `n`.
pub(crate) fn index_values(n: usize) -> (r: Vec<Integer>)
    ensures
        integers(r@) == indices(n as int),
        r@.len() == n,
{
    let mut r: Vec<Integer> = Vec::new();
    let mut i: usize = 0;
    while i < n
        invariant
            i <= n,
            r@.len() == i,
            forall|k: int| 0 <= k < i ==> (#[trigger] r@[k])@ == k,
        decreases n - i,
    {
        r.push(Integer::new(i as i128));
        i += 1;
    }
    assert(integers(r@) =~= indices(n as int));
    r
}

/// Two indices or more vary.
pub proof fn indices_vary(n: int)
    requires
        n >= 2,
    ensures
        spread(indices(n)) > 0,
{
    let xs = indices(n);
    spread_tells_whether_numbers_vary(xs);
    assert(xs[0] != xs[1]);
}

/// Whether a partial function returns the least-squares slope of numbers of units
/// over their indices.
pub open spec fn yields_slope(r: Option<Scientific>, when: bool, ys: Seq<int>) -> bool {
    let xs = indices(ys.len() as int);
    yields_ratio(r, when, cross(xs, ys), spread(xs) * unit())
}

/// The least-squares slope of numbers of units over their indices.
pub(crate) fn slope_of(ys: &Vec<Integer>) -> (r: Scientific)
    requires
        ys@.len() >= 2,
    ensures
        yields_slope(Some(r), true, integers(ys@)),
{
    let xs = index_values(ys.len());
    let s = spread_of(&xs);
    let c = dot_of(&offsets_of(&xs), &offsets_of(ys));
    proof {
        indices_vary(ys@.len() as int);
        let v = c@;
        assert((-v) * (-v) == v * v) by (nonlinear_arith);
        assert(s@ * unit() > 0) by (nonlinear_arith)
            requires
                s@ > 0,
                unit() > 0,
        ;
    }
    let one = Natural::new(10_000_000_000_000_000_000_000_000_000);
    ratio_of(c.is_negative(), &c.magnitude(), &s.times(&one))
}

/// The mean of the squares of numbers of units.
pub(crate) fn mean_square_of(xs: &Vec<Integer>) -> (r: Scientific)
    requires
        xs@.len() > 0,
    ensures
        yields_ratio(
            Some(r),
            true,
            dot(integers(xs@), integers(xs@)),
            xs@.len() * (unit() * unit()),
        ),
{
    let sum = dot_of(xs, xs);
    proof {
        lemma_dot_of_squares(integers(xs@));
        assert(xs@.len() * (unit() * unit()) > 0) by (nonlinear_arith)
            requires
                xs@.len() > 0,
                unit() > 0,
        ;
    }
    let one = Natural::new(10_000_000_000_000_000_000_000_000_000);
    ratio_of(
        false,
        &sum.magnitude(),
        &Natural::new(xs.len() as u128).times(&one.times(&one)),
    )
}

} // verus!
