//! What standard deviations, correlations and slopes are, said of the numbers that
//! they are taken from.

use crate::decimal::{pow10, unit};
use crate::moments::{
    cross, cubes, dot, indices, lagged, offsets, spread, squares, sum_of, yields_correlation,
    yields_deviation, yields_score, yields_skewness, yields_slope, yields_variation,
};
use crate::scientific::Scientific;
use vstd::prelude::*;

verus! {

/// The sum of what a function gives for the indices below `n`.
pub open spec fn sigma(n: int, f: spec_fn(int) -> int) -> int
    decreases n,
{
    if n <= 0 {
        0
    } else {
        sigma(n - 1, f) + f(n - 1)
    }
}

/// The sum of numbers.
pub open spec fn whole_sum(xs: Seq<int>) -> int {
    sigma(xs.len() as int, |i: int| xs[i])
}

/// How far a number lies from the mean of all, times their number.
pub open spec fn from_mean(xs: Seq<int>, i: int) -> int {
    xs.len() * xs[i] - whole_sum(xs)
}

/// The sum of the squares of the distances from the mean, times the square of the
/// number of numbers.
pub open spec fn squared_distances(xs: Seq<int>) -> int {
    sigma(xs.len() as int, |i: int| from_mean(xs, i) * from_mean(xs, i))
}

/// The sum of the products of the distances of two lists from their means, times the
/// square of their length.
pub open spec fn common_distances(xs: Seq<int>, ys: Seq<int>) -> int {
    sigma(xs.len() as int, |i: int| from_mean(xs, i) * from_mean(ys, i))
}

proof fn lemma_same_sigma(n: int, f: spec_fn(int) -> int, g: spec_fn(int) -> int)
    requires
        forall|i: int| 0 <= i < n ==> #[trigger] f(i) == g(i),
    ensures
        sigma(n, f) == sigma(n, g),
    decreases n,
{
    if n > 0 {
        lemma_same_sigma(n - 1, f, g);
        assert(f(n - 1) == g(n - 1));
    }
}

proof fn lemma_sum(xs: Seq<int>)
    ensures
        sum_of(xs) == whole_sum(xs),
    decreases xs.len(),
{
    if xs.len() > 0 {
        let rest = xs.drop_last();
        lemma_sum(rest);
        lemma_same_sigma(xs.len() - 1, |i: int| rest[i], |i: int| xs[i]);
    }
}

proof fn lemma_dot(xs: Seq<int>, ys: Seq<int>)
    requires
        xs.len() == ys.len(),
    ensures
        dot(xs, ys) == sigma(xs.len() as int, |i: int| xs[i] * ys[i]),
    decreases xs.len(),
{
    if xs.len() > 0 {
        let (a, b) = (xs.drop_last(), ys.drop_last());
        lemma_dot(a, b);
        lemma_same_sigma(xs.len() - 1, |i: int| a[i] * b[i], |i: int| xs[i] * ys[i]);
    }
}

/// The spread of numbers adds up the squares of their distances from the mean, and the
/// cross of two lists the products of those distances; the sum of cubes and that of
/// neighbours are likewise what they are called.
pub proof fn moments_add_up_distances_from_the_mean(xs: Seq<int>, ys: Seq<int>)
    requires
        xs.len() == ys.len(),
    ensures
        spread(xs) == squared_distances(xs),
        cross(xs, ys) == common_distances(xs, ys),
        cubes(xs) == sigma(
            xs.len() as int,
            |i: int| (from_mean(xs, i) * from_mean(xs, i)) * from_mean(xs, i),
        ),
        xs.len() > 0 ==> lagged(xs) == sigma(
            xs.len() - 1,
            |i: int| from_mean(xs, i) * from_mean(xs, i + 1),
        ),
{
    let n = xs.len() as int;
    let (a, b) = (offsets(xs), offsets(ys));
    lemma_sum(xs);
    lemma_sum(ys);
    lemma_dot(a, a);
    lemma_same_sigma(
        n,
        |i: int| a[i] * a[i],
        |i: int| from_mean(xs, i) * from_mean(xs, i),
    );
    lemma_dot(a, b);
    lemma_same_sigma(
        n,
        |i: int| a[i] * b[i],
        |i: int| from_mean(xs, i) * from_mean(ys, i),
    );
    let s = squares(a);
    lemma_dot(s, a);
    lemma_same_sigma(
        n,
        |i: int| s[i] * a[i],
        |i: int| (from_mean(xs, i) * from_mean(xs, i)) * from_mean(xs, i),
    );
    if n > 0 {
        let (p, q) = (a.drop_last(), a.skip(1));
        lemma_dot(p, q);
        lemma_same_sigma(
            n - 1,
            |i: int| p[i] * q[i],
            |i: int| from_mean(xs, i) * from_mean(xs, i + 1),
        );
    }
}

/// Whether the square of a number is `num / den`, up to its last digit: 28 digits, cut.
pub open spec fn squares_to(x: Scientific, num: int, den: int) -> bool {
    let m = x.mantissa as int;
    let e = x.exponent as int;
    if num == 0 {
        m == 0
    } else {
        &&& pow10(27) <= m < pow10(28)
        &&& e >= 0 ==> (m * m) * (den * pow10((2 * e) as nat)) <= num < ((m + 1) * (m + 1)) * (den
            * pow10((2 * e) as nat))
        &&& e < 0 ==> (m * m) * den <= num * pow10((-2 * e) as nat) < ((m + 1) * (m + 1)) * den
    }
}

proof fn lemma_digits()
    ensures
        pow10(27) == 1_000_000_000_000_000_000_000_000_000,
        pow10(28) == 10_000_000_000_000_000_000_000_000_000,
{
    reveal_with_fuel(pow10, 29);
}

/// A standard deviation is not negative, and its square is the variance: the sum of
/// the squared distances from the mean, over `by`.
pub proof fn deviation_squares_to_the_variance(r: Scientific, xs: Seq<int>, by: int)
    requires
        yields_deviation(Some(r), true, xs, by),
    ensures
        !r.negative || r.mantissa == 0,
        squares_to(
            r,
            squared_distances(xs),
            ((xs.len() * xs.len()) * by) * (unit() * unit()),
        ),
{
    moments_add_up_distances_from_the_mean(xs, xs);
    lemma_digits();
}

/// A score has the sign of the distance from the mean, and its square is the square of
/// the distance over the variance.
pub proof fn score_squares_to_distance_over_variance(r: Scientific, v: int, xs: Seq<int>, by: int)
    requires
        yields_score(Some(r), true, v, xs, by),
        xs.len() > 0,
        by > 0,
    ensures
        xs.len() * v != whole_sum(xs) ==> r.negative == (xs.len() * v < whole_sum(xs)),
        squares_to(
            r,
            ((xs.len() * v - whole_sum(xs)) * (xs.len() * v - whole_sum(xs))) * by,
            squared_distances(xs),
        ),
{
    moments_add_up_distances_from_the_mean(xs, xs);
    lemma_sum(xs);
    lemma_digits();
    let d = xs.len() * v - whole_sum(xs);
    assert(d != 0 ==> (d * d) * by != 0) by (nonlinear_arith)
        requires
            by > 0,
    ;
}

/// A variation squares to the variance over the square of the mean.
pub proof fn variation_squares_to_variance_over_mean(
    r: Scientific,
    negative: bool,
    factor: int,
    xs: Seq<int>,
)
    requires
        yields_variation(Some(r), true, negative, factor, xs),
    ensures
        squares_to(
            r,
            (factor * factor) * squared_distances(xs),
            xs.len() * (whole_sum(xs) * whole_sum(xs)),
        ),
        r.mantissa != 0 ==> r.negative == negative,
{
    moments_add_up_distances_from_the_mean(xs, xs);
    lemma_sum(xs);
    lemma_digits();
}

/// A correlation has the sign of the common distances from the means, and its square
/// is their square over the squared distances of both lists.
pub proof fn correlation_squares_to_common_distances(r: Scientific, xs: Seq<int>, ys: Seq<int>)
    requires
        xs.len() == ys.len(),
        yields_correlation(Some(r), true, xs, ys),
    ensures
        common_distances(xs, ys) != 0 ==> r.negative == (common_distances(xs, ys) < 0),
        squares_to(
            r,
            common_distances(xs, ys) * common_distances(xs, ys),
            squared_distances(xs) * squared_distances(ys),
        ),
{
    moments_add_up_distances_from_the_mean(xs, ys);
    moments_add_up_distances_from_the_mean(ys, ys);
    lemma_digits();
    let c = common_distances(xs, ys);
    assert(c != 0 ==> c * c != 0) by (nonlinear_arith);
}

/// Numbers vary with themselves as much as they vary, and against their mirror image as
/// much the other way: their correlations are one and minus one.
pub proof fn numbers_correlate_with_themselves(xs: Seq<int>, ys: Seq<int>)
    requires
        ys.len() == xs.len(),
        forall|i: int| 0 <= i < xs.len() ==> #[trigger] ys[i] == -xs[i],
    ensures
        cross(xs, xs) == spread(xs),
        cross(xs, ys) == -spread(xs),
        spread(ys) == spread(xs),
{
    let n = xs.len() as int;
    moments_add_up_distances_from_the_mean(xs, ys);
    moments_add_up_distances_from_the_mean(ys, ys);
    lemma_negated(n, |i: int| ys[i], |i: int| xs[i]);
    assert forall|i: int| 0 <= i < n implies #[trigger] from_mean(ys, i) == -from_mean(xs, i) by {
        assert(n * (-xs[i]) == -(n * xs[i])) by (nonlinear_arith);
        assert(ys[i] == -xs[i]);
    }
    let own = |i: int| from_mean(xs, i) * from_mean(xs, i);
    let other = |i: int| from_mean(xs, i) * from_mean(ys, i);
    let mirrored = |i: int| from_mean(ys, i) * from_mean(ys, i);
    assert forall|i: int| 0 <= i < n implies #[trigger] other(i) == -own(i) && mirrored(i) == own(
        i,
    ) by {
        let (a, b) = (from_mean(xs, i), from_mean(ys, i));
        assert(a * b == -(a * a) && b * b == a * a) by (nonlinear_arith)
            requires
                b == -a,
        ;
    }
    lemma_negated(n, other, own);
    assert forall|i: int| 0 <= i < n implies #[trigger] mirrored(i) == own(i) by {
        assert(other(i) == -own(i));
    }
    lemma_same_sigma(n, mirrored, own);
}

proof fn lemma_negated(n: int, f: spec_fn(int) -> int, g: spec_fn(int) -> int)
    requires
        forall|i: int| 0 <= i < n ==> #[trigger] f(i) == -g(i),
    ensures
        sigma(n, f) == -sigma(n, g),
    decreases n,
{
    if n > 0 {
        lemma_negated(n - 1, f, g);
        assert(f(n - 1) == -g(n - 1));
    }
}

/// A skewness has the sign of the sum of cubed distances from the mean; its square is
/// the square of that sum times the number of numbers, over the cube of the squared
/// distances.
pub proof fn skewness_squares_to_cubed_distances(r: Scientific, xs: Seq<int>)
    requires
        yields_skewness(Some(r), true, xs),
        xs.len() > 0,
    ensures
        ({
            let c = sigma(
                xs.len() as int,
                |i: int| (from_mean(xs, i) * from_mean(xs, i)) * from_mean(xs, i),
            );
            let s = squared_distances(xs);
            &&& c != 0 ==> r.negative == (c < 0)
            &&& squares_to(r, (c * c) * xs.len(), (s * s) * s)
        }),
{
    moments_add_up_distances_from_the_mean(xs, xs);
    lemma_digits();
    let c = cubes(xs);
    let n = xs.len() as int;
    assert(c != 0 ==> (c * c) * n != 0) by (nonlinear_arith)
        requires
            n > 0,
    ;
}

/// The slope of numbers is the least-squares one: it has the sign of their common
/// distances with their places from the means, and is these over the squared distances
/// of the places.
pub proof fn slope_divides_common_by_squared_distances(r: Scientific, ys: Seq<int>)
    requires
        ys.len() >= 2,
        yields_slope(Some(r), true, ys),
    ensures
        ({
            let xs = Seq::new(ys.len(), |i: int| i);
            let c = common_distances(xs, ys);
            let d = squared_distances(xs) * unit();
            &&& c != 0 ==> r.negative == (c < 0)
            &&& squares_to(r, c * c, d * d)
        }),
{
    let xs = Seq::new(ys.len(), |i: int| i);
    assert(indices(ys.len() as int) =~= xs);
    moments_add_up_distances_from_the_mean(xs, ys);
    lemma_digits();
    let c = common_distances(xs, ys);
    assert(c != 0 ==> c * c != 0) by (nonlinear_arith);
}

/// The slope of numbers on a straight line is the rise of the line: each number is the
/// one before and as much more.
pub proof fn slope_of_a_line_is_its_rise(r: Scientific, ys: Seq<int>, start: int, rise: int)
    requires
        ys.len() >= 2,
        forall|i: int| 0 <= i < ys.len() ==> #[trigger] ys[i] == start + rise * i,
        yields_slope(Some(r), true, ys),
    ensures
        rise != 0 ==> r.negative == (rise < 0),
        ({
            let s = squared_distances(indices(ys.len() as int));
            &&& s > 0
            &&& squares_to(r, (rise * s) * (rise * s), (s * unit()) * (s * unit()))
        }),
{
    let n = ys.len() as int;
    let xs = indices(n);
    moments_add_up_distances_from_the_mean(xs, ys);
    crate::moments::indices_vary(n);
    lemma_digits();
    let s = squared_distances(xs);
    lemma_line(n, |i: int| ys[i], |i: int| xs[i], start, rise);
    assert forall|i: int| 0 <= i < n implies #[trigger] from_mean(ys, i) == rise * from_mean(
        xs,
        i,
    ) by {
        assert(ys[i] == start + rise * i);
        let t = whole_sum(xs);
        assert(n * (start + rise * i) - (n * start + rise * t) == rise * (n * i - t))
            by (nonlinear_arith);
    }
    let own = |i: int| from_mean(xs, i) * from_mean(xs, i);
    let other = |i: int| from_mean(xs, i) * from_mean(ys, i);
    assert forall|i: int| 0 <= i < n implies #[trigger] other(i) == rise * own(i) by {
        let a = from_mean(xs, i);
        assert(from_mean(ys, i) == rise * a);
        assert(a * (rise * a) == rise * (a * a)) by (nonlinear_arith);
    }
    lemma_scaled(n, other, own, rise);
    assert(rise != 0 ==> (rise * s) * (rise * s) != 0) by (nonlinear_arith)
        requires
            s > 0,
    ;
    assert(rise * s < 0 <==> rise < 0) by (nonlinear_arith)
        requires
            s > 0,
    ;
}

proof fn lemma_scaled(n: int, f: spec_fn(int) -> int, g: spec_fn(int) -> int, k: int)
    requires
        forall|i: int| 0 <= i < n ==> #[trigger] f(i) == k * g(i),
    ensures
        sigma(n, f) == k * sigma(n, g),
    decreases n,
{
    if n > 0 {
        lemma_scaled(n - 1, f, g, k);
        assert(f(n - 1) == k * g(n - 1));
        assert(k * (sigma(n - 1, g) + g(n - 1)) == k * sigma(n - 1, g) + k * g(n - 1))
            by (nonlinear_arith);
    } else {
        assert(k * 0 == 0);
    }
}

proof fn lemma_line(
    n: int,
    f: spec_fn(int) -> int,
    g: spec_fn(int) -> int,
    start: int,
    rise: int,
)
    requires
        n >= 0,
        forall|i: int| 0 <= i < n ==> #[trigger] f(i) == start + rise * g(i),
    ensures
        sigma(n, f) == n * start + rise * sigma(n, g),
    decreases n,
{
    if n > 0 {
        lemma_line(n - 1, f, g, start, rise);
        assert(f(n - 1) == start + rise * g(n - 1));
        let (s, v) = (sigma(n - 1, g), g(n - 1));
        assert((n - 1) * start + rise * s + (start + rise * v) == n * start + rise * (s + v))
            by (nonlinear_arith);
    } else {
        assert(0 * start + rise * 0 == 0);
    }
}

} // verus!
