//! Laws of counts, runs, sums and means.

use crate::decimal::{amounts_to, max_mantissa, over, plus, quotient_tie, unit, whole, Num, Tie};
use crate::decimal_laws::{
    bounded_sums_are_in_range, exact_operations_are_kept, exact_quotient_is_kept, is_decimal,
    quotients_by_counts_are_in_range, range_reaches_to_zero, result_is_a_decimal,
    rounding_keeps_order, rounding_keeps_whole_bounds, shares_are_moved_little,
    sums_are_moved_little, tenth, zero_and_one_are_decimals,
};
use crate::series::{
    all_some, ascending, highest, highest_is_the_greatest, last_highest, longest_run, mean,
    mean_where, placed, run_at_end, tally, total, total_where,
};
use vstd::prelude::*;

verus! {

/// A count is a share of what is counted: it is not negative and not above the
/// number of indices, so that a fraction of bars lies between zero and one.
pub proof fn count_is_a_share(n: int, p: spec_fn(int) -> bool)
    requires
        n >= 0,
    ensures
        0 <= tally(n, p) <= n,
    decreases n,
{
    if n > 0 {
        count_is_a_share(n - 1, p);
    }
}

/// A count is above zero exactly where there is something to count.
pub proof fn count_is_above_zero_where_one_counts(n: int, p: spec_fn(int) -> bool)
    requires
        n >= 0,
    ensures
        tally(n, p) > 0 <==> exists|i: int| 0 <= i < n && #[trigger] p(i),
    decreases n,
{
    if n > 0 {
        count_is_above_zero_where_one_counts(n - 1, p);
        count_is_a_share(n - 1, p);
        if p(n - 1) {
            assert(0 <= n - 1 < n && p(n - 1));
        }
    }
}

/// What is either of two kinds, but never both, is counted by adding the counts
/// of the two.
pub proof fn counts_of_parts_add_up(
    n: int,
    p: spec_fn(int) -> bool,
    q: spec_fn(int) -> bool,
    either: spec_fn(int) -> bool,
)
    requires
        forall|i: int| 0 <= i < n ==> !(#[trigger] p(i) && q(i)),
        forall|i: int| 0 <= i < n ==> #[trigger] either(i) == (p(i) || q(i)),
    ensures
        tally(n, either) == tally(n, p) + tally(n, q),
    decreases n,
{
    if n > 0 {
        counts_of_parts_add_up(n - 1, p, q, either);
        assert(!(p(n - 1) && q(n - 1)));
        assert(either(n - 1) == (p(n - 1) || q(n - 1)));
    }
}

/// The run at the end is not longer than the longest run, and no run is longer
/// than the number of indices that can be in it.
pub proof fn longest_run_is_the_longest(n: int, p: spec_fn(int) -> bool)
    requires
        n >= 0,
    ensures
        0 <= run_at_end(n, p) <= longest_run(n, p) <= tally(n, p),
    decreases n,
{
    if n > 0 {
        longest_run_is_the_longest(n - 1, p);
    }
}

/// What holds at every index is counted as often as there are indices.
pub proof fn count_of_all(n: int, p: spec_fn(int) -> bool)
    requires
        n >= 0,
        forall|i: int| 0 <= i < n ==> #[trigger] p(i),
    ensures
        tally(n, p) == n,
    decreases n,
{
    if n > 0 {
        count_of_all(n - 1, p);
        assert(p(n - 1));
    }
}

/// The mean of one value is the value.
pub proof fn mean_of_one_is_itself(f: spec_fn(int) -> Option<Num>)
    requires
        f(0) is Some,
        is_decimal(f(0)->0.units),
    ensures
        amounts_to(mean(1, f), f(0)->0.units),
{
    let v = f(0)->0.units;
    reveal_with_fuel(total, 2);
    exact_operations_are_kept(0, v, v);
    exact_quotient_is_kept(total(1, f)->0, whole(1)->0, v);
}

/// A sum is a decimal.
proof fn sum_is_a_decimal(n: int, f: spec_fn(int) -> Option<Num>)
    requires
        total(n, f) is Some,
    ensures
        is_decimal(total(n, f)->0.units),
{
    if n > 0 {
        let (a, b) = (total(n - 1, f), f(n - 1));
        assert(plus(a, b) is Some);
        result_is_a_decimal(a->0.units + b->0.units, unit(), Tie::Even);
    } else {
        zero_and_one_are_decimals();
    }
}

/// Where no value is negative, the sum over some indices is not negative and not
/// above the sum over all of them, and is in range where that is.
pub proof fn part_of_a_sum_is_at_most_the_sum(
    n: int,
    p: spec_fn(int) -> bool,
    f: spec_fn(int) -> Option<Num>,
)
    requires
        total(n, f) is Some,
        forall|i: int| 0 <= i < n ==> (#[trigger] f(i))->0.units >= 0,
    ensures
        total_where(n, p, f) is Some,
        0 <= total_where(n, p, f)->0.units <= total(n, f)->0.units,
    decreases n,
{
    if n > 0 {
        part_of_a_sum_is_at_most_the_sum(n - 1, p, f);
        sum_is_a_decimal(n - 1, f);
        let part = total_where(n - 1, p, f)->0.units;
        let all = total(n - 1, f)->0.units;
        let v = f(n - 1)->0.units;
        assert(f(n - 1) is Some);
        exact_operations_are_kept(all, 0, all);
        // The sum so far is a decimal, so adding to it does not lessen it.
        rounding_keeps_order(all + 0, all + v, unit(), Tie::Even, Tie::Even);
        if p(n - 1) {
            range_reaches_to_zero(part + v, all + v, unit(), Tie::Even, Tie::Even);
            rounding_keeps_order(part + v, all + v, unit(), Tie::Even, Tie::Even);
            rounding_keeps_whole_bounds(part + v, unit(), 0, Tie::Even);
        }
    }
}

/// The sum of values between two whole numbers lies between so many times these.
proof fn sum_keeps_whole_bounds(
    n: int,
    p: spec_fn(int) -> bool,
    f: spec_fn(int) -> Option<Num>,
    lo: int,
    hi: int,
)
    requires
        total_where(n, p, f) is Some,
        forall|i: int|
            0 <= i < n && p(i) ==> lo * unit() <= (#[trigger] f(i))->0.units <= hi * unit(),
    ensures
        (lo * tally(n, p)) * unit() <= total_where(n, p, f)->0.units <= (hi * tally(n, p)) * unit(),
    decreases n,
{
    if n <= 0 {
        assert(lo * 0 == 0 && hi * 0 == 0);
    } else {
        assert(total_where(n - 1, p, f) is Some);
        sum_keeps_whole_bounds(n - 1, p, f, lo, hi);
        if p(n - 1) {
            let k = tally(n - 1, p);
            let a = total_where(n - 1, p, f)->0.units;
            let b = f(n - 1)->0.units;
            assert(f(n - 1) is Some);
            assert((lo * (k + 1)) * unit() == (lo * k) * unit() + lo * unit()) by (nonlinear_arith);
            assert((hi * (k + 1)) * unit() == (hi * k) * unit() + hi * unit()) by (nonlinear_arith);
            rounding_keeps_whole_bounds(a + b, unit(), lo * (k + 1), Tie::Even);
            rounding_keeps_whole_bounds(a + b, unit(), hi * (k + 1), Tie::Even);
        }
    }
}

/// The mean of values between two whole numbers lies between these.
pub proof fn mean_keeps_whole_bounds(
    n: int,
    p: spec_fn(int) -> bool,
    f: spec_fn(int) -> Option<Num>,
    lo: int,
    hi: int,
)
    requires
        tally(n, p) > 0,
        mean_where(n, p, f) is Some,
        forall|i: int|
            0 <= i < n && p(i) ==> lo * unit() <= (#[trigger] f(i))->0.units <= hi * unit(),
    ensures
        lo * unit() <= mean_where(n, p, f)->0.units <= hi * unit(),
{
    let k = tally(n, p);
    let sum = total_where(n, p, f)->0.units;
    sum_keeps_whole_bounds(n, p, f, lo, hi);
    assert((lo * k) * unit() == lo * (k * unit())) by (nonlinear_arith);
    assert((hi * k) * unit() == hi * (k * unit())) by (nonlinear_arith);
    let tie = quotient_tie(total_where(n, p, f)->0, whole(k)->0);
    rounding_keeps_whole_bounds(sum, k * unit(), lo, tie);
    rounding_keeps_whole_bounds(sum, k * unit(), hi, tie);
}

/// The exact sum of `f` over the indices below `n` at which `p` holds.
pub open spec fn exact_total_where(
    n: int,
    p: spec_fn(int) -> bool,
    f: spec_fn(int) -> Option<Num>,
) -> int
    decreases n,
{
    if n <= 0 {
        0
    } else if p(n - 1) {
        exact_total_where(n - 1, p, f) + f(n - 1)->0.units
    } else {
        exact_total_where(n - 1, p, f)
    }
}

/// Whether the values of `f` at the indices below `n` at which `p` holds lie
/// between zero and one.
pub open spec fn all_shares(n: int, p: spec_fn(int) -> bool, f: spec_fn(int) -> Option<Num>) -> bool {
    forall|i: int| 0 <= i < n && p(i) ==> #[trigger] f(i) is Some && 0 <= f(i)->0.units <= unit()
}

/// `k` values between zero and one have a sum in range, which is off by no more
/// than half of `k * (10 * k + 1)` units.
pub proof fn sum_of_shares_is_nearly_exact(
    n: int,
    p: spec_fn(int) -> bool,
    f: spec_fn(int) -> Option<Num>,
)
    requires
        0 <= n <= max_mantissa(),
        all_shares(n, p, f),
    ensures
        total_where(n, p, f) is Some,
        0 <= total_where(n, p, f)->0.units <= tally(n, p) * unit(),
        ({
            let k = tally(n, p);
            let e = total_where(n, p, f)->0.units - exact_total_where(n, p, f);
            -(k * (10 * k + 1)) <= 2 * e <= k * (10 * k + 1)
        }),
    decreases n,
{
    if n > 0 {
        sum_of_shares_is_nearly_exact(n - 1, p, f);
        if p(n - 1) {
            let j = tally(n - 1, p);
            let k = j + 1;
            let a = total_where(n - 1, p, f)->0.units;
            assert(f(n - 1) is Some);
            let b = f(n - 1)->0.units;
            count_is_a_share(n - 1, p);
            bounded_sums_are_in_range(a, b, j, 1);
            rounding_keeps_whole_bounds(a + b, unit(), 0, Tie::Even);
            sums_are_moved_little(a + b);
            let v = total_where(n, p, f)->0.units;
            let t = tenth();
            let e = v - (a + b);
            assert(-(10 * k + 1) <= 2 * e <= 10 * k + 1) by (nonlinear_arith)
                requires
                    -(v + t) <= 2 * t * e <= v + t,
                    v <= k * (10 * t),
                    t > 0,
            {
                assert(v + t <= (10 * k + 1) * t);
            }
            assert(j * (10 * j + 1) + 10 * k + 1 <= k * (10 * k + 1)) by (nonlinear_arith)
                requires
                    k == j + 1,
                    j >= 0,
            ;
        }
    } else {
        assert(0 * (10 * 0 + 1) == 0);
    }
}

/// The mean of `k` values between zero and one is in range and lies between zero
/// and one, and it is off by no more than `5 * k + 6` units.
pub proof fn mean_of_shares_is_nearly_exact(
    n: int,
    p: spec_fn(int) -> bool,
    f: spec_fn(int) -> Option<Num>,
)
    requires
        0 <= n <= max_mantissa(),
        tally(n, p) > 0,
        all_shares(n, p, f),
    ensures
        mean_where(n, p, f) is Some,
        0 <= mean_where(n, p, f)->0.units <= unit(),
        ({
            let k = tally(n, p);
            let e = mean_where(n, p, f)->0.units * k - exact_total_where(n, p, f);
            -(k * (10 * k + 12)) <= 2 * e <= k * (10 * k + 12)
        }),
{
    let k = tally(n, p);
    let sum = total_where(n, p, f)->0.units;
    sum_of_shares_is_nearly_exact(n, p, f);
    shares_are_moved_little(total_where(n, p, f)->0, whole(k)->0);
    let v = mean_where(n, p, f)->0.units;
    let e = v * k - sum;
    assert(-(11 * k) <= 2 * e <= 11 * k) by (nonlinear_arith)
        requires
            -(11 * (k * unit())) <= 2 * (v * (k * unit()) - sum * unit()) <= 11 * (k * unit()),
            e == v * k - sum,
            unit() > 0,
    {
        assert(2 * (v * (k * unit()) - sum * unit()) == (2 * e) * unit());
        assert(11 * (k * unit()) == (11 * k) * unit());
    }
    assert(k * (10 * k + 12) == k * (10 * k + 1) + 11 * k) by (nonlinear_arith);
}

/// The mean of values that are not negative is not negative.
pub proof fn mean_of_nonnegative_is_nonnegative(n: int, f: spec_fn(int) -> Option<Num>)
    requires
        n > 0,
        mean(n, f) is Some,
        forall|i: int| 0 <= i < n ==> (#[trigger] f(i))->0.units >= 0,
    ensures
        mean(n, f)->0.units >= 0,
{
    let sum = total(n, f)->0.units;
    part_of_a_sum_is_at_most_the_sum(n, |i: int| false, f);
    rounding_keeps_whole_bounds(
        sum,
        n * unit(),
        0,
        quotient_tie(total(n, f)->0, whole(n)->0),
    );
}

/// Values bounded by a whole number have a sum in range, unless the bound times
/// their number exceeds a mantissa.
pub proof fn bounded_values_have_a_sum(n: int, f: spec_fn(int) -> Option<Num>, bound: int)
    requires
        n >= 0,
        bound >= 0,
        bound * n <= max_mantissa(),
        forall|i: int|
            0 <= i < n ==> {
                &&& #[trigger] f(i) is Some
                &&& -bound * unit() <= f(i)->0.units <= bound * unit()
            },
    ensures
        total(n, f) is Some,
        -(bound * n) * unit() <= total(n, f)->0.units <= (bound * n) * unit(),
    decreases n,
{
    if n == 0 {
        assert(bound * 0 == 0);
    } else {
        assert(bound * n == bound * (n - 1) + bound) by (nonlinear_arith);
        bounded_values_have_a_sum(n - 1, f, bound);
        assert(f(n - 1) is Some);
        bounded_sums_are_in_range(total(n - 1, f)->0.units, f(n - 1)->0.units, bound * (n - 1), bound);
    }
}

/// Values bounded by a whole number have a mean in range with the same bound,
/// unless the bound times their number exceeds a mantissa.
pub proof fn bounded_values_have_a_mean(n: int, f: spec_fn(int) -> Option<Num>, bound: int)
    requires
        n > 0,
        bound >= 0,
        bound * n <= max_mantissa(),
        forall|i: int|
            0 <= i < n ==> {
                &&& #[trigger] f(i) is Some
                &&& -bound * unit() <= f(i)->0.units <= bound * unit()
            },
    ensures
        mean(n, f) is Some,
        -bound * unit() <= mean(n, f)->0.units <= bound * unit(),
{
    bounded_values_have_a_sum(n, f, bound);
    assert(bound <= bound * n) by (nonlinear_arith)
        requires
            bound >= 0,
            n > 0,
    ;
    quotients_by_counts_are_in_range(total(n, f)->0, n, bound);
}

/// The first and the last of the greatest values of a series are equal, though they
/// may be written with different numbers of places.
pub proof fn greatest_values_are_equal(n: int, f: spec_fn(int) -> Option<Num>)
    requires
        n > 0,
        all_some(n, f),
    ensures
        amounts_to(last_highest(n, f), highest(n, f)->0.units),
    decreases n,
{
    assert(f(n - 1) is Some);
    if n > 1 {
        greatest_values_are_equal(n - 1, f);
        highest_is_the_greatest(n - 1, f);
    }
}

/// Sorting keeps the values, and puts them in ascending order.
pub proof fn sorting_keeps_the_values(n: int, f: spec_fn(int) -> Option<Num>)
    requires
        n >= 0,
    ensures
        ascending(n, f).len() == n,
        ascending(n, f).to_multiset() == Seq::new(n as nat, |i: int| f(i)->0).to_multiset(),
        forall|i: int, j: int|
            0 <= i < j < n ==> (#[trigger] ascending(n, f)[i]).units <= (#[trigger] ascending(
                n,
                f,
            )[j]).units,
    decreases n,
{
    let all = Seq::new(n as nat, |i: int| f(i)->0);
    if n > 0 {
        let x = f(n - 1)->0;
        let before = Seq::new((n - 1) as nat, |i: int| f(i)->0);
        sorting_keeps_the_values(n - 1, f);
        lemma_placing_keeps_order(ascending(n - 1, f), x);
        assert(all =~= before.push(x));
        before.to_multiset_ensures();
    } else {
        assert(all =~= ascending(n, f));
    }
}

proof fn lemma_placing_keeps_order(s: Seq<Num>, x: Num)
    requires
        forall|i: int, j: int|
            0 <= i < j < s.len() ==> (#[trigger] s[i]).units <= (#[trigger] s[j]).units,
    ensures
        placed(s, x).len() == s.len() + 1,
        placed(s, x).to_multiset() == s.to_multiset().insert(x),
        forall|i: int, j: int|
            0 <= i < j <= s.len() ==> (#[trigger] placed(s, x)[i]).units <= (#[trigger] placed(
                s,
                x,
            )[j]).units,
        s.len() > 0 ==> placed(s, x).last().units == if s.last().units <= x.units {
            x.units
        } else {
            s.last().units
        },
        s.len() == 0 ==> placed(s, x).last() == x,
    decreases s.len(),
{
    s.to_multiset_ensures();
    if s.len() > 0 && s.last().units > x.units {
        let before = s.drop_last();
        lemma_placing_keeps_order(before, x);
        assert(s =~= before.push(s.last()));
        before.to_multiset_ensures();
        placed(before, x).to_multiset_ensures();
        assert(placed(s, x).to_multiset() =~= s.to_multiset().insert(x));
    }
}

} // verus!
