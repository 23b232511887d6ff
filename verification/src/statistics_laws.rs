//! What counts, sums, means, medians, runs and drawdowns are, said of the values they
//! are taken from.

use crate::bar::OhlcvBar;
use crate::bar_laws::lemma_difference_moved;
use crate::bars::{closes, drawdown};
use crate::decimal::{amounts_to, minus, nearest, over, plus, quotient_tie, unit, whole, Num, Tie};
use crate::decimal_laws::{
    exact_decimal_is_kept, exact_operations_are_kept, exact_quotient_is_kept, is_decimal,
    rounding_keeps_order, shares_are_moved_little, tenth,
};
use crate::series::{
    all_some, ascending, highest, highest_is_the_greatest, longest_run, mean, mean_where, median,
    placed, run_at_end, tally, total, total_where,
};
use crate::series_laws::sorting_keeps_the_values;
use vstd::prelude::*;

verus! {

/// A count is the number of indices at which something holds.
pub proof fn count_is_the_number_of_indices(n: int, p: spec_fn(int) -> bool)
    requires
        n >= 0,
    ensures
        Set::new(|i: int| 0 <= i < n && p(i)).finite(),
        tally(n, p) == Set::new(|i: int| 0 <= i < n && p(i)).len(),
    decreases n,
{
    let all = Set::new(|i: int| 0 <= i < n && p(i));
    if n == 0 {
        assert(all =~= Set::<int>::empty());
    } else {
        count_is_the_number_of_indices(n - 1, p);
        let before = Set::new(|i: int| 0 <= i < n - 1 && p(i));
        if p(n - 1) {
            assert(all =~= before.insert(n - 1));
        } else {
            assert(all =~= before);
        }
    }
}

/// The longest run is a run: there is one as long as that, and none is longer.
pub proof fn longest_run_is_a_run(n: int, p: spec_fn(int) -> bool, from: int, to: int)
    requires
        0 <= n,
        0 <= from <= to <= n,
        forall|i: int| from <= i < to ==> #[trigger] p(i),
    ensures
        to - from <= longest_run(n, p),
        exists|a: int|
            #![trigger is_run(p, a, a + longest_run(n, p))]
            0 <= a && a + longest_run(n, p) <= n && is_run(p, a, a + longest_run(n, p)),
    decreases n,
{
    lemma_run_at_end(n, p);
    if n == 0 {
        assert(is_run(p, 0, 0 + longest_run(n, p)));
    } else {
        let before = longest_run(n - 1, p);
        if to < n {
            longest_run_is_a_run(n - 1, p, from, to);
        } else {
            longest_run_is_a_run(n - 1, p, 0, 0);
            if to - from > run_at_end(n, p) {
                assert(p(n - run_at_end(n, p) - 1));
            }
        }
        let a = choose|a: int|
            #![trigger is_run(p, a, a + before)]
            0 <= a && a + before <= n - 1 && is_run(p, a, a + before);
        if run_at_end(n, p) > before {
            let start = n - run_at_end(n, p);
            assert(is_run(p, start, start + longest_run(n, p)));
        } else {
            assert(is_run(p, a, a + longest_run(n, p)));
        }
    }
}

/// Whether something holds at every index from `from` up to `to`.
pub open spec fn is_run(p: spec_fn(int) -> bool, from: int, to: int) -> bool {
    forall|i: int| from <= i < to ==> #[trigger] p(i)
}

proof fn lemma_run_at_end(n: int, p: spec_fn(int) -> bool)
    requires
        n >= 0,
    ensures
        0 <= run_at_end(n, p) <= n,
        is_run(p, n - run_at_end(n, p), n),
        run_at_end(n, p) < n ==> !p(n - run_at_end(n, p) - 1),
    decreases n,
{
    if n > 0 && p(n - 1) {
        lemma_run_at_end(n - 1, p);
    }
}

/// The run at the end holds to the last index, and could not start earlier.
pub proof fn run_at_end_goes_back_as_far_as_it_can(n: int, p: spec_fn(int) -> bool)
    requires
        n >= 0,
    ensures
        0 <= run_at_end(n, p) <= n,
        forall|i: int| n - run_at_end(n, p) <= i < n ==> #[trigger] p(i),
        run_at_end(n, p) < n ==> !p(n - run_at_end(n, p) - 1),
{
    lemma_run_at_end(n, p);
}

/// How many numbers of a sequence something holds of.
pub open spec fn count_in(s: Seq<Num>, p: spec_fn(Num) -> bool) -> int
    decreases s.len(),
{
    if s.len() == 0 {
        0
    } else {
        count_in(s.drop_last(), p) + if p(s.last()) {
            1int
        } else {
            0
        }
    }
}

proof fn lemma_count_push(s: Seq<Num>, x: Num, p: spec_fn(Num) -> bool)
    ensures
        count_in(s.push(x), p) == count_in(s, p) + if p(x) {
            1int
        } else {
            0
        },
{
    assert(s.push(x).drop_last() =~= s);
}

proof fn lemma_count_placed(s: Seq<Num>, x: Num, p: spec_fn(Num) -> bool)
    ensures
        count_in(placed(s, x), p) == count_in(s.push(x), p),
    decreases s.len(),
{
    lemma_count_push(s, x, p);
    if s.len() > 0 && s.last().units > x.units {
        lemma_count_placed(s.drop_last(), x, p);
        lemma_count_push(s.drop_last(), x, p);
        lemma_count_push(placed(s.drop_last(), x), s.last(), p);
    }
}

proof fn lemma_count_sorted(n: int, f: spec_fn(int) -> Option<Num>, p: spec_fn(Num) -> bool)
    requires
        n >= 0,
    ensures
        count_in(ascending(n, f), p) == tally(n, |i: int| p(f(i)->0)),
    decreases n,
{
    if n > 0 {
        lemma_count_sorted(n - 1, f, p);
        lemma_count_placed(ascending(n - 1, f), f(n - 1)->0, p);
        lemma_count_push(ascending(n - 1, f), f(n - 1)->0, p);
    }
}

proof fn lemma_count_bounds(s: Seq<Num>, m: int, p: spec_fn(Num) -> bool)
    requires
        0 <= m <= s.len(),
    ensures
        (forall|i: int| m <= i < s.len() ==> !p(#[trigger] s[i])) ==> count_in(s, p) <= m,
        (forall|i: int| 0 <= i < m ==> p(#[trigger] s[i])) ==> count_in(s, p) >= m,
        0 <= count_in(s, p) <= s.len(),
    decreases s.len(),
{
    if s.len() > 0 {
        let before = s.drop_last();
        let k = if m < s.len() {
            m
        } else {
            m - 1
        };
        lemma_count_bounds(before, k, p);
        assert forall|i: int| 0 <= i < before.len() implies before[i] == #[trigger] s[i] by {}
        if forall|i: int| m <= i < s.len() ==> !p(#[trigger] s[i]) {
            if m < s.len() {
                assert(!p(s[s.len() - 1]));
                assert forall|i: int| k <= i < before.len() implies !p(#[trigger] before[i]) by {
                    assert(!p(s[i]));
                }
            }
        }
        if forall|i: int| 0 <= i < m ==> p(#[trigger] s[i]) {
            assert forall|i: int| 0 <= i < k implies p(#[trigger] before[i]) by {
                assert(p(s[i]));
            }
            if m == s.len() {
                assert(p(s[m - 1]));
            }
        }
    }
}

/// Whether a number is the `k`-th smallest of the values of `f` over the indices below
/// `n`: it is one of them, fewer than `k` are less, and at least `k` are not more.
pub open spec fn is_kth_smallest(n: int, f: spec_fn(int) -> Option<Num>, k: int, x: Num) -> bool {
    &&& exists|i: int| 0 <= i < n && #[trigger] f(i) == Some(x)
    &&& tally(n, |i: int| f(i)->0.units < x.units) < k
    &&& tally(n, |i: int| f(i)->0.units <= x.units) >= k
}

proof fn lemma_sorted_from(n: int, f: spec_fn(int) -> Option<Num>, k: int)
    requires
        all_some(n, f),
        0 <= k < ascending(n, f).len(),
        n >= 0,
    ensures
        exists|i: int| 0 <= i < n && #[trigger] f(i) == Some(ascending(n, f)[k]),
    decreases n,
{
    if n > 0 {
        let s = ascending(n - 1, f);
        let x = f(n - 1)->0;
        assert(f(n - 1) is Some);
        let at = lemma_placed_from(s, x, k);
        if at < s.len() {
            lemma_sorted_from(n - 1, f, at);
            let i = choose|i: int| 0 <= i < n - 1 && #[trigger] f(i) == Some(s[at]);
            assert(f(i) == Some(ascending(n, f)[k]));
        } else {
            assert(f(n - 1) == Some(ascending(n, f)[k]));
        }
    }
}

proof fn lemma_placed_from(s: Seq<Num>, x: Num, k: int) -> (at: int)
    requires
        0 <= k < placed(s, x).len(),
    ensures
        0 <= at <= s.len(),
        placed(s, x)[k] == if at < s.len() {
            s[at]
        } else {
            x
        },
    decreases s.len(),
{
    if s.len() == 0 || s.last().units <= x.units {
        k
    } else if k == placed(s.drop_last(), x).len() {
        s.len() - 1
    } else {
        let at = lemma_placed_from(s.drop_last(), x, k);
        if at < s.len() - 1 {
            at
        } else {
            s.len() as int
        }
    }
}

/// The `k`-th number in ascending order is the `k`-th smallest.
pub proof fn sorting_ranks_the_values(n: int, f: spec_fn(int) -> Option<Num>, k: int)
    requires
        all_some(n, f),
        1 <= k <= n,
    ensures
        is_kth_smallest(n, f, k, ascending(n, f)[k - 1]),
{
    let s = ascending(n, f);
    sorting_keeps_the_values(n, f);
    let x = s[k - 1];
    lemma_sorted_from(n, f, k - 1);
    let less = |v: Num| v.units < x.units;
    let most = |v: Num| v.units <= x.units;
    lemma_count_sorted(n, f, less);
    lemma_count_sorted(n, f, most);
    lemma_same_tally(n, |i: int| less(f(i)->0), |i: int| f(i)->0.units < x.units);
    lemma_same_tally(n, |i: int| most(f(i)->0), |i: int| f(i)->0.units <= x.units);
    lemma_count_bounds(s, k - 1, less);
    lemma_count_bounds(s, k, most);
    assert forall|i: int| k - 1 <= i < s.len() implies !less(#[trigger] s[i]) by {
        if i > k - 1 {
            assert(s[k - 1].units <= s[i].units);
        }
    }
    assert forall|i: int| 0 <= i < k implies most(#[trigger] s[i]) by {
        if i < k - 1 {
            assert(s[i].units <= s[k - 1].units);
        }
    }
}

proof fn lemma_same_tally(n: int, p: spec_fn(int) -> bool, q: spec_fn(int) -> bool)
    requires
        forall|i: int| 0 <= i < n ==> #[trigger] p(i) == q(i),
    ensures
        tally(n, p) == tally(n, q),
    decreases n,
{
    if n > 0 {
        lemma_same_tally(n - 1, p, q);
        assert(p(n - 1) == q(n - 1));
    }
}

/// The median of an odd number of values is the one in the middle: at least half of
/// the values are not more, and at least half are not less. The median of an even
/// number is the mean of the two in the middle, where "in the middle" is said by
/// counting.
pub proof fn median_is_in_the_middle(n: int, f: spec_fn(int) -> Option<Num>)
    requires
        n > 0,
        all_some(n, f),
    ensures
        n % 2 == 1 ==> median(n, f) is Some && is_kth_smallest(n, f, n / 2 + 1, median(n, f)->0),
        n % 2 == 0 ==> exists|a: Num, b: Num|
            {
                &&& #[trigger] is_kth_smallest(n, f, n / 2, a)
                &&& #[trigger] is_kth_smallest(n, f, n / 2 + 1, b)
                &&& a.units <= b.units
                &&& median(n, f) == over(plus(Some(a), Some(b)), whole(2))
            },
{
    let s = ascending(n, f);
    sorting_keeps_the_values(n, f);
    if n % 2 == 1 {
        sorting_ranks_the_values(n, f, n / 2 + 1);
    } else {
        sorting_ranks_the_values(n, f, n / 2);
        sorting_ranks_the_values(n, f, n / 2 + 1);
        assert(s[n / 2 - 1].units <= s[n / 2].units);
    }
}

/// At least half of the values are not more than the median, and at least half are not
/// less, where the sum of the two in the middle needs no rounding.
pub proof fn median_halves_the_values(n: int, f: spec_fn(int) -> Option<Num>)
    requires
        n > 0,
        all_some(n, f),
        forall|a: Num, b: Num|
            #[trigger] is_kth_smallest(n, f, n / 2, a) && #[trigger] is_kth_smallest(
                n,
                f,
                n / 2 + 1,
                b,
            ) ==> is_decimal(a.units) && is_decimal(b.units) && is_decimal(a.units + b.units),
    ensures
        median(n, f) is Some,
        2 * tally(n, |i: int| f(i)->0.units <= median(n, f)->0.units) >= n,
        2 * tally(n, |i: int| f(i)->0.units >= median(n, f)->0.units) >= n,
{
    let s = ascending(n, f);
    sorting_keeps_the_values(n, f);
    let k = n / 2;
    let (a, b) = if n % 2 == 1 {
        (s[k], s[k])
    } else {
        (s[k - 1], s[k])
    };
    if n % 2 == 0 {
        sorting_ranks_the_values(n, f, k);
        sorting_ranks_the_values(n, f, k + 1);
        assert(a.units <= b.units);
        lemma_middle(a, b);
    }
    let m = median(n, f)->0;
    assert(a.units <= m.units <= b.units);
    let most = |v: Num| v.units <= m.units;
    let least = |v: Num| v.units >= m.units;
    lemma_count_sorted(n, f, most);
    lemma_count_sorted(n, f, least);
    lemma_same_tally(n, |i: int| most(f(i)->0), |i: int| f(i)->0.units <= m.units);
    lemma_same_tally(n, |i: int| least(f(i)->0), |i: int| f(i)->0.units >= m.units);
    let front = if n % 2 == 1 {
        k + 1
    } else {
        k
    };
    assert forall|i: int| 0 <= i < front implies most(#[trigger] s[i]) by {
        if i < front - 1 {
            assert(s[i].units <= s[front - 1].units);
        }
    }
    lemma_count_bounds(s, front, most);
    let below = |v: Num| !least(v);
    assert forall|i: int| k <= i < s.len() implies !below(#[trigger] s[i]) by {
        if i > k {
            assert(s[k].units <= s[i].units);
        }
    }
    lemma_count_bounds(s, k, below);
    lemma_count_complement(s, least, below);
}

proof fn lemma_count_complement(s: Seq<Num>, p: spec_fn(Num) -> bool, q: spec_fn(Num) -> bool)
    requires
        forall|x: Num| #[trigger] q(x) == !p(x),
    ensures
        count_in(s, p) + count_in(s, q) == s.len(),
    decreases s.len(),
{
    if s.len() > 0 {
        lemma_count_complement(s.drop_last(), p, q);
        assert(q(s.last()) == !p(s.last()));
    }
}

proof fn lemma_middle(a: Num, b: Num)
    requires
        a.units <= b.units,
        is_decimal(a.units),
        is_decimal(b.units),
        is_decimal(a.units + b.units),
    ensures
        ({
            let m = over(plus(Some(a), Some(b)), whole(2));
            m is Some && a.units <= m->0.units <= b.units
        }),
{
    let (x, y) = (a.units, b.units);
    exact_operations_are_kept(x, y, x + y);
    let sum = plus(Some(a), Some(b))->0;
    assert(sum.units == x + y);
    let den = 2 * unit();
    let tie = quotient_tie(sum, whole(2)->0);
    assert((2 * x) * unit() == x * den && (2 * y) * unit() == y * den) by (nonlinear_arith)
        requires
            den == 2 * unit(),
    ;
    if x == y {
        exact_quotient_is_kept(sum, whole(2)->0, x);
    } else {
        exact_decimal_is_kept(2 * x, den, x, tie);
        exact_decimal_is_kept(2 * y, den, y, tie);
        lemma_between_in_range(2 * x, x + y, 2 * y, den, tie);
        rounding_keeps_order(2 * x, x + y, den, tie, tie);
        rounding_keeps_order(x + y, 2 * y, den, tie, tie);
    }
}

proof fn lemma_between_in_range(x: int, y: int, z: int, den: int, tie: Tie)
    requires
        den > 0,
        x < y < z,
        nearest(x, den, tie) is Some,
        nearest(z, den, tie) is Some,
    ensures
        nearest(y, den, tie) is Some,
{
    if y >= 0 {
        crate::decimal_laws::range_reaches_to_zero(y, z, den, tie, tie);
    } else {
        crate::decimal_laws::range_reaches_to_zero(y, x, den, tie, tie);
    }
}

/// The exact sum of the values of `f` over the indices below `n`.
pub open spec fn exact_sum(n: int, f: spec_fn(int) -> Option<Num>) -> int
    decreases n,
{
    if n <= 0 {
        0
    } else {
        exact_sum(n - 1, f) + f(n - 1)->0.units
    }
}

/// A sum is the exact sum wherever no rounding is needed: where the values up to each
/// index add up to a decimal.
pub proof fn sum_is_exact_without_rounding(n: int, f: spec_fn(int) -> Option<Num>)
    requires
        all_some(n, f),
        forall|k: int| 0 <= k <= n ==> is_decimal(#[trigger] exact_sum(k, f)),
    ensures
        amounts_to(total(n, f), exact_sum(n, f)),
    decreases n,
{
    if n > 0 {
        sum_is_exact_without_rounding(n - 1, f);
        assert(f(n - 1) is Some);
        assert(is_decimal(exact_sum(n, f)));
        exact_operations_are_kept(
            exact_sum(n - 1, f),
            f(n - 1)->0.units,
            exact_sum(n, f),
        );
    }
}

/// The mean of values times their number is their sum, where neither the sum nor the
/// mean needs rounding.
pub proof fn mean_times_count_is_the_sum(n: int, f: spec_fn(int) -> Option<Num>, v: int)
    requires
        n > 0,
        all_some(n, f),
        forall|k: int| 0 <= k <= n ==> is_decimal(#[trigger] exact_sum(k, f)),
        is_decimal(v),
        v * n == exact_sum(n, f),
    ensures
        amounts_to(mean(n, f), v),
{
    sum_is_exact_without_rounding(n, f);
    assert(exact_sum(n, f) * unit() == v * (n * unit())) by (nonlinear_arith)
        requires
            v * n == exact_sum(n, f),
    ;
    exact_quotient_is_kept(total(n, f)->0, whole(n)->0, v);
}

/// A sum over some of the indices is the sum of the values there and of nothing
/// elsewhere, and so is the mean.
pub proof fn partial_sum_leaves_the_others_out(
    n: int,
    p: spec_fn(int) -> bool,
    f: spec_fn(int) -> Option<Num>,
    g: spec_fn(int) -> Option<Num>,
    v: int,
)
    requires
        all_some(n, g),
        forall|i: int|
            0 <= i < n ==> #[trigger] g(i) == if p(i) {
                f(i)
            } else {
                whole(0)
            },
        forall|k: int| 0 <= k <= n ==> is_decimal(#[trigger] exact_sum(k, g)),
    ensures
        amounts_to(total_where(n, p, f), exact_sum(n, g)),
        is_decimal(v) && tally(n, p) > 0 && v * tally(n, p) == exact_sum(n, g) ==> amounts_to(
            mean_where(n, p, f),
            v,
        ),
    decreases n,
{
    if n > 0 {
        partial_sum_leaves_the_others_out(n - 1, p, f, g, v);
        assert(g(n - 1) is Some);
        assert(is_decimal(exact_sum(n, g)));
        if p(n - 1) {
            exact_operations_are_kept(
                exact_sum(n - 1, g),
                f(n - 1)->0.units,
                exact_sum(n, g),
            );
        }
    }
    let k = tally(n, p);
    if is_decimal(v) && k > 0 && v * k == exact_sum(n, g) {
        assert(exact_sum(n, g) * unit() == v * (k * unit())) by (nonlinear_arith)
            requires
                v * k == exact_sum(n, g),
        ;
        exact_quotient_is_kept(total_where(n, p, f)->0, whole(k)->0, v);
    }
}

/// Whether the close at `i` is the greatest up to the bar at `j`.
pub open spec fn is_peak(bars: Seq<OhlcvBar>, i: int, j: int) -> bool {
    &&& 0 <= i < j
    &&& forall|k: int| 0 <= k < j ==> (#[trigger] bars[k]).close@ <= bars[i].close@
}

/// The fall from the close at `i` to the one at `j`, as a fraction of the former.
pub open spec fn fall(bars: Seq<OhlcvBar>, i: int, j: int) -> Option<Num> {
    over(minus(bars[i].close.val(), bars[j].close.val()), bars[i].close.val())
}

/// A drawdown of positive closes is zero, or it is the fall from a peak to a later
/// close that is not higher.
pub proof fn drawdown_is_a_fall_from_a_peak(bars: Seq<OhlcvBar>, n: int)
    requires
        0 <= n <= bars.len(),
        drawdown(bars, n) is Some,
        forall|i: int| 0 <= i < n ==> (#[trigger] bars[i]).close@ > 0,
    ensures
        drawdown(bars, n)->0.units >= 0,
        amounts_to(drawdown(bars, n), 0) || exists|i: int, j: int|
            {
                &&& #[trigger] is_peak(bars, i, j)
                &&& j < n
                &&& bars[j].close@ <= bars[i].close@
                &&& drawdown(bars, n) == fall(bars, i, j)
            },
    decreases n,
{
    if n > 1 {
        crate::bars::laws::drawdown_only_grows(bars, n, n - 1);
        drawdown_is_a_fall_from_a_peak(bars, n - 1);
        let peak = lemma_peak(bars, n - 1);
        if bars[n - 1].close@ <= bars[peak].close@ && drawdown(bars, n) == fall(bars, peak, n - 1) {
            assert(is_peak(bars, peak, n - 1));
        }
    }
}

/// Where the peak is.
proof fn lemma_peak(bars: Seq<OhlcvBar>, j: int) -> (i: int)
    requires
        0 < j <= bars.len(),
    ensures
        is_peak(bars, i, j),
        highest(j, closes(bars)) == bars[i].close.val(),
{
    assert(all_some(j, closes(bars)));
    highest_is_the_greatest(j, closes(bars));
    let i = choose|i: int| 0 <= i < j && #[trigger] closes(bars)(i) == highest(j, closes(bars));
    assert forall|k: int| 0 <= k < j implies (#[trigger] bars[k]).close@ <= bars[i].close@ by {
        assert(closes(bars)(k)->0.units <= highest(j, closes(bars))->0.units);
    }
    i
}

/// No close falls further from an earlier one than the drawdown: for positive closes
/// it is at least `(close_i - close_j) / close_i` for every bar `i` before `j`, up to
/// the rounding of the last decimal places.
pub proof fn drawdown_covers_every_fall(bars: Seq<OhlcvBar>, n: int, i: int, j: int)
    requires
        0 <= i < j < n <= bars.len(),
        drawdown(bars, n) is Some,
        forall|k: int|
            0 <= k < n ==> (#[trigger] bars[k]).close@ > 0 && is_decimal(bars[k].close@),
    ensures
        (drawdown(bars, n)->0.units + 16) * bars[i].close@ >= (bars[i].close@ - bars[j].close@)
            * unit(),
    decreases n,
{
    let d = drawdown(bars, n)->0.units;
    let c = bars[i].close@;
    let low = bars[j].close@;
    crate::bars::laws::drawdown_only_grows(bars, n, n - 1);
    if j < n - 1 {
        drawdown_covers_every_fall(bars, n - 1, i, j);
        let before = drawdown(bars, n - 1)->0.units;
        assert((d + 16) * c >= (before + 16) * c) by (nonlinear_arith)
            requires
                d >= before,
                c > 0,
        ;
    } else {
        let at = lemma_peak(bars, j);
        let p = bars[at].close@;
        assert(bars[i].close@ <= p);
        assert(d >= 0);
        if low > p {
            assert((d + 16) * c >= 0 && (c - low) * unit() <= 0) by (nonlinear_arith)
                requires
                    d >= 0,
                    c > 0,
                    c <= p,
                    low > p,
            ;
        } else {
            let diff = minus(bars[at].close.val(), bars[j].close.val());
            let v = diff->0.units;
            assert(d >= fall(bars, at, j)->0.units);
            lemma_difference_at_most(p, low, v);
            lemma_difference_moved(p - low, v, p);
            shares_are_moved_little(diff->0, bars[at].close.num());
            let share = fall(bars, at, j)->0.units;
            lemma_fall(d, share, v, p, low, c);
        }
    }
}

proof fn lemma_difference_at_most(p: int, low: int, v: int)
    requires
        0 < low <= p,
        nearest(p - low, unit(), Tie::Even) == Some(v),
        is_decimal(p),
    ensures
        0 <= v <= p,
{
    crate::decimal_laws::rounding_keeps_whole_bounds(p - low, unit(), 0, Tie::Even);
    exact_decimal_is_kept(p, unit(), p, Tie::Even);
    rounding_keeps_order(p - low, p, unit(), Tie::Even, Tie::Even);
}

proof fn lemma_fall(d: int, share: int, v: int, p: int, low: int, c: int)
    requires
        d >= share,
        -(11 * p) <= 2 * (share * p - v * unit()),
        tenth() * (v - (p - low)) >= -p,
        0 < c <= p,
        low > 0,
    ensures
        (d + 16) * c >= (c - low) * unit(),
{
    assert(v * unit() >= (p - low) * unit() - 10 * p) by (nonlinear_arith)
        requires
            tenth() * (v - (p - low)) >= -p,
            unit() == 10 * tenth(),
    ;
    let k = share + 16 - unit();
    assert(k * p >= -low * unit()) by (nonlinear_arith)
        requires
            k == share + 16 - unit(),
            -(11 * p) <= 2 * (share * p - v * unit()),
            v * unit() >= (p - low) * unit() - 10 * p,
            p > 0,
    ;
    if k >= 0 {
        assert((d + 16) * c >= (c - low) * unit()) by (nonlinear_arith)
            requires
                d + 16 >= unit(),
                c > 0,
                low > 0,
                unit() > 0,
        ;
    } else {
        assert(k * c >= k * p) by (nonlinear_arith)
            requires
                k < 0,
                c <= p,
        ;
        assert((share + 16) * c == k * c + unit() * c) by (nonlinear_arith)
            requires
                k == share + 16 - unit(),
        ;
        assert((d + 16) * c >= (share + 16) * c) by (nonlinear_arith)
            requires
                d >= share,
                c > 0,
        ;
        assert((c - low) * unit() == unit() * c - low * unit()) by (nonlinear_arith);
    }
}

} // verus!
