//! Counting, adding up and picking over a series.
//!
//! A series is given by its length and by what is at each index, so that one
//! set of functions serves for single bars, for pairs of adjacent bars and for
//! longer windows.

use crate::decimal::{
    is_nought, larger, minus, over, plus, smaller, times, whole, yields, Decimal, Num,
};
use vstd::prelude::*;

verus! {

/// The number of windows of `width` adjacent items in a series of `len`.
pub open spec fn windows(len: nat, width: int) -> int {
    if len < width {
        0
    } else {
        len - width + 1
    }
}

/// The number of indices below `n` at which `p` holds.
pub open spec fn tally(n: int, p: spec_fn(int) -> bool) -> int
    decreases n,
{
    if n <= 0 {
        0
    } else if p(n - 1) {
        tally(n - 1, p) + 1
    } else {
        tally(n - 1, p)
    }
}

/// What a partial function that counts returns: `n` where `when` holds, and
/// `None` where it does not.
pub open spec fn count_of(r: Option<usize>, when: bool, n: int) -> bool {
    match r {
        Some(k) => when && k == n,
        None => !when,
    }
}

/// The sum of `f` over the indices below `n`, added up from the first.
pub open spec fn total(n: int, f: spec_fn(int) -> Option<Num>) -> Option<Num>
    decreases n,
{
    if n <= 0 {
        whole(0)
    } else {
        plus(total(n - 1, f), f(n - 1))
    }
}

/// The sum of `f` over the indices below `n` at which `p` holds.
pub open spec fn total_where(
    n: int,
    p: spec_fn(int) -> bool,
    f: spec_fn(int) -> Option<Num>,
) -> Option<Num>
    decreases n,
{
    if n <= 0 {
        whole(0)
    } else if p(n - 1) {
        plus(total_where(n - 1, p, f), f(n - 1))
    } else {
        total_where(n - 1, p, f)
    }
}

/// The mean of `f` over the indices below `n`.
pub open spec fn mean(n: int, f: spec_fn(int) -> Option<Num>) -> Option<Num> {
    over(total(n, f), whole(n))
}

/// The mean of `f` over the indices below `n` at which `p` holds.
pub open spec fn mean_where(
    n: int,
    p: spec_fn(int) -> bool,
    f: spec_fn(int) -> Option<Num>,
) -> Option<Num> {
    over(total_where(n, p, f), whole(tally(n, p)))
}

/// The exponential average of `f` over the indices below `n`, which are one at
/// least: each value takes a share of `alpha`, and what was before the rest.
pub open spec fn smoothed(n: int, f: spec_fn(int) -> Option<Num>, alpha: Num) -> Option<Num>
    decreases n,
{
    if n <= 1 {
        f(0)
    } else {
        plus(
            times(Some(alpha), f(n - 1)),
            times(minus(whole(1), Some(alpha)), smoothed(n - 1, f, alpha)),
        )
    }
}

/// The length of the run of indices, up to the last one below `n`, at which `p`
/// holds.
pub open spec fn run_at_end(n: int, p: spec_fn(int) -> bool) -> int
    decreases n,
{
    if n <= 0 || !p(n - 1) {
        0
    } else {
        run_at_end(n - 1, p) + 1
    }
}

/// The length of the longest run of adjacent indices below `n` at which `p`
/// holds.
pub open spec fn longest_run(n: int, p: spec_fn(int) -> bool) -> int
    decreases n,
{
    if n <= 0 {
        0
    } else if run_at_end(n, p) > longest_run(n - 1, p) {
        run_at_end(n, p)
    } else {
        longest_run(n - 1, p)
    }
}

/// The greatest of `f` over the indices below `n`, which is the first one where
/// several are equal; `None` where there is no index or a value is missing.
pub open spec fn highest(n: int, f: spec_fn(int) -> Option<Num>) -> Option<Num>
    decreases n,
{
    if n <= 0 {
        None
    } else if n == 1 {
        f(0)
    } else {
        larger(highest(n - 1, f), f(n - 1))
    }
}

/// The greatest of `f` over the indices below `n`, which is the last one where
/// several are equal; `None` where there is no index or a value is missing.
pub open spec fn last_highest(n: int, f: spec_fn(int) -> Option<Num>) -> Option<Num>
    decreases n,
{
    if n <= 0 {
        None
    } else if n == 1 {
        f(0)
    } else {
        larger(f(n - 1), last_highest(n - 1, f))
    }
}

/// The least of `f` over the indices below `n`, which is the first one where
/// several are equal; `None` where there is no index or a value is missing.
pub open spec fn lowest(n: int, f: spec_fn(int) -> Option<Num>) -> Option<Num>
    decreases n,
{
    if n <= 0 {
        None
    } else if n == 1 {
        f(0)
    } else {
        smaller(lowest(n - 1, f), f(n - 1))
    }
}

/// Whether every value of `f` over the indices below `n` is in range.
pub open spec fn all_some(n: int, f: spec_fn(int) -> Option<Num>) -> bool {
    forall|i: int| 0 <= i < n ==> #[trigger] f(i) is Some
}

/// The greatest value of a series is one of its values, and none is greater.
pub proof fn highest_is_the_greatest(n: int, f: spec_fn(int) -> Option<Num>)
    requires
        n > 0,
        all_some(n, f),
    ensures
        highest(n, f) is Some,
        exists|i: int| 0 <= i < n && #[trigger] f(i) == highest(n, f),
        forall|i: int| 0 <= i < n ==> (#[trigger] f(i))->0.units <= highest(n, f)->0.units,
    decreases n,
{
    assert(f(n - 1) is Some);
    if n > 1 {
        highest_is_the_greatest(n - 1, f);
        let i = choose|i: int| 0 <= i < n - 1 && #[trigger] f(i) == highest(n - 1, f);
        assert(f(i) == highest(n, f) || f(n - 1) == highest(n, f));
    }
}

/// The least value of a series is one of its values, and none is less.
pub proof fn lowest_is_the_least(n: int, f: spec_fn(int) -> Option<Num>)
    requires
        n > 0,
        all_some(n, f),
    ensures
        lowest(n, f) is Some,
        exists|i: int| 0 <= i < n && #[trigger] f(i) == lowest(n, f),
        forall|i: int| 0 <= i < n ==> (#[trigger] f(i))->0.units >= lowest(n, f)->0.units,
    decreases n,
{
    assert(f(n - 1) is Some);
    if n > 1 {
        lowest_is_the_least(n - 1, f);
        let i = choose|i: int| 0 <= i < n - 1 && #[trigger] f(i) == lowest(n - 1, f);
        assert(f(i) == lowest(n, f) || f(n - 1) == lowest(n, f));
    }
}

/// The values of decimals.
pub open spec fn values(s: Seq<Decimal>) -> Seq<Option<Num>> {
    s.map_values(|d: Decimal| d.val())
}

/// The values of `f`, in order, at the indices below `n` at which `p` holds.
pub open spec fn kept(
    n: int,
    p: spec_fn(int) -> bool,
    f: spec_fn(int) -> Option<Num>,
) -> Seq<Option<Num>>
    decreases n,
{
    if n <= 0 {
        Seq::empty()
    } else if p(n - 1) {
        kept(n - 1, p, f).push(f(n - 1))
    } else {
        kept(n - 1, p, f)
    }
}

/// Counts the items for which a condition holds.
pub(crate) fn count<T, F: Fn(&T) -> bool>(
    items: &[T],
    f: F,
    Ghost(p): Ghost<spec_fn(int) -> bool>,
) -> (r: usize)
    requires
        forall|i: int| 0 <= i < items@.len() as int ==> #[trigger] f.requires((&items@[i],)),
        forall|i: int, b: bool|
            0 <= i < items@.len() as int && #[trigger] f.ensures((&items@[i],), b) ==> b == p(i),
    ensures
        r == tally(items@.len() as int, p),
        r <= items@.len(),
{
    let n: usize = items.len();
    let mut r: usize = 0;
    let mut i: usize = 0;
    while i < n
        invariant
            n == items@.len() as int,
            r <= i <= n <= items@.len(),
            r == tally(i as int, p),
            forall|j: int| 0 <= j < items@.len() as int ==> #[trigger] f.requires((&items@[j],)),
            forall|j: int, b: bool|
                0 <= j < items@.len() as int && #[trigger] f.ensures((&items@[j],), b)
                    ==> b == p(j),
        decreases n - i,
    {
        if f(&items[i]) {
            r += 1;
        }
        i += 1;
    }
    r
}

/// Counts the pairs of adjacent items for which a condition holds.
pub(crate) fn count_pairs<T, F: Fn(&T, &T) -> bool>(
    items: &[T],
    f: F,
    Ghost(p): Ghost<spec_fn(int) -> bool>,
) -> (r: usize)
    requires
        forall|i: int|
            0 <= i < windows(items@.len(), 2)
                ==> #[trigger] f.requires((&items@[i], &items@[i + 1])),
        forall|i: int, b: bool|
            0 <= i < windows(items@.len(), 2)
                && #[trigger] f.ensures((&items@[i], &items@[i + 1]), b)
                ==> b == p(i),
    ensures
        r == tally(windows(items@.len(), 2), p),
        r <= items@.len(),
{
    let n: usize = if items.len() < 2 {
        0
    } else {
        items.len() - 1
    };
    let mut r: usize = 0;
    let mut i: usize = 0;
    while i < n
        invariant
            n == windows(items@.len(), 2),
            r <= i <= n <= items@.len(),
            r == tally(i as int, p),
            forall|j: int|
                0 <= j < windows(items@.len(), 2)
                    ==> #[trigger] f.requires((&items@[j], &items@[j + 1])),
            forall|j: int, b: bool|
                0 <= j < windows(items@.len(), 2)
                    && #[trigger] f.ensures((&items@[j], &items@[j + 1]), b)
                    ==> b == p(j),
        decreases n - i,
    {
        if f(&items[i], &items[i + 1]) {
            r += 1;
        }
        i += 1;
    }
    r
}

/// Counts the triples of adjacent items for which a condition holds.
pub(crate) fn count_triples<T, F: Fn(&T, &T, &T) -> bool>(
    items: &[T],
    f: F,
    Ghost(p): Ghost<spec_fn(int) -> bool>,
) -> (r: usize)
    requires
        forall|i: int|
            0 <= i < windows(items@.len(), 3)
                ==> #[trigger] f.requires((&items@[i], &items@[i + 1], &items@[i + 2])),
        forall|i: int, b: bool|
            0 <= i < windows(items@.len(), 3)
                && #[trigger] f.ensures((&items@[i], &items@[i + 1], &items@[i + 2]), b)
                ==> b == p(i),
    ensures
        r == tally(windows(items@.len(), 3), p),
        r <= items@.len(),
{
    let n: usize = if items.len() < 3 {
        0
    } else {
        items.len() - 2
    };
    let mut r: usize = 0;
    let mut i: usize = 0;
    while i < n
        invariant
            n == windows(items@.len(), 3),
            r <= i <= n <= items@.len(),
            r == tally(i as int, p),
            forall|j: int|
                0 <= j < windows(items@.len(), 3)
                    ==> #[trigger] f.requires((&items@[j], &items@[j + 1], &items@[j + 2])),
            forall|j: int, b: bool|
                0 <= j < windows(items@.len(), 3)
                    && #[trigger] f.ensures((&items@[j], &items@[j + 1], &items@[j + 2]), b)
                    ==> b == p(j),
        decreases n - i,
    {
        if f(&items[i], &items[i + 1], &items[i + 2]) {
            r += 1;
        }
        i += 1;
    }
    r
}

/// Whether a condition holds for all pairs of adjacent items.
pub(crate) fn all_pairs<T, F: Fn(&T, &T) -> bool>(
    items: &[T],
    f: F,
    Ghost(p): Ghost<spec_fn(int) -> bool>,
) -> (r: bool)
    requires
        forall|i: int|
            0 <= i < windows(items@.len(), 2)
                ==> #[trigger] f.requires((&items@[i], &items@[i + 1])),
        forall|i: int, b: bool|
            0 <= i < windows(items@.len(), 2)
                && #[trigger] f.ensures((&items@[i], &items@[i + 1]), b)
                ==> b == p(i),
    ensures
        r == (forall|i: int| 0 <= i < windows(items@.len(), 2) ==> #[trigger] p(i)),
{
    let n: usize = if items.len() < 2 {
        0
    } else {
        items.len() - 1
    };
    let mut i: usize = 0;
    while i < n
        invariant
            n == windows(items@.len(), 2),
            i <= n <= items@.len(),
            forall|j: int| 0 <= j < i ==> #[trigger] p(j),
            forall|j: int|
                0 <= j < windows(items@.len(), 2)
                    ==> #[trigger] f.requires((&items@[j], &items@[j + 1])),
            forall|j: int, b: bool|
                0 <= j < windows(items@.len(), 2)
                    && #[trigger] f.ensures((&items@[j], &items@[j + 1]), b)
                    ==> b == p(j),
        decreases n - i,
    {
        if !f(&items[i], &items[i + 1]) {
            assert(!p(i as int));
            return false;
        }
        i += 1;
    }
    true
}

/// The number of items, counted from the last, for which a condition
/// holds without a break.
pub(crate) fn count_at_end<T, F: Fn(&T) -> bool>(
    items: &[T],
    f: F,
    Ghost(p): Ghost<spec_fn(int) -> bool>,
) -> (r: usize)
    requires
        forall|i: int| 0 <= i < items@.len() as int ==> #[trigger] f.requires((&items@[i],)),
        forall|i: int, b: bool|
            0 <= i < items@.len() as int && #[trigger] f.ensures((&items@[i],), b) ==> b == p(i),
    ensures
        r == run_at_end(items@.len() as int, p),
        r <= items@.len(),
{
    let n: usize = items.len();
    let mut r: usize = 0;
    while r < n
        invariant
            n == items@.len() as int,
            r <= n <= items@.len(),
            run_at_end(n as int, p) == r + run_at_end(n - r, p),
            forall|j: int| 0 <= j < items@.len() as int ==> #[trigger] f.requires((&items@[j],)),
            forall|j: int, b: bool|
                0 <= j < items@.len() as int && #[trigger] f.ensures((&items@[j],), b)
                    ==> b == p(j),
        decreases n - r,
    {
        let i: usize = n - 1 - r;
        if !f(&items[i]) {
            return r;
        }
        r += 1;
    }
    r
}

/// The number of pairs of adjacent items, counted from the last, for which a condition
/// holds without a break.
pub(crate) fn count_at_end_pairs<T, F: Fn(&T, &T) -> bool>(
    items: &[T],
    f: F,
    Ghost(p): Ghost<spec_fn(int) -> bool>,
) -> (r: usize)
    requires
        forall|i: int|
            0 <= i < windows(items@.len(), 2)
                ==> #[trigger] f.requires((&items@[i], &items@[i + 1])),
        forall|i: int, b: bool|
            0 <= i < windows(items@.len(), 2)
                && #[trigger] f.ensures((&items@[i], &items@[i + 1]), b)
                ==> b == p(i),
    ensures
        r == run_at_end(windows(items@.len(), 2), p),
        r <= items@.len(),
{
    let n: usize = if items.len() < 2 {
        0
    } else {
        items.len() - 1
    };
    let mut r: usize = 0;
    while r < n
        invariant
            n == windows(items@.len(), 2),
            r <= n <= items@.len(),
            run_at_end(n as int, p) == r + run_at_end(n - r, p),
            forall|j: int|
                0 <= j < windows(items@.len(), 2)
                    ==> #[trigger] f.requires((&items@[j], &items@[j + 1])),
            forall|j: int, b: bool|
                0 <= j < windows(items@.len(), 2)
                    && #[trigger] f.ensures((&items@[j], &items@[j + 1]), b)
                    ==> b == p(j),
        decreases n - r,
    {
        let i: usize = n - 1 - r;
        if !f(&items[i], &items[i + 1]) {
            return r;
        }
        r += 1;
    }
    r
}

/// The length of the longest run of items for which a condition holds.
pub(crate) fn longest<T, F: Fn(&T) -> bool>(
    items: &[T],
    f: F,
    Ghost(p): Ghost<spec_fn(int) -> bool>,
) -> (r: usize)
    requires
        forall|i: int| 0 <= i < items@.len() as int ==> #[trigger] f.requires((&items@[i],)),
        forall|i: int, b: bool|
            0 <= i < items@.len() as int && #[trigger] f.ensures((&items@[i],), b) ==> b == p(i),
    ensures
        r == longest_run(items@.len() as int, p),
        r <= items@.len(),
{
    let n: usize = items.len();
    let mut r: usize = 0;
    let mut run: usize = 0;
    let mut i: usize = 0;
    while i < n
        invariant
            n == items@.len() as int,
            run <= i <= n <= items@.len(),
            r <= i,
            r == longest_run(i as int, p),
            run == run_at_end(i as int, p),
            forall|j: int| 0 <= j < items@.len() as int ==> #[trigger] f.requires((&items@[j],)),
            forall|j: int, b: bool|
                0 <= j < items@.len() as int && #[trigger] f.ensures((&items@[j],), b)
                    ==> b == p(j),
        decreases n - i,
    {
        if f(&items[i]) {
            run += 1;
        } else {
            run = 0;
        }
        if run > r {
            r = run;
        }
        i += 1;
    }
    r
}

/// The length of the longest run of pairs of adjacent items for which a condition holds.
pub(crate) fn longest_pairs<T, F: Fn(&T, &T) -> bool>(
    items: &[T],
    f: F,
    Ghost(p): Ghost<spec_fn(int) -> bool>,
) -> (r: usize)
    requires
        forall|i: int|
            0 <= i < windows(items@.len(), 2)
                ==> #[trigger] f.requires((&items@[i], &items@[i + 1])),
        forall|i: int, b: bool|
            0 <= i < windows(items@.len(), 2)
                && #[trigger] f.ensures((&items@[i], &items@[i + 1]), b)
                ==> b == p(i),
    ensures
        r == longest_run(windows(items@.len(), 2), p),
        r <= items@.len(),
{
    let n: usize = if items.len() < 2 {
        0
    } else {
        items.len() - 1
    };
    let mut r: usize = 0;
    let mut run: usize = 0;
    let mut i: usize = 0;
    while i < n
        invariant
            n == windows(items@.len(), 2),
            run <= i <= n <= items@.len(),
            r <= i,
            r == longest_run(i as int, p),
            run == run_at_end(i as int, p),
            forall|j: int|
                0 <= j < windows(items@.len(), 2)
                    ==> #[trigger] f.requires((&items@[j], &items@[j + 1])),
            forall|j: int, b: bool|
                0 <= j < windows(items@.len(), 2)
                    && #[trigger] f.ensures((&items@[j], &items@[j + 1]), b)
                    ==> b == p(j),
        decreases n - i,
    {
        if f(&items[i], &items[i + 1]) {
            run += 1;
        } else {
            run = 0;
        }
        if run > r {
            r = run;
        }
        i += 1;
    }
    r
}

/// A sum that is in range was so at every step.
pub(crate) proof fn lemma_total_prefix(n: int, i: int, f: spec_fn(int) -> Option<Num>)
    requires
        0 <= i <= n,
        total(n, f) is Some,
    ensures
        total(i, f) is Some,
        i < n ==> f(i) is Some && plus(total(i, f), f(i)) is Some,
    decreases n,
{
    if i < n - 1 {
        lemma_total_prefix(n - 1, i, f);
    }
}

/// Adds up what a function gives for the items.
pub(crate) fn add_up<T, F: Fn(&T) -> Decimal>(
    items: &[T],
    f: F,
    Ghost(g): Ghost<spec_fn(int) -> Option<Num>>,
) -> (r: Decimal)
    requires
        total(items@.len() as int, g) is Some,
        forall|i: int|
            0 <= i < items@.len() as int && g(i) is Some ==> #[trigger] f.requires((&items@[i],)),
        forall|i: int, d: Decimal|
            0 <= i < items@.len() as int && #[trigger] f.ensures((&items@[i],), d)
                ==> d.val() == g(i),
    ensures
        r.val() == total(items@.len() as int, g),
{
    let n: usize = items.len();
    let mut r = Decimal::zero();
    let mut i: usize = 0;
    while i < n
        invariant
            n == items@.len() as int,
            i <= n <= items@.len(),
            r.val() == total(i as int, g),
            total(n as int, g) is Some,
            forall|j: int|
                0 <= j < items@.len() as int && g(j) is Some
                    ==> #[trigger] f.requires((&items@[j],)),
            forall|j: int, d: Decimal|
                0 <= j < items@.len() as int && #[trigger] f.ensures((&items@[j],), d)
                    ==> d.val() == g(j),
        decreases n - i,
    {
        proof {
            lemma_total_prefix(n as int, i as int, g);
        }
        r = r + f(&items[i]);
        i += 1;
    }
    r
}

/// Adds up what a function gives for the pairs of adjacent items.
pub(crate) fn add_up_pairs<T, F: Fn(&T, &T) -> Decimal>(
    items: &[T],
    f: F,
    Ghost(g): Ghost<spec_fn(int) -> Option<Num>>,
) -> (r: Decimal)
    requires
        total(windows(items@.len(), 2), g) is Some,
        forall|i: int|
            0 <= i < windows(items@.len(), 2) && g(i) is Some
                ==> #[trigger] f.requires((&items@[i], &items@[i + 1])),
        forall|i: int, d: Decimal|
            0 <= i < windows(items@.len(), 2)
                && #[trigger] f.ensures((&items@[i], &items@[i + 1]), d)
                ==> d.val() == g(i),
    ensures
        r.val() == total(windows(items@.len(), 2), g),
{
    let n: usize = if items.len() < 2 {
        0
    } else {
        items.len() - 1
    };
    let mut r = Decimal::zero();
    let mut i: usize = 0;
    while i < n
        invariant
            n == windows(items@.len(), 2),
            i <= n <= items@.len(),
            r.val() == total(i as int, g),
            total(n as int, g) is Some,
            forall|j: int|
                0 <= j < windows(items@.len(), 2) && g(j) is Some
                    ==> #[trigger] f.requires((&items@[j], &items@[j + 1])),
            forall|j: int, d: Decimal|
                0 <= j < windows(items@.len(), 2)
                    && #[trigger] f.ensures((&items@[j], &items@[j + 1]), d)
                    ==> d.val() == g(j),
        decreases n - i,
    {
        proof {
            lemma_total_prefix(n as int, i as int, g);
        }
        r = r + f(&items[i], &items[i + 1]);
        i += 1;
    }
    r
}

/// Adds up what a function gives for the triples of adjacent items.
pub(crate) fn add_up_triples<T, F: Fn(&T, &T, &T) -> Decimal>(
    items: &[T],
    f: F,
    Ghost(g): Ghost<spec_fn(int) -> Option<Num>>,
) -> (r: Decimal)
    requires
        total(windows(items@.len(), 3), g) is Some,
        forall|i: int|
            0 <= i < windows(items@.len(), 3) && g(i) is Some
                ==> #[trigger] f.requires((&items@[i], &items@[i + 1], &items@[i + 2])),
        forall|i: int, d: Decimal|
            0 <= i < windows(items@.len(), 3)
                && #[trigger] f.ensures((&items@[i], &items@[i + 1], &items@[i + 2]), d)
                ==> d.val() == g(i),
    ensures
        r.val() == total(windows(items@.len(), 3), g),
{
    let n: usize = if items.len() < 3 {
        0
    } else {
        items.len() - 2
    };
    let mut r = Decimal::zero();
    let mut i: usize = 0;
    while i < n
        invariant
            n == windows(items@.len(), 3),
            i <= n <= items@.len(),
            r.val() == total(i as int, g),
            total(n as int, g) is Some,
            forall|j: int|
                0 <= j < windows(items@.len(), 3) && g(j) is Some
                    ==> #[trigger] f.requires((&items@[j], &items@[j + 1], &items@[j + 2])),
            forall|j: int, d: Decimal|
                0 <= j < windows(items@.len(), 3)
                    && #[trigger] f.ensures((&items@[j], &items@[j + 1], &items@[j + 2]), d)
                    ==> d.val() == g(j),
        decreases n - i,
    {
        proof {
            lemma_total_prefix(n as int, i as int, g);
        }
        r = r + f(&items[i], &items[i + 1], &items[i + 2]);
        i += 1;
    }
    r
}

proof fn lemma_total_where_prefix(
    n: int,
    i: int,
    p: spec_fn(int) -> bool,
    f: spec_fn(int) -> Option<Num>,
)
    requires
        0 <= i <= n,
        total_where(n, p, f) is Some,
    ensures
        total_where(i, p, f) is Some,
        i < n && p(i) ==> f(i) is Some && plus(total_where(i, p, f), f(i)) is Some,
    decreases n,
{
    if i < n - 1 {
        lemma_total_where_prefix(n - 1, i, p, f);
    }
}

/// Adds up what a function gives for the items for which a condition
/// holds.
pub(crate) fn add_up_where<T, P: Fn(&T) -> bool, F: Fn(&T) -> Decimal>(
    items: &[T],
    keep: P,
    f: F,
    Ghost(p): Ghost<spec_fn(int) -> bool>,
    Ghost(g): Ghost<spec_fn(int) -> Option<Num>>,
) -> (r: Decimal)
    requires
        total_where(items@.len() as int, p, g) is Some,
        forall|i: int| 0 <= i < items@.len() as int ==> #[trigger] keep.requires((&items@[i],)),
        forall|i: int, b: bool|
            0 <= i < items@.len() as int && #[trigger] keep.ensures((&items@[i],), b) ==> b == p(i),
        forall|i: int|
            0 <= i < items@.len() as int && p(i) && g(i) is Some
                ==> #[trigger] f.requires((&items@[i],)),
        forall|i: int, d: Decimal|
            0 <= i < items@.len() as int && #[trigger] f.ensures((&items@[i],), d)
                ==> d.val() == g(i),
    ensures
        r.val() == total_where(items@.len() as int, p, g),
{
    let n: usize = items.len();
    let mut r = Decimal::zero();
    let mut i: usize = 0;
    while i < n
        invariant
            n == items@.len() as int,
            i <= n <= items@.len(),
            r.val() == total_where(i as int, p, g),
            total_where(n as int, p, g) is Some,
            forall|j: int| 0 <= j < items@.len() as int ==> #[trigger] keep.requires((&items@[j],)),
            forall|j: int, b: bool|
                0 <= j < items@.len() as int && #[trigger] keep.ensures((&items@[j],), b)
                    ==> b == p(j),
            forall|j: int|
                0 <= j < items@.len() as int && p(j) && g(j) is Some
                    ==> #[trigger] f.requires((&items@[j],)),
            forall|j: int, d: Decimal|
                0 <= j < items@.len() as int && #[trigger] f.ensures((&items@[j],), d)
                    ==> d.val() == g(j),
        decreases n - i,
    {
        if keep(&items[i]) {
            proof {
                lemma_total_where_prefix(n as int, i as int, p, g);
            }
            r = r + f(&items[i]);
        }
        i += 1;
    }
    r
}

/// Where no index is counted, nothing is added up.
proof fn lemma_nothing_added(n: int, p: spec_fn(int) -> bool, f: spec_fn(int) -> Option<Num>)
    ensures
        tally(n, p) >= 0,
        tally(n, p) == 0 ==> is_nought(total_where(n, p, f)),
    decreases n,
{
    if n > 0 {
        lemma_nothing_added(n - 1, p, f);
    }
}

/// The average of what a function gives for the items for which a condition
/// holds.
pub(crate) fn average<T, P: Fn(&T) -> bool, F: Fn(&T) -> Decimal>(
    items: &[T],
    keep: P,
    f: F,
    Ghost(p): Ghost<spec_fn(int) -> bool>,
    Ghost(g): Ghost<spec_fn(int) -> Option<Num>>,
) -> (r: Option<Decimal>)
    requires
        tally(items@.len() as int, p) > 0 ==> mean_where(items@.len() as int, p, g) is Some,
        forall|i: int| 0 <= i < items@.len() as int ==> #[trigger] keep.requires((&items@[i],)),
        forall|i: int, b: bool|
            0 <= i < items@.len() as int && #[trigger] keep.ensures((&items@[i],), b) ==> b == p(i),
        forall|i: int|
            0 <= i < items@.len() as int && p(i) && g(i) is Some
                ==> #[trigger] f.requires((&items@[i],)),
        forall|i: int, d: Decimal|
            0 <= i < items@.len() as int && #[trigger] f.ensures((&items@[i],), d)
                ==> d.val() == g(i),
    ensures
        yields(r, tally(items@.len() as int, p) > 0, mean_where(items@.len() as int, p, g)),
{
    let n: usize = items.len();
    let mut sum = Decimal::zero();
    let mut kept: usize = 0;
    let mut i: usize = 0;
    proof {
        lemma_nothing_added(n as int, p, g);
    }
    while i < n
        invariant
            n == items@.len() as int,
            i <= n <= items@.len(),
            kept <= i,
            kept == tally(i as int, p),
            sum.val() == total_where(i as int, p, g),
            total_where(n as int, p, g) is Some,
            forall|j: int| 0 <= j < items@.len() as int ==> #[trigger] keep.requires((&items@[j],)),
            forall|j: int, b: bool|
                0 <= j < items@.len() as int && #[trigger] keep.ensures((&items@[j],), b)
                    ==> b == p(j),
            forall|j: int|
                0 <= j < items@.len() as int && p(j) && g(j) is Some
                    ==> #[trigger] f.requires((&items@[j],)),
            forall|j: int, d: Decimal|
                0 <= j < items@.len() as int && #[trigger] f.ensures((&items@[j],), d)
                    ==> d.val() == g(j),
        decreases n - i,
    {
        if keep(&items[i]) {
            proof {
                lemma_total_where_prefix(n as int, i as int, p, g);
            }
            sum = sum + f(&items[i]);
            kept += 1;
        }
        i += 1;
    }
    if kept == 0 {
        return None;
    }
    Some(sum / Decimal::count(kept as u64))
}

/// The average of what a function gives for the pairs of adjacent items for which a condition
/// holds.
pub(crate) fn average_pairs<T, P: Fn(&T, &T) -> bool, F: Fn(&T, &T) -> Decimal>(
    items: &[T],
    keep: P,
    f: F,
    Ghost(p): Ghost<spec_fn(int) -> bool>,
    Ghost(g): Ghost<spec_fn(int) -> Option<Num>>,
) -> (r: Option<Decimal>)
    requires
        tally(windows(items@.len(), 2), p) > 0 ==> mean_where(windows(items@.len(), 2), p, g) is Some,
        forall|i: int|
            0 <= i < windows(items@.len(), 2)
                ==> #[trigger] keep.requires((&items@[i], &items@[i + 1])),
        forall|i: int, b: bool|
            0 <= i < windows(items@.len(), 2)
                && #[trigger] keep.ensures((&items@[i], &items@[i + 1]), b)
                ==> b == p(i),
        forall|i: int|
            0 <= i < windows(items@.len(), 2) && p(i) && g(i) is Some
                ==> #[trigger] f.requires((&items@[i], &items@[i + 1])),
        forall|i: int, d: Decimal|
            0 <= i < windows(items@.len(), 2)
                && #[trigger] f.ensures((&items@[i], &items@[i + 1]), d)
                ==> d.val() == g(i),
    ensures
        yields(
            r,
            tally(windows(items@.len(), 2), p) > 0,
            mean_where(windows(items@.len(), 2), p, g),
        ),
{
    let n: usize = if items.len() < 2 {
        0
    } else {
        items.len() - 1
    };
    let mut sum = Decimal::zero();
    let mut kept: usize = 0;
    let mut i: usize = 0;
    proof {
        lemma_nothing_added(n as int, p, g);
    }
    while i < n
        invariant
            n == windows(items@.len(), 2),
            i <= n <= items@.len(),
            kept <= i,
            kept == tally(i as int, p),
            sum.val() == total_where(i as int, p, g),
            total_where(n as int, p, g) is Some,
            forall|j: int|
                0 <= j < windows(items@.len(), 2)
                    ==> #[trigger] keep.requires((&items@[j], &items@[j + 1])),
            forall|j: int, b: bool|
                0 <= j < windows(items@.len(), 2)
                    && #[trigger] keep.ensures((&items@[j], &items@[j + 1]), b)
                    ==> b == p(j),
            forall|j: int|
                0 <= j < windows(items@.len(), 2) && p(j) && g(j) is Some
                    ==> #[trigger] f.requires((&items@[j], &items@[j + 1])),
            forall|j: int, d: Decimal|
                0 <= j < windows(items@.len(), 2)
                    && #[trigger] f.ensures((&items@[j], &items@[j + 1]), d)
                    ==> d.val() == g(j),
        decreases n - i,
    {
        if keep(&items[i], &items[i + 1]) {
            proof {
                lemma_total_where_prefix(n as int, i as int, p, g);
            }
            sum = sum + f(&items[i], &items[i + 1]);
            kept += 1;
        }
        i += 1;
    }
    if kept == 0 {
        return None;
    }
    Some(sum / Decimal::count(kept as u64))
}

/// The exponential average of what a function gives for the items.
pub(crate) fn smooth<T, F: Fn(&T) -> Decimal>(
    items: &[T],
    f: F,
    alpha: Decimal,
    Ghost(g): Ghost<spec_fn(int) -> Option<Num>>,
) -> (r: Option<Decimal>)
    requires
        items@.len() > 0 ==> smoothed(items@.len() as int, g, alpha.num()) is Some,
        forall|i: int|
            0 <= i < items@.len() && g(i) is Some ==> #[trigger] f.requires((&items@[i],)),
        forall|i: int, d: Decimal|
            0 <= i < items@.len() && #[trigger] f.ensures((&items@[i],), d) ==> d.val() == g(i),
    ensures
        yields(r, items@.len() > 0, smoothed(items@.len() as int, g, alpha.num())),
{
    if items.len() == 0 {
        return None;
    }
    let ghost n = items@.len() as int;
    proof {
        lemma_smoothed_prefix(n, 1, g, alpha.num());
    }
    let mut r = f(&items[0]);
    let mut i: usize = 1;
    while i < items.len()
        invariant
            n == items@.len(),
            1 <= i <= n,
            smoothed(n, g, alpha.num()) is Some,
            r.val() == smoothed(i as int, g, alpha.num()),
            forall|j: int|
                0 <= j < items@.len() && g(j) is Some ==> #[trigger] f.requires((&items@[j],)),
            forall|j: int, d: Decimal|
                0 <= j < items@.len() && #[trigger] f.ensures((&items@[j],), d) ==> d.val() == g(j),
        decreases n - i,
    {
        proof {
            lemma_smoothed_prefix(n, i + 1, g, alpha.num());
        }
        r = alpha * f(&items[i]) + (Decimal::whole(1) - alpha) * r;
        i += 1;
    }
    Some(r)
}

/// An exponential average that is in range was so at every step.
proof fn lemma_smoothed_prefix(n: int, i: int, f: spec_fn(int) -> Option<Num>, alpha: Num)
    requires
        1 <= i <= n,
        smoothed(n, f, alpha) is Some,
    ensures
        smoothed(i, f, alpha) is Some,
    decreases n,
{
    if i < n {
        lemma_smoothed_prefix(n - 1, i, f, alpha);
    }
}

/// The greatest of what a function gives for the items, and the first one where
/// several are equal.
pub(crate) fn greatest<T, F: Fn(&T) -> Decimal>(
    items: &[T],
    f: F,
    Ghost(g): Ghost<spec_fn(int) -> Option<Num>>,
) -> (r: Option<Decimal>)
    requires
        all_some(items@.len() as int, g),
        forall|i: int|
            0 <= i < items@.len() as int && g(i) is Some ==> #[trigger] f.requires((&items@[i],)),
        forall|i: int, d: Decimal|
            0 <= i < items@.len() as int && #[trigger] f.ensures((&items@[i],), d)
                ==> d.val() == g(i),
    ensures
        yields(r, items@.len() as int > 0, highest(items@.len() as int, g)),
{
    let n: usize = items.len();
    if n == 0 {
        return None;
    }
    let mut i: usize = 0;
    assert(g(0) is Some);
    let mut r = f(&items[i]);
    i += 1;
    while i < n
        invariant
            n == items@.len() as int,
            1 <= i <= n <= items@.len(),
            r.val() == highest(i as int, g),
            all_some(n as int, g),
            forall|j: int|
                0 <= j < items@.len() as int && g(j) is Some
                    ==> #[trigger] f.requires((&items@[j],)),
            forall|j: int, d: Decimal|
                0 <= j < items@.len() as int && #[trigger] f.ensures((&items@[j],), d)
                    ==> d.val() == g(j),
        decreases n - i,
    {
        assert(g(i as int) is Some);
        r = r.max(f(&items[i]));
        i += 1;
    }
    Some(r)
}

/// The greatest of what a function gives for the items, and the last one where
/// several are equal.
pub(crate) fn last_greatest<T, F: Fn(&T) -> Decimal>(
    items: &[T],
    f: F,
    Ghost(g): Ghost<spec_fn(int) -> Option<Num>>,
) -> (r: Option<Decimal>)
    requires
        all_some(items@.len() as int, g),
        forall|i: int|
            0 <= i < items@.len() as int && g(i) is Some ==> #[trigger] f.requires((&items@[i],)),
        forall|i: int, d: Decimal|
            0 <= i < items@.len() as int && #[trigger] f.ensures((&items@[i],), d)
                ==> d.val() == g(i),
    ensures
        yields(r, items@.len() as int > 0, last_highest(items@.len() as int, g)),
{
    let n: usize = items.len();
    if n == 0 {
        return None;
    }
    let mut i: usize = 0;
    assert(g(0) is Some);
    let mut r = f(&items[i]);
    i += 1;
    while i < n
        invariant
            n == items@.len() as int,
            1 <= i <= n <= items@.len(),
            r.val() == last_highest(i as int, g),
            all_some(n as int, g),
            forall|j: int|
                0 <= j < items@.len() as int && g(j) is Some
                    ==> #[trigger] f.requires((&items@[j],)),
            forall|j: int, d: Decimal|
                0 <= j < items@.len() as int && #[trigger] f.ensures((&items@[j],), d)
                    ==> d.val() == g(j),
        decreases n - i,
    {
        assert(g(i as int) is Some);
        r = f(&items[i]).max(r);
        i += 1;
    }
    Some(r)
}

/// The greatest of what a function gives for the pairs of adjacent items, and the
/// last one where several are equal.
pub(crate) fn last_greatest_pairs<T, F: Fn(&T, &T) -> Decimal>(
    items: &[T],
    f: F,
    Ghost(g): Ghost<spec_fn(int) -> Option<Num>>,
) -> (r: Option<Decimal>)
    requires
        all_some(windows(items@.len(), 2), g),
        forall|i: int|
            0 <= i < windows(items@.len(), 2) && g(i) is Some
                ==> #[trigger] f.requires((&items@[i], &items@[i + 1])),
        forall|i: int, d: Decimal|
            0 <= i < windows(items@.len(), 2)
                && #[trigger] f.ensures((&items@[i], &items@[i + 1]), d)
                ==> d.val() == g(i),
    ensures
        yields(r, windows(items@.len(), 2) > 0, last_highest(windows(items@.len(), 2), g)),
{
    let n: usize = if items.len() < 2 {
        0
    } else {
        items.len() - 1
    };
    if n == 0 {
        return None;
    }
    let mut i: usize = 0;
    assert(g(0) is Some);
    let mut r = f(&items[i], &items[i + 1]);
    i += 1;
    while i < n
        invariant
            n == windows(items@.len(), 2),
            1 <= i <= n <= items@.len(),
            r.val() == last_highest(i as int, g),
            all_some(n as int, g),
            forall|j: int|
                0 <= j < windows(items@.len(), 2) && g(j) is Some
                    ==> #[trigger] f.requires((&items@[j], &items@[j + 1])),
            forall|j: int, d: Decimal|
                0 <= j < windows(items@.len(), 2)
                    && #[trigger] f.ensures((&items@[j], &items@[j + 1]), d)
                    ==> d.val() == g(j),
        decreases n - i,
    {
        assert(g(i as int) is Some);
        r = f(&items[i], &items[i + 1]).max(r);
        i += 1;
    }
    Some(r)
}

/// The least of what a function gives for the items.
pub(crate) fn least<T, F: Fn(&T) -> Decimal>(
    items: &[T],
    f: F,
    Ghost(g): Ghost<spec_fn(int) -> Option<Num>>,
) -> (r: Option<Decimal>)
    requires
        all_some(items@.len() as int, g),
        forall|i: int|
            0 <= i < items@.len() as int && g(i) is Some ==> #[trigger] f.requires((&items@[i],)),
        forall|i: int, d: Decimal|
            0 <= i < items@.len() as int && #[trigger] f.ensures((&items@[i],), d)
                ==> d.val() == g(i),
    ensures
        yields(r, items@.len() as int > 0, lowest(items@.len() as int, g)),
{
    let n: usize = items.len();
    if n == 0 {
        return None;
    }
    let mut i: usize = 0;
    assert(g(0) is Some);
    let mut r = f(&items[i]);
    i += 1;
    while i < n
        invariant
            n == items@.len() as int,
            1 <= i <= n <= items@.len(),
            r.val() == lowest(i as int, g),
            all_some(n as int, g),
            forall|j: int|
                0 <= j < items@.len() as int && g(j) is Some
                    ==> #[trigger] f.requires((&items@[j],)),
            forall|j: int, d: Decimal|
                0 <= j < items@.len() as int && #[trigger] f.ensures((&items@[j],), d)
                    ==> d.val() == g(j),
        decreases n - i,
    {
        assert(g(i as int) is Some);
        r = r.min(f(&items[i]));
        i += 1;
    }
    Some(r)
}

/// Collects what a function gives for the items.
pub(crate) fn collect_all<T, F: Fn(&T) -> Decimal>(
    items: &[T],
    f: F,
    Ghost(g): Ghost<spec_fn(int) -> Option<Num>>,
) -> (r: Vec<Decimal>)
    requires
        all_some(items@.len() as int, g),
        forall|i: int|
            0 <= i < items@.len() as int && g(i) is Some ==> #[trigger] f.requires((&items@[i],)),
        forall|i: int, d: Decimal|
            0 <= i < items@.len() as int && #[trigger] f.ensures((&items@[i],), d)
                ==> d.val() == g(i),
    ensures
        values(r@) == Seq::new(items@.len(), g),
{
    let n: usize = items.len();
    let mut r: Vec<Decimal> = Vec::new();
    let mut i: usize = 0;
    while i < n
        invariant
            n == items@.len() as int,
            i <= n <= items@.len(),
            values(r@) == Seq::new(i as nat, g),
            all_some(n as int, g),
            forall|j: int|
                0 <= j < items@.len() as int && g(j) is Some
                    ==> #[trigger] f.requires((&items@[j],)),
            forall|j: int, d: Decimal|
                0 <= j < items@.len() as int && #[trigger] f.ensures((&items@[j],), d)
                    ==> d.val() == g(j),
        decreases n - i,
    {
        assert(g(i as int) is Some);
        let ghost before = r@;
        let d = f(&items[i]);
        r.push(d);
        i += 1;
        assert(values(r@) =~= values(before).push(d.val()));
        assert(values(r@) =~= Seq::new(i as nat, g));
    }
    r
}

/// Collects what a function gives for the items for which a condition
/// holds.
pub(crate) fn collect<T, P: Fn(&T) -> bool, F: Fn(&T) -> Decimal>(
    items: &[T],
    keep: P,
    f: F,
    Ghost(p): Ghost<spec_fn(int) -> bool>,
    Ghost(g): Ghost<spec_fn(int) -> Option<Num>>,
) -> (r: Vec<Decimal>)
    requires
        forall|i: int| 0 <= i < items@.len() as int ==> #[trigger] keep.requires((&items@[i],)),
        forall|i: int, b: bool|
            0 <= i < items@.len() as int && #[trigger] keep.ensures((&items@[i],), b) ==> b == p(i),
        forall|i: int|
            0 <= i < items@.len() as int && p(i) ==> #[trigger] f.requires((&items@[i],)),
        forall|i: int, d: Decimal|
            0 <= i < items@.len() as int && #[trigger] f.ensures((&items@[i],), d)
                ==> d.val() == g(i),
    ensures
        values(r@) == kept(items@.len() as int, p, g),
{
    let n: usize = items.len();
    let mut r: Vec<Decimal> = Vec::new();
    let mut i: usize = 0;
    assert(values(r@) =~= kept(0, p, g));
    while i < n
        invariant
            n == items@.len() as int,
            i <= n <= items@.len(),
            values(r@) == kept(i as int, p, g),
            forall|j: int| 0 <= j < items@.len() as int ==> #[trigger] keep.requires((&items@[j],)),
            forall|j: int, b: bool|
                0 <= j < items@.len() as int && #[trigger] keep.ensures((&items@[j],), b)
                    ==> b == p(j),
            forall|j: int|
                0 <= j < items@.len() as int && p(j) ==> #[trigger] f.requires((&items@[j],)),
            forall|j: int, d: Decimal|
                0 <= j < items@.len() as int && #[trigger] f.ensures((&items@[j],), d)
                    ==> d.val() == g(j),
        decreases n - i,
    {
        if keep(&items[i]) {
            let ghost before = r@;
            let d = f(&items[i]);
            r.push(d);
            assert(values(r@) =~= values(before).push(d.val()));
        }
        i += 1;
    }
    r
}

/// A number put into an ascending sequence, behind those that are not greater.
pub open spec fn placed(s: Seq<Num>, x: Num) -> Seq<Num>
    decreases s.len(),
{
    if s.len() == 0 || s.last().units <= x.units {
        s.push(x)
    } else {
        placed(s.drop_last(), x).push(s.last())
    }
}

/// The values of `f` over the indices below `n`, in ascending order; equal ones
/// stay in the order of the indices.
pub open spec fn ascending(n: int, f: spec_fn(int) -> Option<Num>) -> Seq<Num>
    decreases n,
{
    if n <= 0 {
        Seq::empty()
    } else {
        placed(ascending(n - 1, f), f(n - 1)->0)
    }
}

/// The median of `f` over the indices below `n`: the middle one of the values in
/// ascending order, or the mean of the two in the middle.
pub open spec fn median(n: int, f: spec_fn(int) -> Option<Num>) -> Option<Num> {
    let s = ascending(n, f);
    if n % 2 == 1 {
        Some(s[n / 2])
    } else {
        over(plus(Some(s[n / 2 - 1]), Some(s[n / 2])), whole(2))
    }
}

/// The numbers that decimals stand for.
pub open spec fn numbers(s: Seq<Decimal>) -> Seq<int> {
    s.map_values(|d: Decimal| d@)
}

/// The numbers that decimals stand for, as they are written.
pub open spec fn written(s: Seq<Decimal>) -> Seq<Num> {
    s.map_values(|d: Decimal| d.num())
}

/// Sorts decimals in ascending order.
pub(crate) fn sorted(
    items: Vec<Decimal>,
    Ghost(g): Ghost<spec_fn(int) -> Option<Num>>,
) -> (r: Vec<Decimal>)
    requires
        values(items@) == Seq::new(items@.len(), g),
    ensures
        written(r@) == ascending(items@.len() as int, g),
        r@.len() == items@.len(),
{
    let mut r: Vec<Decimal> = Vec::new();
    let mut i: usize = 0;
    assert(written(r@) =~= ascending(0, g));
    while i < items.len()
        invariant
            values(items@) == Seq::new(items@.len(), g),
            i <= items@.len(),
            r@.len() == i,
            written(r@) == ascending(i as int, g),
        decreases items@.len() - i,
    {
        let d = items[i];
        assert(values(items@)[i as int] == d.val());
        let mut at: usize = r.len();
        while at > 0 && r[at - 1] > d
            invariant
                at <= r@.len(),
                forall|k: int| at <= k < r@.len() ==> (#[trigger] r@[k])@ > d@,
            decreases at,
        {
            at -= 1;
        }
        let ghost before = r@;
        r.insert(at, d);
        proof {
            lemma_placed(written(before), at as int, d.num());
            assert(written(r@) =~= written(before).insert(at as int, d.num()));
        }
        i += 1;
    }
    r
}

/// Where a number is put.
proof fn lemma_placed(s: Seq<Num>, at: int, x: Num)
    requires
        0 <= at <= s.len(),
        at > 0 ==> s[at - 1].units <= x.units,
        forall|k: int| at <= k < s.len() ==> (#[trigger] s[k]).units > x.units,
    ensures
        placed(s, x) == s.insert(at, x),
    decreases s.len(),
{
    if at == s.len() {
        assert(s.insert(at, x) =~= s.push(x));
    } else {
        assert(s.last().units > x.units);
        lemma_placed(s.drop_last(), at, x);
        assert(s.insert(at, x) =~= s.drop_last().insert(at, x).push(s.last()));
    }
}

/// The median of a series.
pub(crate) fn median_of<T, F: Fn(&T) -> Decimal>(
    items: &[T],
    f: F,
    Ghost(g): Ghost<spec_fn(int) -> Option<Num>>,
) -> (r: Decimal)
    requires
        items@.len() > 0,
        all_some(items@.len() as int, g),
        median(items@.len() as int, g) is Some,
        forall|i: int|
            0 <= i < items@.len() as int && g(i) is Some ==> #[trigger] f.requires((&items@[i],)),
        forall|i: int, d: Decimal|
            0 <= i < items@.len() as int && #[trigger] f.ensures((&items@[i],), d) ==> d.val()
                == g(i),
    ensures
        r.val() == median(items@.len() as int, g),
{
    let n: usize = items.len();
    let list = collect_all(items, f, Ghost(g));
    proof {
        assert(values(list@).len() == n);
    }
    let s = sorted(list, Ghost(g));
    assert forall|i: int| 0 <= i < n implies s@[i].num() == ascending(n as int, g)[i] by {
        assert(written(s@)[i] == s@[i].num());
    }
    if n % 2 == 1 {
        s[n / 2]
    } else {
        (s[n / 2 - 1] + s[n / 2]) / Decimal::whole(2)
    }
}

} // verus!
