//! Patterns and rankings over bars.

use crate::series;
use crate::bar::OhlcvBar;
use vstd::prelude::*;
use vstd::slice::slice_subrange;

verus! {

impl OhlcvBar {
    /// Returns `true` if the last three bars form a "three white soldiers" pattern:
    /// three consecutive bullish (close > open) bars, each closing above the prior bar's close.
    pub fn three_white_soldiers(bars: &[OhlcvBar]) -> (r: bool)
        ensures
            r == (bars@.len() >= 3 && {
                let a = bars@[bars@.len() - 3];
                let b = bars@[bars@.len() - 2];
                let c = bars@[bars@.len() - 1];
                &&& a.close@ > a.open@
                &&& b.close@ > b.open@
                &&& c.close@ > c.open@
                &&& b.close@ > a.close@
                &&& c.close@ > b.close@
            }),
    {
        if bars.len() < 3 {
            return false;
        }
        let a = &bars[bars.len() - 3];
        let b = &bars[bars.len() - 2];
        let c = &bars[bars.len() - 1];
        a.is_bullish() && b.is_bullish() && c.is_bullish() && b.close > a.close && c.close > b.close
    }

    /// Returns `true` if the last three bars form a "three black crows" pattern:
    /// three consecutive bearish (close < open) bars, each closing below the prior bar's close.
    pub fn three_black_crows(bars: &[OhlcvBar]) -> (r: bool)
        ensures
            r == (bars@.len() >= 3 && {
                let a = bars@[bars@.len() - 3];
                let b = bars@[bars@.len() - 2];
                let c = bars@[bars@.len() - 1];
                &&& a.close@ < a.open@
                &&& b.close@ < b.open@
                &&& c.close@ < c.open@
                &&& b.close@ < a.close@
                &&& c.close@ < b.close@
            }),
    {
        if bars.len() < 3 {
            return false;
        }
        let a = &bars[bars.len() - 3];
        let b = &bars[bars.len() - 2];
        let c = &bars[bars.len() - 1];
        a.is_bearish() && b.is_bearish() && c.is_bearish() && b.close < a.close && c.close < b.close
    }

    /// Returns `true` if the last `n` closes form a strict uptrend.
    ///
    /// Each close must be strictly greater than the previous. Returns `false`
    /// if `n < 2` or the slice has fewer than `n` bars.
    pub fn is_trending_up(bars: &[OhlcvBar], n: usize) -> (r: bool)
        ensures
            r == (2 <= n <= bars@.len() && forall|i: int|
                bars@.len() - n <= i < bars@.len() - 1 ==> bars@[i + 1].close@ > (
                #[trigger] bars@[i]).close@),
    {
        if n < 2 || bars.len() < n {
            return false;
        }
        let last = slice_subrange(bars, bars.len() - n, bars.len());
        let r = series::all_pairs(
            last,
            |p: &OhlcvBar, b: &OhlcvBar| -> (r: bool)
                ensures
                    r == (b.close@ > p.close@)
            { b.close > p.close },
            Ghost(|i: int| last@[i + 1].close@ > last@[i].close@),
        );
        proof {
            let p = |i: int| last@[i + 1].close@ > last@[i].close@;
            let off = bars@.len() - n;
            if r {
                assert forall|i: int| off <= i < bars@.len() - 1 implies bars@[i + 1].close@ > (
                #[trigger] bars@[i]).close@ by {
                    assert(p(i - off));
                }
            } else {
                let i = choose|i: int| 0 <= i < n - 1 && !(#[trigger] p(i));
                assert(bars@[off + i].close@ == last@[i].close@);
            }
        }
        r
    }

    /// Returns `true` if the last `n` closes form a strict downtrend.
    ///
    /// Each close must be strictly less than the previous. Returns `false`
    /// if `n < 2` or the slice has fewer than `n` bars.
    pub fn is_trending_down(bars: &[OhlcvBar], n: usize) -> (r: bool)
        ensures
            r == (2 <= n <= bars@.len() && forall|i: int|
                bars@.len() - n <= i < bars@.len() - 1 ==> bars@[i + 1].close@ < (
                #[trigger] bars@[i]).close@),
    {
        if n < 2 || bars.len() < n {
            return false;
        }
        let last = slice_subrange(bars, bars.len() - n, bars.len());
        let r = series::all_pairs(
            last,
            |p: &OhlcvBar, b: &OhlcvBar| -> (r: bool)
                ensures
                    r == (b.close@ < p.close@)
            { b.close < p.close },
            Ghost(|i: int| last@[i + 1].close@ < last@[i].close@),
        );
        proof {
            let p = |i: int| last@[i + 1].close@ < last@[i].close@;
            let off = bars@.len() - n;
            if r {
                assert forall|i: int| off <= i < bars@.len() - 1 implies bars@[i + 1].close@ < (
                #[trigger] bars@[i]).close@ by {
                    assert(p(i - off));
                }
            } else {
                let i = choose|i: int| 0 <= i < n - 1 && !(#[trigger] p(i));
                assert(bars@[off + i].close@ == last@[i].close@);
            }
        }
        r
    }
}

} // verus!
