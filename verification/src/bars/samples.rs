//! Lists of one number for each bar or for each bar that qualifies.
//!
//! These are the samples over which deviations, correlations and entropies are
//! taken.

use crate::bar::OhlcvBar;
use crate::bars::{
    bar_returns, bodies, body_shares, close_positions_or_half, closes, high_to_closes,
    nonzero_opens, opens, ranges, top_volumes, typical_prices, upright_bars, volumes,
};
use crate::decimal::{hundredths, minus, over, over_or, Decimal};
use crate::series::{self, all_some, kept, values, written};
use vstd::prelude::*;

verus! {

impl OhlcvBar {
    /// The open of each bar.
    pub(crate) fn all_opens(bars: &[OhlcvBar]) -> (r: Vec<Decimal>)
        ensures
            values(r@) == Seq::new(bars@.len(), opens(bars@)),
    {
        series::collect_all(
            bars,
            |b: &OhlcvBar| -> (d: Decimal)
                ensures
                    d.val() == b.open.val()
            { b.open },
            Ghost(opens(bars@)),
        )
    }

    /// The close of each bar.
    pub(crate) fn all_closes(bars: &[OhlcvBar]) -> (r: Vec<Decimal>)
        ensures
            values(r@) == Seq::new(bars@.len(), closes(bars@)),
    {
        series::collect_all(
            bars,
            |b: &OhlcvBar| -> (d: Decimal)
                ensures
                    d.val() == b.close.val()
            { b.close },
            Ghost(closes(bars@)),
        )
    }

    /// The volume of each bar.
    pub(crate) fn all_volumes(bars: &[OhlcvBar]) -> (r: Vec<Decimal>)
        ensures
            values(r@) == Seq::new(bars@.len(), volumes(bars@)),
    {
        series::collect_all(
            bars,
            |b: &OhlcvBar| -> (d: Decimal)
                ensures
                    d.val() == b.volume.val()
            { b.volume },
            Ghost(volumes(bars@)),
        )
    }

    /// The range of each bar.
    pub(crate) fn range_values(bars: &[OhlcvBar]) -> (r: Vec<Decimal>)
        requires
            all_some(bars@.len() as int, ranges(bars@)),
        ensures
            values(r@) == Seq::new(bars@.len(), ranges(bars@)),
    {
        series::collect_all(
            bars,
            |b: &OhlcvBar| -> (d: Decimal)
                requires
                    b.range_val() is Some,
                ensures
                    d.val() == b.range_val()
            { b.range() },
            Ghost(ranges(bars@)),
        )
    }

    /// The body of each bar.
    pub(crate) fn body_values(bars: &[OhlcvBar]) -> (r: Vec<Decimal>)
        requires
            all_some(bars@.len() as int, bodies(bars@)),
        ensures
            values(r@) == Seq::new(bars@.len(), bodies(bars@)),
    {
        series::collect_all(
            bars,
            |b: &OhlcvBar| -> (d: Decimal)
                requires
                    b.body_val() is Some,
                ensures
                    d.val() == b.body_val()
            { b.body() },
            Ghost(bodies(bars@)),
        )
    }

    /// The distance from the close of each bar to its high.
    pub(crate) fn high_to_close_values(bars: &[OhlcvBar]) -> (r: Vec<Decimal>)
        requires
            all_some(bars@.len() as int, high_to_closes(bars@)),
        ensures
            values(r@) == Seq::new(bars@.len(), high_to_closes(bars@)),
    {
        series::collect_all(
            bars,
            |b: &OhlcvBar| -> (d: Decimal)
                requires
                    minus(b.high.val(), b.close.val()) is Some,
                ensures
                    d.val() == minus(b.high.val(), b.close.val())
            { b.high - b.close },
            Ghost(high_to_closes(bars@)),
        )
    }

    /// The typical price of each bar.
    pub(crate) fn typical_price_values(bars: &[OhlcvBar]) -> (r: Vec<Decimal>)
        requires
            all_some(bars@.len() as int, typical_prices(bars@)),
        ensures
            values(r@) == Seq::new(bars@.len(), typical_prices(bars@)),
    {
        series::collect_all(
            bars,
            |b: &OhlcvBar| -> (d: Decimal)
                requires
                    b.typical_price_val() is Some,
                ensures
                    d.val() == b.typical_price_val()
            { b.typical_price() },
            Ghost(typical_prices(bars@)),
        )
    }

    /// The position of the close of each bar in its range, and a half where there is no range.
    pub(crate) fn close_position_values(bars: &[OhlcvBar]) -> (r: Vec<Decimal>)
        requires
            all_some(bars@.len() as int, close_positions_or_half(bars@)),
        ensures
            values(r@) == Seq::new(bars@.len(), close_positions_or_half(bars@)),
    {
        series::collect_all(
            bars,
            |b: &OhlcvBar| -> (d: Decimal)
                requires
                    over_or(minus(b.close.val(), b.low.val()), b.range_val(), hundredths(50)) is Some,
                ensures
                    d.val() == over_or(minus(b.close.val(), b.low.val()), b.range_val(), hundredths(50))
            {
                if b.range().is_zero() {
                    Decimal::hundredths(50)
                } else {
                    (b.close - b.low) / b.range()
                }
            },
            Ghost(close_positions_or_half(bars@)),
        )
    }

    /// `body / range` of each bar whose high is above its low.
    pub(crate) fn upright_body_shares(bars: &[OhlcvBar]) -> (r: Vec<Decimal>)
        requires
            forall|i: int|
                0 <= i < bars@.len() && (#[trigger] bars@[i]).high@ > bars@[i].low@
                    ==> over(bars@[i].body_val(), bars@[i].range_val()) is Some,
        ensures
            values(r@) == kept(bars@.len() as int, upright_bars(bars@), body_shares(bars@)),
    {
        series::collect(
            bars,
            |b: &OhlcvBar| -> (r: bool)
                ensures
                    r == (b.high@ > b.low@)
            { b.high > b.low },
            |b: &OhlcvBar| -> (d: Decimal)
                requires
                    over(b.body_val(), b.range_val()) is Some,
                ensures
                    d.val() == over(b.body_val(), b.range_val())
            { b.body() / b.range() },
            Ghost(upright_bars(bars@)),
            Ghost(body_shares(bars@)),
        )
    }

    /// `(close - open) / open` of each bar whose open is not zero.
    pub(crate) fn bar_returns(bars: &[OhlcvBar]) -> (r: Vec<Decimal>)
        requires
            forall|i: int|
                0 <= i < bars@.len() && (#[trigger] bars@[i]).open@ != 0
                    ==> over(bars@[i].price_change_val(), bars@[i].open.val()) is Some,
        ensures
            values(r@) == kept(bars@.len() as int, nonzero_opens(bars@), bar_returns(bars@)),
    {
        series::collect(
            bars,
            |b: &OhlcvBar| -> (r: bool)
                ensures
                    r == (b.open@ != 0)
            { !b.open.is_zero() },
            |b: &OhlcvBar| -> (d: Decimal)
                requires
                    over(b.price_change_val(), b.open.val()) is Some,
                ensures
                    d.val() == over(b.price_change_val(), b.open.val())
            { b.price_change() / b.open },
            Ghost(nonzero_opens(bars@)),
            Ghost(bar_returns(bars@)),
        )
    }

    /// The volumes of the third of the bars that have the highest ones, but of one
    /// bar at least, in ascending order.
    pub(crate) fn top_volumes(bars: &[OhlcvBar]) -> (r: Vec<Decimal>)
        requires
            bars@.len() > 0,
        ensures
            written(r@) == top_volumes(bars@),
    {
        let n: usize = bars.len();
        let list = Self::all_volumes(bars);
        assert(values(list@).len() == n);
        let mut sorted = series::sorted(list, Ghost(volumes(bars@)));
        let third: usize = if n >= 3 {
            n / 3
        } else {
            1
        };
        let ghost all = sorted@;
        let top = sorted.split_off(n - third);
        assert(top@ =~= all.skip(n - third));
        assert(written(top@) =~= written(all).skip(n - third));
        top
    }
}

} // verus!
