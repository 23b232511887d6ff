//! What the named series read off the bars, in opens, highs, lows, closes and volumes.

use crate::bar::{option_view, OhlcvBar};
use crate::bars::{
    any_gaps, bar_returns, bodies, bodies_per_open, bodies_per_volume, body_midpoints, body_shares,
    body_shares_or_zero, body_slacks, close_above, close_accelerations, close_below,
    close_change_values, close_changes, close_deviations, close_locations, close_moves,
    close_positions, close_positions_or_half, close_to_high_shares, close_to_lows,
    close_to_prev_opens, close_values, closes, complete_bars, down_bars, down_moves, falling_closes,
    falling_lows, falling_volumes, flat_bars, gap_downs, gap_sizes, gap_ups, gaps, high_changes,
    high_low_excesses, high_low_ratios, high_to_closes, high_to_open_returns, high_to_opens,
    high_values, highs, later_volumes, low_changes, low_to_closes, lower_wick_bars,
    lower_wick_shares, lower_wicks, lows, midpoint_changes, midpoint_leads, midpoint_offsets,
    moving_bars, moving_closes, nonzero_bodies, nonzero_closes, nonzero_highs, nonzero_lows,
    nonzero_opens, nonzero_prior_closes, nonzero_volumes, not_down_bars, open_positions,
    open_positions_or_half, open_to_high_ratios, open_to_high_shares, open_values, opens,
    opens_per_midpoint_or_one, percent_returns, persisting_closes, price_changes, range_above,
    range_below, range_changes, range_deviations, range_volumes, ranged_bars, ranges,
    ranges_per_body_midpoint_or_zero, ranges_per_close, ranges_per_open, ranges_per_open_or_zero,
    ranges_per_prior_close_or_zero, ranges_per_volume, relative_close_changes, relative_close_moves,
    relative_gap_sizes, relative_gaps, relative_high_moves, reversing_closes, rising_closes,
    rising_highs, shadow_shares, shadows, signed_body_shares, stop_distances, true_ranges,
    two_wick_bars, typical_prices, up_bars, up_moves, upper_body_shares, upper_wick_bars,
    upper_wick_shares, upper_wick_shares_or_half, upper_wicks_per_body, upright_bars, volume_above,
    volume_changes, volume_moves, volume_shares, volumes, volumes_per_open, volumes_per_range,
    vwap_bars, vwap_deviations, vwaps, wick_asymmetries, wick_balances, wick_imbalances,
    wick_ratios, wick_shares, wick_symmetries, wick_totals, wicked_bars, wicks_per_body,
};
use crate::decimal::{
    hundredths, is_nought, larger, magnitude, minus, over, over_or, plus, smaller, times, whole,
    Num,
};
use vstd::prelude::*;

verus! {

/// What is read off a bar on its own: its prices and volume, the distances between its
/// prices, and its prices times its volume.
pub proof fn prices_and_distances_are_read_off_each_bar(bars: Seq<OhlcvBar>, i: int)
    ensures
        ({
            let open = bars[i].open.val();
            let high = bars[i].high.val();
            let low = bars[i].low.val();
            let close = bars[i].close.val();
            let volume = bars[i].volume.val();
            let range = minus(high, low);
            let change = minus(close, open);
            let body = magnitude(minus(close, open));
            let upper = minus(high, larger(open, close));
            let lower = minus(smaller(open, close), low);
            &&& opens(bars)(i) == open
            &&& highs(bars)(i) == high
            &&& lows(bars)(i) == low
            &&& closes(bars)(i) == close
            &&& volumes(bars)(i) == volume
            &&& ranges(bars)(i) == range
            &&& bodies(bars)(i) == body
            &&& price_changes(bars)(i) == change
            &&& typical_prices(bars)(i) == over(plus(plus(high, low), close), whole(3))
            &&& wick_totals(bars)(i) == plus(upper, lower)
            &&& high_to_closes(bars)(i) == minus(high, close)
            &&& close_to_lows(bars)(i) == minus(close, low)
            &&& low_to_closes(bars)(i) == minus(low, close)
            &&& high_to_opens(bars)(i) == minus(high, open)
            &&& lower_wicks(bars)(i) == lower
            &&& shadows(bars)(i) == minus(range, body)
            &&& up_moves(bars)(i) == larger(minus(close, open), whole(0))
            &&& down_moves(bars)(i) == larger(minus(open, close), whole(0))
            &&& close_values(bars)(i) == times(close, volume)
            &&& open_values(bars)(i) == times(open, volume)
            &&& high_values(bars)(i) == times(high, volume)
            &&& body_midpoints(bars)(i) == over(plus(open, close), whole(2))
            &&& vwaps(bars)(i) == option_view(bars[i].vwap)
            &&& range_volumes(bars)(i) == times(range, volume)
        }),
{
}

/// What is a share of the range of a bar.
pub proof fn shares_are_parts_of_the_range(bars: Seq<OhlcvBar>, i: int)
    ensures
        ({
            let open = bars[i].open.val();
            let high = bars[i].high.val();
            let low = bars[i].low.val();
            let close = bars[i].close.val();
            let volume = bars[i].volume.val();
            let range = minus(high, low);
            let change = minus(close, open);
            let body = magnitude(minus(close, open));
            let top = larger(open, close);
            let upper = minus(high, larger(open, close));
            let lower = minus(smaller(open, close), low);
            let middle = over(plus(high, low), whole(2));
            &&& wick_shares(bars)(i) == over(plus(upper, lower), range)
            &&& body_shares(bars)(i) == over(body, range)
            &&& upper_wick_shares(bars)(i) == over(upper, range)
            &&& lower_wick_shares(bars)(i) == over(lower, range)
            &&& close_positions(bars)(i) == over(minus(close, low), range)
            &&& open_positions(bars)(i) == over(minus(open, low), range)
            &&& open_to_high_shares(bars)(i) == over(minus(high, open), range)
            &&& close_to_high_shares(bars)(i) == over(minus(high, close), range)
            &&& signed_body_shares(bars)(i) == over(change, range)
            &&& shadow_shares(bars)(i) == over(minus(range, body), range)
            &&& volumes_per_range(bars)(i) == over(volume, range)
            &&& midpoint_offsets(bars)(i) == over(minus(close, middle), range)
            &&& midpoint_leads(bars)(i) == over(minus(middle, open), range)
            &&& upper_body_shares(bars)(i) == over(larger(minus(top, middle), whole(0)), range)
            &&& wick_imbalances(bars)(i) == over(minus(upper, lower), range)
            &&& wick_asymmetries(bars)(i) == over(magnitude(minus(upper, lower)), range)
            &&& wick_balances(bars)(i) == minus(whole(1), over(magnitude(minus(upper, lower)), range))
            &&& body_slacks(bars)(i) == minus(whole(1), over(body, range))
            &&& close_locations(bars)(i) == over(minus(minus(close, low), minus(high, close)), range)
        }),
{
}

/// What is a ratio of two numbers of one bar, other than a share of its range.
pub proof fn ratios_are_taken_from_one_bar(bars: Seq<OhlcvBar>, i: int)
    ensures
        ({
            let open = bars[i].open.val();
            let high = bars[i].high.val();
            let low = bars[i].low.val();
            let close = bars[i].close.val();
            let volume = bars[i].volume.val();
            let range = minus(high, low);
            let change = minus(close, open);
            let body = magnitude(minus(close, open));
            let upper = minus(high, larger(open, close));
            let lower = minus(smaller(open, close), low);
            &&& bar_returns(bars)(i) == over(change, open)
            &&& percent_returns(bars)(i) == times(over(change, open), whole(100))
            &&& volumes_per_open(bars)(i) == over(volume, open)
            &&& ranges_per_open(bars)(i) == over(range, open)
            &&& bodies_per_open(bars)(i) == over(body, open)
            &&& high_to_open_returns(bars)(i) == over(minus(high, open), open)
            &&& high_low_ratios(bars)(i) == over(high, low)
            &&& high_low_excesses(bars)(i) == minus(over(high, low), whole(1))
            &&& wicks_per_body(bars)(i) == over(plus(upper, lower), body)
            &&& upper_wicks_per_body(bars)(i) == over(upper, body)
            &&& ranges_per_close(bars)(i) == over(range, close)
            &&& open_to_high_ratios(bars)(i) == over(minus(high, open), high)
            &&& bodies_per_volume(bars)(i) == over(body, volume)
            &&& ranges_per_volume(bars)(i) == over(range, volume)
            &&& wick_ratios(bars)(i) == over(upper, lower)
            &&& wick_symmetries(bars)(i) == over(smaller(upper, lower), larger(upper, lower))
        }),
{
}

/// What is a ratio, with another number in its place where the divisor is zero.
pub proof fn ratios_without_a_divisor_have_a_stand_in(bars: Seq<OhlcvBar>, i: int)
    ensures
        ({
            let open = bars[i].open.val();
            let high = bars[i].high.val();
            let low = bars[i].low.val();
            let close = bars[i].close.val();
            let range = minus(high, low);
            let body = magnitude(minus(close, open));
            let upper = minus(high, larger(open, close));
            let middle = over(plus(high, low), whole(2));
            let next_high = bars[i + 1].high.val();
            let next_low = bars[i + 1].low.val();
            let next_range = minus(next_high, next_low);
            &&& body_shares_or_zero(bars)(i) == over_or(body, range, whole(0))
            &&& close_positions_or_half(bars)(i) == over_or(minus(close, low), range, hundredths(50))
            &&& open_positions_or_half(bars)(i) == over_or(minus(open, low), range, hundredths(50))
            &&& upper_wick_shares_or_half(bars)(i) == over_or(upper, range, hundredths(50))
            &&& ranges_per_open_or_zero(bars)(i) == over_or(range, open, whole(0))
            &&& opens_per_midpoint_or_one(bars)(i) == over_or(open, middle, whole(1))
            &&& ranges_per_body_midpoint_or_zero(bars)(i) == over_or(range, over(plus(open, close), whole(2)), whole(0))
            &&& ranges_per_prior_close_or_zero(bars)(i) == over_or(next_range, close, whole(0))
        }),
{
}

/// What is read off a bar and the ones that follow it.
pub proof fn changes_are_from_bar_to_bar(bars: Seq<OhlcvBar>, i: int)
    ensures
        ({
            let open = bars[i].open.val();
            let high = bars[i].high.val();
            let low = bars[i].low.val();
            let close = bars[i].close.val();
            let volume = bars[i].volume.val();
            let range = minus(high, low);
            let middle = over(plus(high, low), whole(2));
            let next_open = bars[i + 1].open.val();
            let next_high = bars[i + 1].high.val();
            let next_low = bars[i + 1].low.val();
            let next_close = bars[i + 1].close.val();
            let next_volume = bars[i + 1].volume.val();
            let next_range = minus(next_high, next_low);
            let next_middle = over(plus(next_high, next_low), whole(2));
            let third_low = bars[i + 2].low.val();
            let third_close = bars[i + 2].close.val();
            &&& true_ranges(bars)(i) == larger(larger(next_range, magnitude(minus(next_high, close))), magnitude(minus(next_low, close)))
            &&& gaps(bars)(i) == minus(next_open, close)
            &&& gap_sizes(bars)(i) == magnitude(minus(next_open, close))
            &&& close_changes(bars)(i) == minus(next_close, close)
            &&& close_moves(bars)(i) == magnitude(minus(next_close, close))
            &&& close_to_prev_opens(bars)(i) == minus(next_close, open)
            &&& volume_moves(bars)(i) == magnitude(minus(next_volume, volume))
            &&& stop_distances(bars)(i) == minus(third_close, smaller(smaller(low, next_low), third_low))
            &&& relative_gaps(bars)(i) == over(minus(next_open, close), close)
            &&& relative_gap_sizes(bars)(i) == over(magnitude(minus(next_open, close)), close)
            &&& relative_high_moves(bars)(i) == over(minus(next_high, close), close)
            &&& relative_close_moves(bars)(i) == over(magnitude(minus(next_close, close)), close)
            &&& relative_close_changes(bars)(i) == over(minus(next_close, close), close)
            &&& volume_changes(bars)(i) == minus(next_volume, volume)
            &&& range_changes(bars)(i) == minus(next_range, range)
            &&& high_changes(bars)(i) == minus(next_high, high)
            &&& low_changes(bars)(i) == minus(next_low, low)
            &&& midpoint_changes(bars)(i) == minus(next_middle, middle)
            &&& close_accelerations(bars)(i) == plus(minus(third_close, times(next_close, whole(2))), close)
            &&& close_change_values(bars)(i) == times(minus(next_close, close), next_volume)
            &&& later_volumes(bars)(i) == next_volume
        }),
{
}

/// Which bars are of a kind, by the numbers of the bar.
pub proof fn bars_are_told_apart_by_their_prices(bars: Seq<OhlcvBar>, i: int)
    ensures
        ({
            let open = bars[i].open.val();
            let high = bars[i].high.val();
            let low = bars[i].low.val();
            let close = bars[i].close.val();
            let volume = bars[i].volume.val();
            let range = minus(high, low);
            let body = magnitude(minus(close, open));
            let upper = minus(high, larger(open, close));
            let lower = minus(smaller(open, close), low);
            &&& up_bars(bars)(i) == (close->0.units > open->0.units)
            &&& down_bars(bars)(i) == (close->0.units < open->0.units)
            &&& flat_bars(bars)(i) == (open->0.units == close->0.units)
            &&& complete_bars(bars)(i) == (bars[i].is_complete)
            &&& upper_wick_bars(bars)(i) == (upper->0.units > lower->0.units)
            &&& lower_wick_bars(bars)(i) == (lower->0.units > upper->0.units)
            &&& not_down_bars(bars)(i) == (close->0.units >= open->0.units)
            &&& vwap_bars(bars)(i) == (bars[i].vwap is Some)
            &&& ranged_bars(bars)(i) == (!is_nought(range))
            &&& upright_bars(bars)(i) == (high->0.units > low->0.units)
            &&& nonzero_opens(bars)(i) == (open->0.units != 0)
            &&& nonzero_highs(bars)(i) == (high->0.units != 0)
            &&& nonzero_lows(bars)(i) == (low->0.units != 0)
            &&& nonzero_closes(bars)(i) == (close->0.units != 0)
            &&& nonzero_volumes(bars)(i) == (volume->0.units != 0)
            &&& nonzero_bodies(bars)(i) == (!is_nought(body))
            &&& moving_bars(bars)(i) == (close->0.units != open->0.units)
            &&& two_wick_bars(bars)(i) == (!is_nought(upper) && !is_nought(lower))
            &&& wicked_bars(bars)(i) == (!is_nought(larger(upper, lower)))
            &&& nonzero_prior_closes(bars)(i) == (close->0.units != 0)
        }),
{
}

/// Which bars are of a kind, by the numbers of the bar and of those that follow it.
pub proof fn moves_are_told_by_adjacent_bars(bars: Seq<OhlcvBar>, i: int)
    ensures
        ({
            let high = bars[i].high.val();
            let low = bars[i].low.val();
            let close = bars[i].close.val();
            let volume = bars[i].volume.val();
            let next_open = bars[i + 1].open.val();
            let next_high = bars[i + 1].high.val();
            let next_low = bars[i + 1].low.val();
            let next_close = bars[i + 1].close.val();
            let next_volume = bars[i + 1].volume.val();
            let third_close = bars[i + 2].close.val();
            &&& rising_closes(bars)(i) == (next_close->0.units > close->0.units)
            &&& falling_closes(bars)(i) == (next_close->0.units < close->0.units)
            &&& gap_ups(bars)(i) == (next_open->0.units > close->0.units)
            &&& gap_downs(bars)(i) == (next_open->0.units < close->0.units)
            &&& any_gaps(bars)(i) == (next_open->0.units != close->0.units)
            &&& rising_highs(bars)(i) == (next_high->0.units > high->0.units)
            &&& falling_lows(bars)(i) == (next_low->0.units < low->0.units)
            &&& persisting_closes(bars)(i) == ((next_close->0.units > close->0.units && third_close->0.units > next_close->0.units) || (next_close->0.units < close->0.units && third_close->0.units < next_close->0.units))
            &&& reversing_closes(bars)(i) == ((next_close->0.units > close->0.units && third_close->0.units < next_close->0.units) || (next_close->0.units < close->0.units && third_close->0.units > next_close->0.units))
            &&& moving_closes(bars)(i) == (next_close->0.units != close->0.units && third_close->0.units != next_close->0.units)
            &&& falling_volumes(bars)(i) == (next_volume->0.units < volume->0.units)
        }),
{
}

/// What is read off a bar and a given number.
pub proof fn levels_are_compared_with(bars: Seq<OhlcvBar>, i: int, level: int, price: Num, given_volume: Num, length: Num)
    ensures
        ({
            let high = bars[i].high.val();
            let low = bars[i].low.val();
            let close = bars[i].close.val();
            let volume = bars[i].volume.val();
            let range = minus(high, low);
            &&& volume_above(bars, level)(i) == (volume->0.units > level)
            &&& close_above(bars, level)(i) == (close->0.units > level)
            &&& close_below(bars, level)(i) == (close->0.units < level)
            &&& range_above(bars, level)(i) == (range->0.units > level)
            &&& range_below(bars, level)(i) == (range->0.units < level)
            &&& close_deviations(bars, price)(i) == magnitude(minus(close, Some(price)))
            &&& volume_shares(bars, given_volume)(i) == over(volume, Some(given_volume))
            &&& range_deviations(bars, length)(i) == magnitude(minus(range, Some(length)))
            &&& vwap_deviations(bars, price)(i) == magnitude(minus(option_view(bars[i].vwap), Some(price)))
        }),
{
}

} // verus!
