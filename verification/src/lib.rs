//! Bars from ticks, what can be read off bars, and a simulated order book.
//!
//! - [`aggregator`] turns a stream of ticks into bars of one [`timeframe`].
//! - [`bar`] describes one bar, and [`bars`] a run of bars: totals, counts,
//!   averages, extremes, trends, deviations and patterns.
//! - [`order_book`] matches limit and market orders by price and time.
//! - [`decimal`] holds the numbers that all but the order book are made of, and
//!   [`series`] and [`moments`] what is done to lists of them. Moments are exact
//!   sums of whole numbers of any size ([`natural`]), and what is read off them has
//!   28 digits wherever the decimal point stands ([`scientific`]).
//!
//! The modules named after laws prove what holds across functions, and
//! [`bars::readings`] what each series of a run of bars reads off the bars.

pub mod aggregator;
pub mod aggregator_laws;
pub mod bar;
pub mod bar_laws;
pub mod bars;
pub mod decimal;
pub mod decimal_laws;
pub mod error;
pub mod fraction;
pub mod moment_laws;
pub mod moments;
pub mod natural;
pub mod order_book;
pub mod order_book_laws;
pub mod reading_laws;
pub mod scientific;
pub mod series;
pub mod series_laws;
pub mod statistics_laws;
pub mod stream_laws;
pub mod text;
pub mod tick;
pub mod timeframe;
pub mod trading_laws;
