//! Bar timeframes.

use crate::error::StreamError;
use crate::text;
use core::cmp::Ordering;
use vstd::prelude::*;
use vstd::string::*;

verus! {

/// Supported bar timeframes.
#[derive(Clone, Copy, Debug, PartialEq, Eq, Hash, Structural)]
pub enum Timeframe {
    /// Bar duration measured in seconds.
    Seconds(u64),
    /// Bar duration measured in minutes.
    Minutes(u64),
    /// Bar duration measured in hours.
    Hours(u64),
}

/// The greatest multiple of `dur` that is no later than the timestamp; the
/// timestamp itself where `dur` is zero.
pub open spec fn aligned(ts_ms: int, dur: int) -> int {
    if dur == 0 {
        ts_ms
    } else {
        ts_ms / dur * dur
    }
}

/// The text of the reason for an empty timeframe.
pub open spec fn empty_reason() -> Seq<char> {
    "timeframe string is empty"@
}

/// The text of the reason for a count that is no number.
pub open spec fn number_reason(count: Seq<char>, whole: Seq<char>) -> Seq<char> {
    "invalid timeframe numeric part '"@ + count + "' in '"@ + whole + "'"@
}

/// The text of the reason for a count of zero.
pub open spec fn zero_reason(whole: Seq<char>) -> Seq<char> {
    "timeframe value must be > 0, got '"@ + whole + "'"@
}

/// The text of the reason for a suffix that is no unit.
pub open spec fn suffix_reason(suffix: Seq<char>, whole: Seq<char>) -> Seq<char> {
    "unknown timeframe suffix '"@ + suffix + "' in '"@ + whole + "'; expected s, m, or h"@
}

/// The timeframe of `n` units with a suffix.
pub open spec fn with_suffix(n: u64, suffix: char) -> Option<Timeframe> {
    if suffix == 's' {
        Some(Timeframe::Seconds(n))
    } else if suffix == 'm' {
        Some(Timeframe::Minutes(n))
    } else if suffix == 'h' {
        Some(Timeframe::Hours(n))
    } else {
        None
    }
}

/// What reading a text without surrounding white space gives: the timeframe,
/// or the reason why the text is none.
pub open spec fn reading(s: Seq<char>) -> Result<Timeframe, Seq<char>> {
    if s.len() == 0 {
        Err(empty_reason())
    } else {
        match text::number_in(s.drop_last()) {
            None => Err(number_reason(s.drop_last(), s)),
            Some(n) => if n == 0 {
                Err(zero_reason(s))
            } else {
                match with_suffix(n as u64, s.last()) {
                    Some(tf) => Ok(tf),
                    None => Err(suffix_reason(seq![s.last()], s)),
                }
            },
        }
    }
}

impl Timeframe {
    /// Duration in milliseconds.
    pub open spec fn millis(self) -> int {
        match self {
            Timeframe::Seconds(s) => s * 1_000,
            Timeframe::Minutes(m) => m * 60_000,
            Timeframe::Hours(h) => h * 3_600_000,
        }
    }

    /// The count of units.
    pub open spec fn units(self) -> u64 {
        match self {
            Timeframe::Seconds(s) => s,
            Timeframe::Minutes(m) => m,
            Timeframe::Hours(h) => h,
        }
    }

    /// The count of units and the suffix of the unit.
    pub open spec fn text(self) -> Seq<char> {
        match self {
            Timeframe::Seconds(s) => text::digits(s as nat).push('s'),
            Timeframe::Minutes(m) => text::digits(m as nat).push('m'),
            Timeframe::Hours(h) => text::digits(h as nat).push('h'),
        }
    }

    /// Duration in milliseconds.
    pub fn duration_ms(self) -> (r: u64)
        requires
            self.millis() <= u64::MAX,
        ensures
            r == self.millis(),
    {
        match self {
            Timeframe::Seconds(s) => s * 1_000,
            Timeframe::Minutes(m) => m * 60 * 1_000,
            Timeframe::Hours(h) => h * 3600 * 1_000,
        }
    }

    /// Bar start timestamp for a given ms timestamp.
    ///
    /// A timeframe of zero length has a bar for every timestamp.
    pub fn bar_start_ms(self, ts_ms: u64) -> (r: u64)
        ensures
            r == aligned(ts_ms as int, self.millis()),
            self.millis() == 0 ==> r == ts_ms,
            self.millis() > 0 ==> r as int % self.millis() == 0,
            self.millis() > 0 ==> r <= ts_ms < r + self.millis(),
    {
        let dur: u128 = self.wide_duration_ms();
        if dur == 0 {
            return ts_ms;
        }
        proof {
            lemma_aligned(ts_ms as int, dur as int);
        }
        let ts: u128 = ts_ms as u128;
        ((ts / dur) * dur) as u64
    }

    /// Construct a `Timeframe` from a millisecond duration.
    ///
    /// Prefers the largest canonical unit that divides evenly:
    /// hours > minutes > seconds. Returns `None` if `ms` is zero or not a
    /// whole number of seconds.
    pub fn from_duration_ms(ms: u64) -> (r: Option<Timeframe>)
        ensures
            r is Some <==> ms > 0 && ms % 1_000 == 0,
            r is Some ==> r->0.millis() == ms,
            r is Some ==> (r->0 is Hours <==> ms % 3_600_000 == 0),
            r is Some ==> (r->0 is Seconds <==> ms % 60_000 != 0),
    {
        if ms == 0 {
            return None;
        }
        if ms % 3_600_000 == 0 {
            return Some(Timeframe::Hours(ms / 3_600_000));
        }
        if ms % 60_000 == 0 {
            return Some(Timeframe::Minutes(ms / 60_000));
        }
        if ms % 1_000 == 0 {
            return Some(Timeframe::Seconds(ms / 1_000));
        }
        None
    }

    /// Duration in milliseconds, whatever the count of units.
    fn wide_duration_ms(self) -> (r: u128)
        ensures
            r == self.millis(),
    {
        match self {
            Timeframe::Seconds(s) => s as u128 * 1_000,
            Timeframe::Minutes(m) => m as u128 * 60_000,
            Timeframe::Hours(h) => h as u128 * 3_600_000,
        }
    }

    /// Compares timeframes by their duration in milliseconds.
    ///
    /// For example: `Seconds(30) < Minutes(1) < Hours(1)`.
    pub fn cmp(&self, other: &Timeframe) -> (r: Ordering)
        ensures
            r == (if self.millis() < other.millis() {
                Ordering::Less
            } else if self.millis() > other.millis() {
                Ordering::Greater
            } else {
                Ordering::Equal
            }),
    {
        let a: u128 = self.wide_duration_ms();
        let b: u128 = other.wide_duration_ms();
        if a < b {
            Ordering::Less
        } else if a > b {
            Ordering::Greater
        } else {
            Ordering::Equal
        }
    }

    /// The count of units followed by the suffix of the unit: `"30s"`, `"5m"`,
    /// `"4h"`.
    pub fn to_string(&self) -> (r: String)
        ensures
            r@ == self.text(),
    {
        proof {
            reveal_strlit("s");
            reveal_strlit("m");
            reveal_strlit("h");
        }
        let (n, suffix): (u64, &str) = match self {
            Timeframe::Seconds(s) => (*s, "s"),
            Timeframe::Minutes(m) => (*m, "m"),
            Timeframe::Hours(h) => (*h, "h"),
        };
        let mut r = text::number_text(n as u128);
        r.append(suffix);
        assert(r@ =~= self.text());
        r
    }

    /// Parse a timeframe string such as `"1s"`, `"5m"`, or `"2h"`.
    ///
    /// The format is a positive integer followed by a unit suffix:
    /// - `s` — seconds (e.g. `"30s"`)
    /// - `m` — minutes (e.g. `"5m"`)
    /// - `h` — hours   (e.g. `"1h"`)
    ///
    /// White space around it is ignored.
    ///
    /// # Errors
    ///
    /// Returns [`StreamError::ConfigError`] if the string is empty, has an
    /// unknown suffix, or if the numeric part is zero or cannot be parsed.
    pub fn parse(s: &str) -> (r: Result<Timeframe, StreamError>)
        ensures
            match reading(text::trimmed(s@)) {
                Ok(tf) => r == Ok::<Timeframe, StreamError>(tf),
                Err(why) => r matches Err(StreamError::ConfigError { reason }) && reason@ == why,
            },
    {
        let s = text::trim(s);
        let len: usize = s.unicode_len();
        if len == 0 {
            return Err(
                StreamError::ConfigError { reason: String::from_str("timeframe string is empty") },
            );
        }
        let digits = s.substring_char(0, len - 1);
        assert(digits@ =~= s@.drop_last());
        let n: u64 = match text::parse_number(digits) {
            Some(n) => n,
            None => {
                let mut reason = String::from_str("invalid timeframe numeric part '");
                reason.append(digits);
                reason.append("' in '");
                reason.append(s);
                reason.append("'");
                return Err(StreamError::ConfigError { reason });
            },
        };
        if n == 0 {
            let mut reason = String::from_str("timeframe value must be > 0, got '");
            reason.append(s);
            reason.append("'");
            return Err(StreamError::ConfigError { reason });
        }
        match s.get_char(len - 1) {
            's' => Ok(Timeframe::Seconds(n)),
            'm' => Ok(Timeframe::Minutes(n)),
            'h' => Ok(Timeframe::Hours(n)),
            _ => {
                let other = s.substring_char(len - 1, len);
                assert(other@ =~= seq![s@.last()]);
                let mut reason = String::from_str("unknown timeframe suffix '");
                reason.append(other);
                reason.append("' in '");
                reason.append(s);
                reason.append("'; expected s, m, or h");
                Err(StreamError::ConfigError { reason })
            },
        }
    }
}

impl core::str::FromStr for Timeframe {
    type Err = StreamError;

    /// See [`Timeframe::parse`].
    fn from_str(s: &str) -> (r: Result<Timeframe, StreamError>)
        ensures
            match reading(text::trimmed(s@)) {
                Ok(tf) => r == Ok::<Timeframe, StreamError>(tf),
                Err(why) => r matches Err(StreamError::ConfigError { reason }) && reason@ == why,
            },
    {
        Timeframe::parse(s)
    }
}

impl PartialOrd for Timeframe {
    fn partial_cmp(&self, other: &Timeframe) -> (r: Option<Ordering>) {
        Some(self.cmp(other))
    }
}

impl vstd::std_specs::cmp::PartialOrdSpecImpl for Timeframe {
    open spec fn obeys_partial_cmp_spec() -> bool {
        true
    }

    open spec fn partial_cmp_spec(&self, other: &Timeframe) -> Option<Ordering> {
        if self.millis() < other.millis() {
            Some(Ordering::Less)
        } else if self.millis() > other.millis() {
            Some(Ordering::Greater)
        } else {
            Some(Ordering::Equal)
        }
    }
}

pub(crate) proof fn lemma_aligned(ts: int, dur: int)
    requires
        ts >= 0,
        dur > 0,
    ensures
        0 <= aligned(ts, dur) <= ts < aligned(ts, dur) + dur,
        aligned(ts, dur) % dur == 0,
{
    vstd::arithmetic::div_mod::lemma_fundamental_div_mod(ts, dur);
    vstd::arithmetic::div_mod::lemma_mod_multiples_basic(ts / dur, dur);
    assert(dur * (ts / dur) == ts / dur * dur) by (nonlinear_arith);
    assert(ts / dur * dur >= 0) by (nonlinear_arith)
        requires
            ts >= 0,
            dur > 0,
    ;
}

/// A timeframe that is written out and read back is the same timeframe; one that
/// lasts no time is refused.
pub proof fn written_timeframe_is_read_back(tf: Timeframe)
    ensures
        reading(text::trimmed(tf.text())) == (if tf.units() > 0 {
            Ok::<Timeframe, Seq<char>>(tf)
        } else {
            Err(zero_reason(tf.text()))
        }),
{
    let n = tf.units();
    let s = tf.text();
    text::lemma_digits(n as nat);
    text::written_number_is_read_back(n);
    assert(s.drop_last() =~= text::digits(n as nat));
    assert(text::is_digit(text::digits(n as nat)[0]));
    assert(text::trimmed_start(s) == s);
    assert(text::trimmed_end(s) == s);
}

/// Timestamps in one bar window have one bar start, and it is the start of the
/// window itself.
pub proof fn window_has_one_start(tf: Timeframe, start: u64, ts: u64)
    requires
        tf.millis() > 0,
        aligned(start as int, tf.millis()) == start,
        start <= ts < start + tf.millis(),
    ensures
        aligned(ts as int, tf.millis()) == start,
{
    let d = tf.millis();
    vstd::arithmetic::div_mod::lemma_fundamental_div_mod_converse(
        ts as int,
        d,
        start as int / d,
        ts - start,
    );
}

/// The duration of a timeframe is a whole number of seconds, so that a timeframe
/// of that duration can be made from it.
pub proof fn duration_is_in_whole_seconds(tf: Timeframe)
    ensures
        tf.millis() % 1_000 == 0,
        tf.units() > 0 ==> tf.millis() > 0,
{
}

} // verus!
