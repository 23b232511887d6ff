//! What texts stand for: numbers, timeframes and decimals.

use crate::bar::OhlcvBar;
use crate::decimal::{decimal_text, lemma_pow10_positive, pow10};
use crate::text::{
    all_digits, digit_value, digits, digits_value, is_digit, is_white_space, lemma_digits,
    number_in, padded, trimmed, trimmed_end, trimmed_start, unsigned_part,
};
use crate::timeframe::{reading, Timeframe};
use std::cmp::Ordering;
use vstd::prelude::*;
use vstd::std_specs::cmp::PartialOrdSpec;

verus! {

/// A number is read digit by digit: a digit alone is its value, and one more digit at
/// the end multiplies what was read by ten and adds its own value, as long as the
/// result fits. The digits from `0` to `9` follow one another.
pub proof fn number_is_read_digit_by_digit(s: Seq<char>, c: char)
    requires
        '0' <= c <= '9',
    ensures
        number_in(seq![c]) == Some(c as int - '0' as int),
        number_in(s) is Some ==> number_in(s.push(c)) == (if number_in(s)->0 * 10 + (c as int
            - '0' as int) <= u64::MAX {
            Some(number_in(s)->0 * 10 + (c as int - '0' as int))
        } else {
            None
        }),
{
    let one = seq![c];
    assert(one.drop_last() =~= Seq::<char>::empty());
    reveal_with_fuel(digits_value, 2);
    assert(one.last() == c);
    assert(unsigned_part(one) == one);
    if number_in(s) is Some {
        let t = unsigned_part(s);
        let all = s.push(c);
        if s[0] == '+' {
            assert(unsigned_part(all) =~= t.push(c));
        } else {
            assert(unsigned_part(all) =~= t.push(c));
        }
        assert(t.push(c).drop_last() =~= t);
        assert forall|i: int| 0 <= i < t.push(c).len() implies is_digit(#[trigger] t.push(c)[i]) by {
            if i < t.len() {
                assert(is_digit(t[i]));
            }
        }
    }
}

/// A text with anything but digits, other than a plus sign in front, is no number, nor
/// is one without digits.
pub proof fn other_text_is_no_number(s: Seq<char>, i: int)
    requires
        0 <= i < s.len(),
        !('0' <= s[i] <= '9'),
    ensures
        i > 0 || s[0] != '+' || s.len() == 1 ==> number_in(s) is None,
        number_in(Seq::<char>::empty()) is None,
{
    let t = unsigned_part(s);
    if s[0] == '+' {
        if i > 0 {
            assert(t[i - 1] == s[i]);
        }
    } else {
        assert(t[i] == s[i]);
    }
}

/// A timeframe is written as a count above zero and a unit: `s`, `m` or `h`. With any
/// other unit, without a count, or with a count of zero, a text is no timeframe, and the
/// reason quotes what is wrong.
pub proof fn timeframe_is_a_count_and_a_unit(count: Seq<char>, c: char)
    ensures
        ({
            let s = count.push(c);
            let r = reading(s);
            match number_in(count) {
                Some(n) => if n <= 0 {
                    r == Err::<Timeframe, Seq<char>>(
                        "timeframe value must be > 0, got '"@ + s + "'"@,
                    )
                } else if c == 's' {
                    r == Ok::<Timeframe, Seq<char>>(Timeframe::Seconds(n as u64))
                } else if c == 'm' {
                    r == Ok::<Timeframe, Seq<char>>(Timeframe::Minutes(n as u64))
                } else if c == 'h' {
                    r == Ok::<Timeframe, Seq<char>>(Timeframe::Hours(n as u64))
                } else {
                    r == Err::<Timeframe, Seq<char>>(
                        "unknown timeframe suffix '"@ + seq![c] + "' in '"@ + s
                            + "'; expected s, m, or h"@,
                    )
                },
                None => r == Err::<Timeframe, Seq<char>>(
                    "invalid timeframe numeric part '"@ + count + "' in '"@ + s + "'"@,
                ),
            }
        }),
        reading(Seq::<char>::empty()) == Err::<Timeframe, Seq<char>>(
            "timeframe string is empty"@,
        ),
{
    let s = count.push(c);
    assert(s.drop_last() =~= count);
    assert(s.last() == c);
    if number_in(count) is Some {
        lemma_value(unsigned_part(count));
    }
}

proof fn lemma_value(s: Seq<char>)
    requires
        all_digits(s),
    ensures
        digits_value(s) >= 0,
    decreases s.len(),
{
    if s.len() > 0 {
        assert forall|i: int| 0 <= i < s.drop_last().len() implies is_digit(
            #[trigger] s.drop_last()[i],
        ) by {
            assert(is_digit(s[i]));
        }
        lemma_value(s.drop_last());
        assert(is_digit(s[s.len() - 1]));
    }
}

/// Trimming takes white space off both ends of a text and nothing else.
pub proof fn trimming_takes_white_space_off_the_ends(s: Seq<char>)
    ensures
        exists|i: int, j: int|
            {
                &&& 0 <= i <= j <= s.len()
                &&& trimmed(s) == #[trigger] s.subrange(i, j)
                &&& forall|k: int| 0 <= k < i ==> is_white_space(#[trigger] s[k])
                &&& forall|k: int| j <= k < s.len() ==> is_white_space(#[trigger] s[k])
                &&& i < j ==> !is_white_space(s[i]) && !is_white_space(s[j - 1])
            },
{
    let i = lemma_start(s);
    let rest = s.skip(i);
    let n = lemma_end(rest);
    assert(trimmed(s) =~= s.subrange(i, i + n));
    assert forall|k: int| i + n <= k < s.len() implies is_white_space(#[trigger] s[k]) by {
        assert(rest[k - i] == s[k]);
    }
    if n > 0 {
        assert(rest[0] == s[i]);
        assert(rest[n - 1] == s[i + n - 1]);
    }
}

proof fn lemma_start(s: Seq<char>) -> (i: int)
    ensures
        0 <= i <= s.len(),
        trimmed_start(s) == s.skip(i),
        forall|k: int| 0 <= k < i ==> is_white_space(#[trigger] s[k]),
        i < s.len() ==> !is_white_space(s[i]),
    decreases s.len(),
{
    if s.len() > 0 && is_white_space(s[0]) {
        let tail = s.skip(1);
        let i = lemma_start(tail);
        assert(tail.skip(i) =~= s.skip(i + 1));
        assert forall|k: int| 0 <= k < i + 1 implies is_white_space(#[trigger] s[k]) by {
            if k > 0 {
                assert(tail[k - 1] == s[k]);
            }
        }
        if i < tail.len() {
            assert(tail[i] == s[i + 1]);
        }
        i + 1
    } else {
        assert(s.skip(0) =~= s);
        0
    }
}

proof fn lemma_end(s: Seq<char>) -> (n: int)
    ensures
        0 <= n <= s.len(),
        trimmed_end(s) == s.take(n),
        forall|k: int| n <= k < s.len() ==> is_white_space(#[trigger] s[k]),
        n > 0 ==> !is_white_space(s[n - 1]),
    decreases s.len(),
{
    if s.len() > 0 && is_white_space(s.last()) {
        let front = s.drop_last();
        let n = lemma_end(front);
        assert(front.take(n) =~= s.take(n));
        assert forall|k: int| n <= k < s.len() implies is_white_space(#[trigger] s[k]) by {
            if k < front.len() {
                assert(front[k] == s[k]);
            }
        }
        n
    } else {
        assert(s.take(s.len() as int) =~= s);
        s.len() as int
    }
}

/// Whether a text, read without its point, is a number, and the point stands so many
/// digits before the end.
pub open spec fn is_written_as(t: Seq<char>, number: int, places: nat) -> bool {
    if places == 0 {
        t.len() > 0 && all_digits(t) && digits_value(t) == number
    } else {
        let point = t.len() - 1 - places;
        &&& point > 0
        &&& t[point] == '.'
        &&& all_digits(t.remove(point))
        &&& digits_value(t.remove(point)) == number
    }
}

/// A decimal is written with a minus sign where it is negative, and with its point so
/// many digits before the end as it has places; without sign and point the text is its
/// mantissa.
pub proof fn decimal_is_written_with_its_places(mantissa: int, places: nat)
    ensures
        mantissa >= 0 ==> is_written_as(decimal_text(mantissa, places), mantissa, places),
        mantissa < 0 ==> decimal_text(mantissa, places).len() > 0 && decimal_text(
            mantissa,
            places,
        )[0] == '-' && is_written_as(
            decimal_text(mantissa, places).skip(1),
            -mantissa,
            places,
        ),
{
    let m = if mantissa < 0 {
        -mantissa
    } else {
        mantissa
    };
    reveal_strlit("-");
    reveal_strlit(".");
    let p = pow10(places);
    lemma_pow10_positive(places);
    vstd::arithmetic::div_mod::lemma_fundamental_div_mod(m, p);
    vstd::arithmetic::div_mod::lemma_mod_bound(m, p);
    assert(m / p >= 0) by (nonlinear_arith)
        requires
            m >= 0,
            p > 0,
    ;
    let front = digits((m / p) as nat);
    let back = padded((m % p) as nat, places);
    lemma_digits((m / p) as nat);
    lemma_padded((m % p) as nat, places);
    let t = if places == 0 {
        front
    } else {
        front + "."@ + back
    };
    let whole = decimal_text(mantissa, places);
    if mantissa < 0 {
        assert(whole.skip(1) =~= t);
    } else {
        assert(whole =~= t);
    }
    if places == 0 {
        assert(p == 1);
        assert(m / p == m) by (nonlinear_arith)
            requires
                p == 1,
        ;
    } else {
        let point = t.len() - 1 - places;
        assert(t.remove(point) =~= front + back);
        lemma_joined(front, back);
        assert(digits_value(front + back) == m) by (nonlinear_arith)
            requires
                digits_value(front + back) == (m / p) * p + m % p,
                m == p * (m / p) + m % p,
        ;
    }
}

proof fn lemma_padded(n: nat, width: nat)
    requires
        n < pow10(width),
    ensures
        padded(n, width).len() == width,
        all_digits(padded(n, width)),
        digits_value(padded(n, width)) == n,
    decreases width,
{
    if width > 0 {
        assert(pow10(width) == 10 * pow10((width - 1) as nat));
        lemma_padded(n / 10, (width - 1) as nat);
        assert(padded(n, width).drop_last() =~= padded(n / 10, (width - 1) as nat));
    }
}

proof fn lemma_joined(a: Seq<char>, b: Seq<char>)
    requires
        all_digits(a),
        all_digits(b),
    ensures
        all_digits(a + b),
        digits_value(a + b) == digits_value(a) * pow10(b.len()) + digits_value(b),
    decreases b.len(),
{
    if b.len() == 0 {
        assert(a + b =~= a);
        assert(digits_value(a) * 1 == digits_value(a));
    } else {
        let rest = b.drop_last();
        assert forall|i: int| 0 <= i < rest.len() implies is_digit(#[trigger] rest[i]) by {
            assert(is_digit(b[i]));
        }
        lemma_joined(a, rest);
        assert((a + b).drop_last() =~= a + rest);
        assert((a + b).last() == b.last());
        assert forall|i: int| 0 <= i < (a + b).len() implies is_digit(#[trigger] (a + b)[i]) by {
            if i < a.len() {
                assert(is_digit(a[i]));
            } else {
                assert(is_digit(b[i - a.len()]));
            }
        }
        let (x, y, p) = (digits_value(a), digits_value(rest), pow10(rest.len()));
        assert((x * p + y) * 10 == x * (10 * p) + y * 10) by (nonlinear_arith);
        assert(pow10(b.len()) == 10 * p);
        assert(digit_value(b.last()) == b.last() as int - 48);
    }
}

/// Timeframes are ordered by their lengths.
pub proof fn timeframes_are_ordered_by_their_lengths(a: Timeframe, b: Timeframe)
    ensures
        a.partial_cmp_spec(&b) == Some(Ordering::Less) <==> a.millis() < b.millis(),
        a.partial_cmp_spec(&b) == Some(Ordering::Equal) <==> a.millis() == b.millis(),
        a.partial_cmp_spec(&b) == Some(Ordering::Greater) <==> a.millis() > b.millis(),
{
}

/// A bar is written with its symbol, its timeframe, its four prices and its volume.
pub proof fn bar_is_written_with_its_prices(b: OhlcvBar)
    ensures
        b.text() == b.symbol@ + " "@ + b.timeframe.text() + " ["@ + b.open.text() + "/"@
            + b.high.text() + "/"@ + b.low.text() + "/"@ + b.close.text() + "  v="@
            + b.volume.text() + "]"@,
        b.timeframe matches Timeframe::Seconds(n) ==> b.timeframe.text() == digits(n as nat).push(
            's',
        ),
        b.timeframe matches Timeframe::Minutes(n) ==> b.timeframe.text() == digits(n as nat).push(
            'm',
        ),
        b.timeframe matches Timeframe::Hours(n) ==> b.timeframe.text() == digits(n as nat).push(
            'h',
        ),
{
}

} // verus!
