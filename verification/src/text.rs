//! Reading and writing of numbers and white space in text.

use vstd::prelude::*;
use vstd::string::*;

verus! {

/// The decimal digit of a number below ten.
pub open spec fn digit_char(d: int) -> char {
    (48 + d) as char
}

/// Whether a character is a decimal digit, `0` to `9`.
pub open spec fn is_digit(c: char) -> bool {
    '0' <= c <= '9'
}

/// What a decimal digit stands for.
pub open spec fn digit_value(c: char) -> int {
    c as int - 48
}

/// A number in decimal, without leading zeros.
pub open spec fn digits(n: nat) -> Seq<char>
    decreases n,
{
    if n < 10 {
        seq![digit_char(n as int)]
    } else {
        digits(n / 10).push(digit_char((n % 10) as int))
    }
}

/// The last `width` decimal digits of a number, with leading zeros.
pub open spec fn padded(n: nat, width: nat) -> Seq<char>
    decreases width,
{
    if width == 0 {
        Seq::empty()
    } else {
        padded(n / 10, (width - 1) as nat).push(digit_char((n % 10) as int))
    }
}

/// The number that a sequence of decimal digits stands for.
pub open spec fn digits_value(s: Seq<char>) -> int
    decreases s.len(),
{
    if s.len() == 0 {
        0
    } else {
        digits_value(s.drop_last()) * 10 + digit_value(s.last())
    }
}

/// Whether every character is a decimal digit.
pub open spec fn all_digits(s: Seq<char>) -> bool {
    forall|i: int| 0 <= i < s.len() ==> is_digit(#[trigger] s[i])
}

/// The text without a leading plus sign.
pub open spec fn unsigned_part(s: Seq<char>) -> Seq<char> {
    if s.len() > 0 && s[0] == '+' {
        s.skip(1)
    } else {
        s
    }
}

/// The `u64` that a text stands for: decimal digits, at least one, after an
/// optional plus sign. `None` for any other text and for a number that does
/// not fit.
pub open spec fn number_in(s: Seq<char>) -> Option<int> {
    let t = unsigned_part(s);
    if t.len() > 0 && all_digits(t) && digits_value(t) <= u64::MAX {
        Some(digits_value(t))
    } else {
        None
    }
}

/// The characters with the Unicode property `White_Space`.
pub open spec fn is_white_space(c: char) -> bool {
    let n = c as int;
    ||| 0x9 <= n <= 0xd
    ||| n == 0x20
    ||| n == 0x85
    ||| n == 0xa0
    ||| n == 0x1680
    ||| 0x2000 <= n <= 0x200a
    ||| n == 0x2028
    ||| n == 0x2029
    ||| n == 0x202f
    ||| n == 0x205f
    ||| n == 0x3000
}

/// The text without white space at its start.
pub open spec fn trimmed_start(s: Seq<char>) -> Seq<char>
    decreases s.len(),
{
    if s.len() > 0 && is_white_space(s[0]) {
        trimmed_start(s.skip(1))
    } else {
        s
    }
}

/// The text without white space at its end.
pub open spec fn trimmed_end(s: Seq<char>) -> Seq<char>
    decreases s.len(),
{
    if s.len() > 0 && is_white_space(s.last()) {
        trimmed_end(s.drop_last())
    } else {
        s
    }
}

/// The text without white space at either end.
pub open spec fn trimmed(s: Seq<char>) -> Seq<char> {
    trimmed_end(trimmed_start(s))
}

fn white_space(c: char) -> (r: bool)
    ensures
        r == is_white_space(c),
{
    let n: u32 = c as u32;
    (0x9 <= n && n <= 0xd) || n == 0x20 || n == 0x85 || n == 0xa0 || n == 0x1680 || (0x2000 <= n
        && n <= 0x200a) || n == 0x2028 || n == 0x2029 || n == 0x202f || n == 0x205f || n == 0x3000
}

/// The text without white space at either end.
pub fn trim(s: &str) -> (r: &str)
    ensures
        r@ == trimmed(s@),
{
    let len: usize = s.unicode_len();
    let mut start: usize = 0;
    assert(s@.skip(0) =~= s@);
    while start < len && white_space(s.get_char(start))
        invariant
            start <= len,
            len == s@.len(),
            trimmed_start(s@) == trimmed_start(s@.skip(start as int)),
        decreases len - start,
    {
        assert(s@.skip(start as int).skip(1) =~= s@.skip(start + 1));
        start += 1;
    }
    let ghost rest = s@.skip(start as int);
    let mut end: usize = len;
    assert(s@.subrange(start as int, end as int) =~= rest);
    assert(trimmed_start(rest) == rest);
    while start < end && white_space(s.get_char(end - 1))
        invariant
            start <= end <= len,
            len == s@.len(),
            trimmed_end(rest) == trimmed_end(s@.subrange(start as int, end as int)),
        decreases end - start,
    {
        assert(s@.subrange(start as int, end as int).drop_last() =~= s@.subrange(
            start as int,
            end - 1,
        ));
        end -= 1;
    }
    s.substring_char(start, end)
}

/// The number that a text stands for.
pub fn parse_number(s: &str) -> (r: Option<u64>)
    ensures
        match r {
            Some(n) => number_in(s@) == Some(n as int),
            None => number_in(s@) is None,
        },
{
    let len: usize = s.unicode_len();
    let start: usize = if len > 0 && s.get_char(0) == '+' {
        1
    } else {
        0
    };
    let ghost t = unsigned_part(s@);
    assert(t =~= s@.skip(start as int));
    if start == len {
        return None;
    }
    let mut value: u64 = 0;
    let mut i: usize = start;
    while i < len
        invariant
            start <= i <= len,
            len == s@.len(),
            t == s@.skip(start as int),
            t == unsigned_part(s@),
            all_digits(t.take(i - start)),
            value == digits_value(t.take(i - start)),
        decreases len - i,
    {
        let c = s.get_char(i);
        assert(t[i - start] == c);
        if !('0' <= c && c <= '9') {
            return None;
        }
        let d: u64 = (c as u32 - 48) as u64;
        assert(t.take(i + 1 - start).drop_last() =~= t.take(i - start));
        assert(all_digits(t.take(i + 1 - start))) by {
            assert forall|j: int| 0 <= j < i + 1 - start implies is_digit(
                #[trigger] t.take(i + 1 - start)[j],
            ) by {
                if j < i - start {
                    assert(t.take(i - start)[j] == t[j]);
                }
            }
        }
        proof {
            if all_digits(t) {
                lemma_prefix_value(t, i + 1 - start);
            }
        }
        if value > (u64::MAX - d) / 10 {
            return None;
        }
        value = value * 10 + d;
        i += 1;
    }
    assert(t.take(i - start) =~= t);
    Some(value)
}

/// A prefix of a number is no greater than the number.
proof fn lemma_prefix_value(t: Seq<char>, n: int)
    requires
        0 <= n <= t.len(),
        all_digits(t),
    ensures
        0 <= digits_value(t.take(n)) <= digits_value(t),
    decreases t.len(),
{
    if n == t.len() {
        assert(t.take(n) =~= t);
        if n > 0 {
            lemma_prefix_value(t.drop_last(), n - 1);
            assert(is_digit(t.last()));
        }
    } else {
        lemma_prefix_value(t.drop_last(), n);
        assert(t.drop_last().take(n) =~= t.take(n));
        assert(is_digit(t.last()));
    }
}

fn digit_text(d: u128) -> (r: &'static str)
    requires
        d < 10,
    ensures
        r@ == seq![digit_char(d as int)],
{
    proof {
        reveal_strlit("0");
        reveal_strlit("1");
        reveal_strlit("2");
        reveal_strlit("3");
        reveal_strlit("4");
        reveal_strlit("5");
        reveal_strlit("6");
        reveal_strlit("7");
        reveal_strlit("8");
        reveal_strlit("9");
    }
    match d {
        0 => "0",
        1 => "1",
        2 => "2",
        3 => "3",
        4 => "4",
        5 => "5",
        6 => "6",
        7 => "7",
        8 => "8",
        _ => "9",
    }
}

/// A number in decimal.
pub fn number_text(n: u128) -> (r: String)
    ensures
        r@ == digits(n as nat),
    decreases n,
{
    if n < 10 {
        String::from_str(digit_text(n))
    } else {
        let mut s = number_text(n / 10);
        s.append(digit_text(n % 10));
        assert(s@ =~= digits(n as nat));
        s
    }
}

/// The last `width` decimal digits of a number, with leading zeros.
pub fn padded_text(n: u128, width: u32) -> (r: String)
    ensures
        r@ == padded(n as nat, width as nat),
    decreases width,
{
    if width == 0 {
        String::new()
    } else {
        let mut s = padded_text(n / 10, width - 1);
        s.append(digit_text(n % 10));
        assert(s@ =~= padded(n as nat, width as nat));
        s
    }
}

/// Writing a number in decimal and reading it back gives the number.
pub proof fn written_number_is_read_back(n: u64)
    ensures
        number_in(digits(n as nat)) == Some(n as int),
{
    lemma_digits(n as nat);
    let s = digits(n as nat);
    assert(is_digit(s[0]));
    assert(unsigned_part(s) == s);
}

pub(crate) proof fn lemma_digits(n: nat)
    ensures
        digits(n).len() > 0,
        all_digits(digits(n)),
        digits_value(digits(n)) == n,
    decreases n,
{
    reveal_with_fuel(digits_value, 2);
    if n < 10 {
        assert(digits(n).drop_last() =~= Seq::<char>::empty());
    } else {
        lemma_digits(n / 10);
        assert(digits(n).drop_last() =~= digits(n / 10));
    }
}

} // verus!
