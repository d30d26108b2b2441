//! Whole numbers in decimal notation.
use vstd::prelude::*;

use crate::text::chars_of;

verus! {

/// The character of a decimal digit.
pub open spec fn digit_char(d: nat) -> char {
    ('0' as u8 + d) as char
}

/// A natural number in decimal notation, without leading zeros.
pub open spec fn digits(n: nat) -> Seq<char>
    decreases n,
{
    if n < 10 {
        seq![digit_char(n)]
    } else {
        digits(n / 10).push(digit_char(n % 10))
    }
}

/// A whole number in decimal notation, with a minus sign where it is negative.
pub open spec fn int_text(n: int) -> Seq<char> {
    if n < 0 {
        seq!['-'] + digits((-n) as nat)
    } else {
        digits(n as nat)
    }
}

/// Whether `c` is an ASCII digit.
pub open spec fn is_digit(c: char) -> bool {
    '0' <= c <= '9'
}

/// Whether `s` consists of ASCII digits, at least one.
pub open spec fn all_digits(s: Seq<char>) -> bool {
    s.len() > 0 && forall|i: int| 0 <= i < s.len() ==> is_digit(#[trigger] s[i])
}

/// The number that a run of digits denotes.
pub open spec fn digits_value(s: Seq<char>) -> int
    decreases s.len(),
{
    if s.len() == 0 {
        0
    } else {
        digits_value(s.drop_last()) * 10 + (s.last() as u32 - '0' as u32)
    }
}

/// The number that `s` denotes, an optional sign and then digits, where it fits in 64 bits.
pub open spec fn read_i64(s: Seq<char>) -> Option<i64> {
    let negative = s.len() > 0 && s[0] == '-';
    let body = if s.len() > 0 && (s[0] == '-' || s[0] == '+') {
        s.drop_first()
    } else {
        s
    };
    let value = if negative {
        -digits_value(body)
    } else {
        digits_value(body)
    };
    if all_digits(body) && i64::MIN <= value <= i64::MAX {
        Some(value as i64)
    } else {
        None
    }
}

/// A number in decimal notation.
pub fn unsigned_text(n: u64) -> (r: String)
    ensures
        r@ == digits(n as nat),
    decreases n,
{
    let mut out = if n < 10 {
        String::new()
    } else {
        unsigned_text(n / 10)
    };
    out.push((48 + (n % 10) as u8) as char);
    out
}

/// A number in decimal notation, with a minus sign where it is negative.
pub fn signed_text(n: i64) -> (r: String)
    ensures
        r@ == int_text(n as int),
{
    if n < 0 {
        let mut out = String::new();
        out.push('-');
        let magnitude: u64 = (-(n + 1)) as u64 + 1;
        out.append(unsigned_text(magnitude).as_str());
        out
    } else {
        unsigned_text(n as u64)
    }
}

proof fn lemma_value_at_least(s: Seq<char>, n: int)
    requires
        all_digits(s),
        0 <= n <= s.len(),
    ensures
        digits_value(s) >= digits_value(s.take(n)) >= 0,
    decreases s.len(), n,
{
    if n < s.len() {
        if s.len() > 1 {
            assert forall|i: int| 0 <= i < s.drop_last().len() implies is_digit(
                #[trigger] s.drop_last()[i],
            ) by {
                assert(is_digit(s[i]));
            }
            lemma_value_at_least(s.drop_last(), n);
        }
        assert(s.drop_last().take(n) == s.take(n));
        assert(is_digit(s[s.len() - 1]));
        assert(n == 0 ==> digits_value(s.take(0)) == 0);
        if s.len() == 1 {
            assert(s.drop_last().len() == 0);
        }
    } else {
        assert(s.take(n) == s);
        if n > 0 {
            lemma_value_at_least(s, n - 1);
        }
    }
}

/// The number that the string denotes, an optional sign and then digits, where it fits in 64 bits.
pub fn parse_i64(s: &str) -> (r: Option<i64>)
    ensures
        r == read_i64(s@),
{
    let chars = chars_of(s);
    let signed: bool = chars.len() > 0 && (chars[0] == '-' || chars[0] == '+');
    let negative: bool = chars.len() > 0 && chars[0] == '-';
    let start: usize = if signed {
        1
    } else {
        0
    };
    let ghost body = s@.skip(start as int);
    proof {
        assert(signed ==> body == s@.drop_first());
        assert(!signed ==> body == s@);
    }
    if start == chars.len() {
        return None;
    }
    let limit: u64 = 9_223_372_036_854_775_808;
    let mut value: u64 = 0;
    let mut i: usize = start;
    proof {
        assert(body.take(0).len() == 0);
    }
    while i < chars.len()
        invariant
            chars@ == s@,
            start <= i <= chars@.len(),
            start < chars@.len(),
            body == s@.skip(start as int),
            limit == 9_223_372_036_854_775_808,
            value <= limit,
            value == digits_value(body.take(i - start)),
            forall|k: int| 0 <= k < i - start ==> is_digit(#[trigger] body[k]),
            signed ==> body == s@.drop_first(),
            !signed ==> body == s@,
            negative == (s@.len() > 0 && s@[0] == '-'),
            signed == (s@.len() > 0 && (s@[0] == '-' || s@[0] == '+')),
        decreases chars@.len() - i,
    {
        let c: char = chars[i];
        proof {
            assert(body[i - start] == c);
        }
        if !('0' <= c && c <= '9') {
            proof {
                assert(!is_digit(body[i - start]));
            }
            return None;
        }
        let d: u64 = (c as u32 - 48) as u64;
        proof {
            assert(body.take(i + 1 - start).drop_last() == body.take(i - start));
            assert(body.take(i + 1 - start).last() == c);
        }
        let next: u128 = value as u128 * 10 + d as u128;
        if next > limit as u128 {
            proof {
                if all_digits(body) {
                    lemma_value_at_least(body, i + 1 - start);
                }
            }
            return None;
        }
        value = next as u64;
        i += 1;
    }
    proof {
        assert(body.take(i - start) == body);
        assert(all_digits(body));
    }
    if negative {
        if value == limit {
            Some(i64::MIN)
        } else {
            Some(-(value as i64))
        }
    } else if value == limit {
        None
    } else {
        Some(value as i64)
    }
}

/// Decimal notation denotes the number that was written.
pub proof fn decimal_notation_reads_back(n: nat)
    ensures
        all_digits(digits(n)),
        digits_value(digits(n)) == n,
    decreases n,
{
    let s = digits(n);
    if n < 10 {
        assert(s.drop_last().len() == 0);
        assert(s.last() == digit_char(n));
        assert(digits_value(s.drop_last()) == 0);
    } else {
        decimal_notation_reads_back(n / 10);
        assert(s.drop_last() == digits(n / 10));
        assert forall|i: int| 0 <= i < s.len() implies is_digit(#[trigger] s[i]) by {
            if i < s.len() - 1 {
                assert(s[i] == digits(n / 10)[i]);
            }
        }
    }
}

/// A number with a sign that was written in decimal notation is read as the same number.
pub proof fn signed_notation_reads_back(n: i64)
    ensures
        read_i64(int_text(n as int)) == Some(n),
{
    if n < 0 {
        decimal_notation_reads_back((-n) as nat);
        assert(int_text(n as int).drop_first() == digits((-n) as nat));
    } else {
        decimal_notation_reads_back(n as nat);
        assert(is_digit(digits(n as nat)[0]));
    }
}

/// Decimal notation writes a number digit by digit: the last digit is what is over after division by
/// ten, and the digits before it are those of the quotient.
pub proof fn digits_follow_each_other(n: nat, d: nat)
    requires
        d < 10,
    ensures
        digits(d).len() == 1,
        digits(d)[0] as int == '0' as int + d,
        n > 0 ==> digits(10 * n + d) == digits(n) + digits(d),
        n < 0x8000_0000_0000_0000 && n > 0 ==> int_text(-n) == seq!['-'] + digits(n),
        int_text(n as int) == digits(n),
{
    if n > 0 {
        assert((10 * n + d) / 10 == n);
        assert((10 * n + d) % 10 == d);
        assert(digits(10 * n + d) =~= digits(n) + digits(d));
    }
}

/// A text with anything else in it than digits, but for a sign in front, denotes no number, and neither
/// does one without digits; a plus sign in front makes no difference.
pub proof fn only_digits_denote_numbers(s: Seq<char>, i: int, n: nat)
    ensures
        s.len() == 0 ==> read_i64(s) is None,
        0 < i < s.len() && !('0' <= s[i] <= '9') ==> read_i64(s) is None,
        s.len() > 0 && !('0' <= s[0] <= '9') && s[0] != '-' && s[0] != '+' ==> read_i64(s) is None,
        s.len() == 1 && (s[0] == '-' || s[0] == '+') ==> read_i64(s) is None,
        n <= i64::MAX ==> read_i64(seq!['+'] + digits(n)) == Some(n as i64),
        n > i64::MAX ==> read_i64(digits(n)) is None,
{
    decimal_notation_reads_back(n);
    assert((seq!['+'] + digits(n)).drop_first() =~= digits(n));
    assert(is_digit(digits(n)[0]));
    if 0 < i < s.len() && !('0' <= s[i] <= '9') {
        let body = if s[0] == '-' || s[0] == '+' {
            s.drop_first()
        } else {
            s
        };
        let k = if s[0] == '-' || s[0] == '+' {
            i - 1
        } else {
            i
        };
        assert(body[k] == s[i]);
        assert(!is_digit(body[k]));
    }
    if s.len() > 0 && !('0' <= s[0] <= '9') && s[0] != '-' && s[0] != '+' {
        assert(!is_digit(s[0]));
    }
}

} // verus!
