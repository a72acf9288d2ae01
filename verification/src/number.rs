//! Whole numbers written in decimal.
use crate::text;
use vstd::arithmetic::power::pow;
use vstd::prelude::*;

verus! {

/// The value of a decimal digit.
pub open spec fn digit_value(c: char) -> int {
    c as int - '0' as int
}

/// Whether `c` is a decimal digit.
pub open spec fn is_digit(c: char) -> bool {
    '0' <= c <= '9'
}

/// Whether `s` holds at least one digit and nothing else.
pub open spec fn is_decimal(s: Seq<char>) -> bool {
    s.len() > 0 && forall|i: int| 0 <= i < s.len() ==> is_digit(#[trigger] s[i])
}

/// The number that the digits of `s` stand for.
pub open spec fn decimal_value(s: Seq<char>) -> int
    decreases s.len(),
{
    if s.len() == 0 {
        0
    } else {
        decimal_value(s.drop_last()) * 10 + digit_value(s.last())
    }
}

/// The `i32` that `s` is written for: digits, with a sign in front of them or none.
pub open spec fn i32_value(s: Seq<char>) -> Option<int> {
    let signed = s.len() > 0 && (s[0] == '-' || s[0] == '+');
    let digits = if signed {
        s.skip(1)
    } else {
        s
    };
    let value = if signed && s[0] == '-' {
        -decimal_value(digits)
    } else {
        decimal_value(digits)
    };
    if is_decimal(digits) && i32::MIN <= value <= i32::MAX {
        Some(value)
    } else {
        None
    }
}

proof fn lemma_decimal_grows(s: Seq<char>, i: int)
    requires
        0 <= i <= s.len(),
        forall|k: int| 0 <= k < s.len() ==> is_digit(#[trigger] s[k]),
    ensures
        0 <= decimal_value(s.take(i)) <= decimal_value(s),
    decreases s.len(),
{
    if i == s.len() {
        assert(s.take(i) =~= s);
        if s.len() > 0 {
            lemma_decimal_grows(s.drop_last(), s.len() - 1);
        }
    } else {
        lemma_decimal_grows(s.drop_last(), i);
        assert(s.drop_last().take(i) =~= s.take(i));
    }
}

/// One digit behind another: of two rows of digits side by side, the first counts as many times ten
/// as the second has digits.
pub proof fn lemma_digits_in_a_row(a: Seq<char>, b: Seq<char>)
    ensures
        decimal_value(a + b) == decimal_value(a) * pow(10, b.len()) + decimal_value(b),
    decreases b.len(),
{
    reveal(pow);
    if b.len() == 0 {
        assert(a + b =~= a);
    } else {
        let rest = b.drop_last();
        lemma_digits_in_a_row(a, rest);
        assert((a + b).drop_last() =~= a + rest);
        let (x, p, y) = (decimal_value(a), pow(10, rest.len()), decimal_value(rest));
        assert((x * p + y) * 10 == x * (10 * p) + y * 10) by (nonlinear_arith);
    }
}

/// A digit alone stands for how far it is behind `0`.
pub proof fn lemma_one_digit(c: char)
    requires
        '0' <= c <= '9',
    ensures
        decimal_value(seq![c]) == c as int - 48,
        i32_value(seq![c]) == Some(c as int - 48),
{
    reveal_with_fuel(decimal_value, 2);
    assert(seq![c].drop_last() =~= Seq::empty());
}

/// Digits stand for what they say, with a plus in front of them for the same, and with a minus for
/// the opposite, as far as 32 bits can hold it.
pub proof fn lemma_signs(digits: Seq<char>)
    requires
        digits.len() > 0,
        forall|i: int| 0 <= i < digits.len() ==> '0' <= #[trigger] digits[i] <= '9',
    ensures
        decimal_value(digits) >= 0,
        i32_value(digits) == if decimal_value(digits) <= 2147483647 {
            Some(decimal_value(digits))
        } else {
            None
        },
        i32_value(seq!['+'] + digits) == i32_value(digits),
        i32_value(seq!['-'] + digits) == if decimal_value(digits) <= 2147483648 {
            Some(-decimal_value(digits))
        } else {
            None
        },
{
    lemma_decimal_grows(digits, 0);
    assert((seq!['+'] + digits).skip(1) =~= digits);
    assert((seq!['-'] + digits).skip(1) =~= digits);
    assert('0' <= digits[0] <= '9');
}

/// Nothing else is a number: it takes at least one digit, and what is no digit can only be a sign
/// in front.
pub proof fn lemma_only_digits_are_numbers(s: Seq<char>)
    requires
        i32_value(s) is Some,
    ensures
        s.len() > 0,
        forall|i: int| 1 <= i < s.len() ==> '0' <= #[trigger] s[i] <= '9',
        '0' <= s[0] <= '9' || ((s[0] == '+' || s[0] == '-') && s.len() > 1),
{
    if s.len() > 0 && (s[0] == '-' || s[0] == '+') {
        assert forall|i: int| 1 <= i < s.len() implies '0' <= #[trigger] s[i] <= '9' by {
            assert(is_digit(s.skip(1)[i - 1]));
        }
    } else {
        assert(is_digit(s[0]));
    }
}

/// Reads `s` as an `i32`.
pub fn parse_i32(s: &str) -> (value: Option<i32>)
    ensures
        match value {
            Some(value) => i32_value(s@) == Some(value as int),
            None => i32_value(s@) is None,
        },
{
    let chars: Vec<char> = text::to_chars(s);
    let negative: bool = chars.len() > 0 && chars[0] == '-';
    let signed: bool = negative || (chars.len() > 0 && chars[0] == '+');
    let from: usize = if signed {
        1
    } else {
        0
    };
    let ghost digits = s@.skip(from as int);
    if chars.len() == from {
        return None;
    }
    // The sum stops growing behind the largest magnitude that an `i32` has.
    let top: i64 = 0x8000_0000;
    let mut sum: i64 = 0;
    let mut over: bool = false;
    let mut i: usize = from;
    while i < chars.len()
        invariant
            from <= i <= chars@.len(),
            chars@ == s@,
            signed == (s@.len() > 0 && (s@[0] == '-' || s@[0] == '+')),
            digits == if signed { s@.skip(1) } else { s@ },
            from == if signed { 1int } else { 0int },
            top == 0x8000_0000,
            0 <= sum <= top,
            forall|k: int| 0 <= k < i - from ==> is_digit(#[trigger] digits[k]),
            !over ==> sum == decimal_value(digits.take(i - from)),
            over ==> decimal_value(digits.take(i - from)) > top,
        decreases chars@.len() - i,
    {
        let c: char = chars[i];
        if c < '0' || c > '9' {
            assert(!is_digit(digits[i - from]));
            return None;
        }
        let digit: i64 = (c as u32) as i64 - 48;
        proof {
            assert(digits.take(i - from + 1).drop_last() =~= digits.take(i - from));
            lemma_decimal_grows(digits.take(i - from), i - from);
        }
        if !over {
            let next: i64 = sum * 10 + digit;
            if next > top {
                over = true;
            } else {
                sum = next;
            }
        }
        i += 1;
    }
    assert(digits.take(digits.len() as int) =~= digits);
    if over {
        None
    } else if negative {
        Some((0 - sum) as i32)
    } else if sum == top {
        None
    } else {
        Some(sum as i32)
    }
}

} // verus!
