//! Reading unsigned numbers from ASCII digits.

use vstd::prelude::*;

verus! {

/// The character `0`.
pub const DIGIT_0: u8 = 0x30;

/// The character `9`.
pub const DIGIT_9: u8 = 0x39;

/// The character `a`.
pub const LOWER_A: u8 = 0x61;

/// The character `f`.
pub const LOWER_F: u8 = 0x66;

/// The character `x`.
pub const LOWER_X: u8 = 0x78;

/// The character `A`.
pub const UPPER_A: u8 = 0x41;

/// The character `F`.
pub const UPPER_F: u8 = 0x46;

/// The character `+`.
pub const PLUS: u8 = 0x2b;

/// The value of the digit `c` in bases up to sixteen: `0` to `9`, then `a` to `f` in
/// either case. `None` where `c` is no such digit.
pub open spec fn digit_value(c: u8) -> Option<nat> {
    if DIGIT_0 <= c <= DIGIT_9 {
        Some((c - DIGIT_0) as nat)
    } else if LOWER_A <= c <= LOWER_F {
        Some((c - LOWER_A + 10) as nat)
    } else if UPPER_A <= c <= UPPER_F {
        Some((c - UPPER_A + 10) as nat)
    } else {
        None
    }
}

/// `c` is a digit of base `radix`.
pub open spec fn is_digit(c: u8, radix: nat) -> bool {
    digit_value(c) matches Some(d) && d < radix
}

/// Every byte of `text` is a digit of base `radix`.
pub open spec fn all_digits(text: Seq<u8>, radix: nat) -> bool {
    forall|i: int| 0 <= i < text.len() ==> is_digit(#[trigger] text[i], radix)
}

/// The number that the digits of `text` spell in base `radix`, most significant digit
/// first. A byte that is no digit counts as zero.
pub open spec fn digits_value(text: Seq<u8>, radix: nat) -> nat
    decreases text.len(),
{
    if text.len() == 0 {
        0
    } else {
        let last = match digit_value(text.last()) {
            Some(d) => d,
            None => 0,
        };
        digits_value(text.drop_last(), radix) * radix + last
    }
}

/// The number that `text` spells in base `radix`, where `text` is one or more digits
/// of that base and the number is at most `max`.
pub open spec fn numeral(text: Seq<u8>, radix: nat, max: nat) -> Option<nat> {
    if text.len() > 0 && all_digits(text, radix) && digits_value(text, radix) <= max {
        Some(digits_value(text, radix))
    } else {
        None
    }
}

/// The number that `text` spells in decimal, with an optional `+` in front, where it
/// fits in 32 bits.
pub open spec fn decimal_u32(text: Seq<u8>) -> Option<u32> {
    let digits = if text.len() > 0 && text[0] == PLUS {
        text.skip(1)
    } else {
        text
    };
    match numeral(digits, 10, u32::MAX as nat) {
        Some(n) => Some(n as u32),
        None => None,
    }
}

/// The number that `text` spells in hexadecimal, with an optional `0x` in front, where
/// it fits in 64 bits.
pub open spec fn hex_u64(text: Seq<u8>) -> Option<u64> {
    let digits = if text.len() >= 2 && text[0] == DIGIT_0 && text[1] == LOWER_X {
        text.skip(2)
    } else {
        text
    };
    match numeral(digits, 16, u64::MAX as nat) {
        Some(n) => Some(n as u64),
        None => None,
    }
}

/// Digits to the right never make a number smaller.
pub proof fn lemma_digits_value_grows(text: Seq<u8>, n: int, radix: nat)
    requires
        0 <= n <= text.len(),
        radix >= 1,
    ensures
        digits_value(text.take(n), radix) <= digits_value(text, radix),
    decreases text.len(),
{
    if n == text.len() {
        assert(text.take(n) =~= text);
    } else {
        lemma_digits_value_grows(text.drop_last(), n, radix);
        assert(text.drop_last().take(n) =~= text.take(n));
        let shorter = digits_value(text.drop_last(), radix);
        assert(shorter <= shorter * radix) by (nonlinear_arith)
            requires
                radix >= 1,
        ;
    }
}

/// The value of `c` as a digit of base `radix`, if it is one.
pub fn digit(c: u8, radix: u8) -> (value: Option<u8>)
    requires
        radix <= 16,
    ensures
        match value {
            Some(d) => is_digit(c, radix as nat) && digit_value(c) == Some(d as nat),
            None => !is_digit(c, radix as nat),
        },
{
    let d: u8 = if DIGIT_0 <= c && c <= DIGIT_9 {
        c - DIGIT_0
    } else if LOWER_A <= c && c <= LOWER_F {
        c - LOWER_A + 10
    } else if UPPER_A <= c && c <= UPPER_F {
        c - UPPER_A + 10
    } else {
        return None;
    };
    if d < radix {
        Some(d)
    } else {
        None
    }
}

/// Reads `text[from..]` as a number in base `radix` that is at most `max`.
pub fn parse_digits(text: &[u8], from: usize, radix: u8, max: u64) -> (value: Option<u64>)
    requires
        from <= text.len(),
        1 <= radix <= 16,
    ensures
        match value {
            Some(n) => numeral(text@.skip(from as int), radix as nat, max as nat) == Some(n as nat),
            None => numeral(text@.skip(from as int), radix as nat, max as nat) is None,
        },
{
    let ghost digits = text@.skip(from as int);
    if from == text.len() {
        return None;
    }
    let mut total: u64 = 0;
    let mut i: usize = from;
    while i < text.len()
        invariant
            from <= i <= text.len(),
            1 <= radix <= 16,
            digits == text@.skip(from as int),
            all_digits(digits.take(i - from), radix as nat),
            total == digits_value(digits.take(i - from), radix as nat),
            total <= max,
        decreases text.len() - i,
    {
        let ghost before = digits.take(i - from);
        let ghost with = digits.take(i - from + 1);
        proof {
            assert(with.drop_last() =~= before);
            lemma_digits_value_grows(digits, i - from + 1, radix as nat);
        }
        match digit(text[i], radix) {
            None => {
                return None;
            },
            Some(d) => {
                assert(total * radix + d <= u64::MAX * 16 + 15) by (nonlinear_arith)
                    requires
                        total <= u64::MAX,
                        radix <= 16,
                        d <= 15,
                ;
                let next: u128 = total as u128 * radix as u128 + d as u128;
                if next > max as u128 {
                    return None;
                }
                total = next as u64;
            },
        }
        i += 1;
    }
    assert(digits.take(i - from) =~= digits);
    Some(total)
}

/// Reads `text` as a decimal number of 32 bits, with an optional `+` in front.
pub fn parse_decimal_u32(text: &[u8]) -> (value: Option<u32>)
    ensures
        value == decimal_u32(text@),
{
    let from: usize = if text.len() > 0 && text[0] == PLUS {
        1
    } else {
        0
    };
    proof {
        assert(text@.skip(0) =~= text@);
    }
    match parse_digits(text, from, 10, u32::MAX as u64) {
        Some(n) => Some(n as u32),
        None => None,
    }
}

/// Reads `text` as a hexadecimal number of 64 bits, with an optional `0x` in front.
pub fn parse_hex_u64(text: &[u8]) -> (value: Option<u64>)
    ensures
        value == hex_u64(text@),
{
    let from: usize = if text.len() >= 2 && text[0] == DIGIT_0 && text[1] == LOWER_X {
        2
    } else {
        0
    };
    proof {
        assert(text@.skip(0) =~= text@);
    }
    parse_digits(text, from, 16, u64::MAX)
}

} // verus!
