//! Decimal and hexadecimal numerals.

use vstd::prelude::*;

verus! {

/// Whether a character is a decimal digit.
pub open spec fn is_digit(c: char) -> bool {
    '0' <= c <= '9'
}

/// The value of a decimal digit.
pub open spec fn digit_value(c: char) -> nat {
    (c as u32 - '0' as u32) as nat
}

/// The character of a digit from 0 to 9.
pub open spec fn digit_char(d: nat) -> char {
    (('0' as u8) + d) as char
}

/// Every character is a decimal digit.
pub open spec fn all_digits(digits: Seq<char>) -> bool {
    forall|k: int| 0 <= k < digits.len() ==> is_digit(#[trigger] digits[k])
}

/// The number that a sequence of decimal digits stands for; leading zeroes
/// count for nothing.
pub open spec fn digits_value(digits: Seq<char>) -> nat
    decreases digits.len(),
{
    if digits.len() == 0 {
        0
    } else {
        digits_value(digits.drop_last()) * 10 + digit_value(digits.last())
    }
}

/// The decimal numeral of a number, without leading zeroes.
pub open spec fn decimal(n: nat) -> Seq<char>
    decreases n,
{
    if n < 10 {
        seq![digit_char(n)]
    } else {
        decimal(n / 10).push(digit_char(n % 10))
    }
}

/// A numeral with one leading `+`, if it has one, taken off.
pub open spec fn unsigned_part(numeral: Seq<char>) -> Seq<char> {
    if numeral.len() > 0 && numeral[0] == '+' {
        numeral.skip(1)
    } else {
        numeral
    }
}

/// The number that a decimal numeral stands for, if it is one and the
/// number is at most `max`. A numeral is one or more decimal digits, which
/// one `+` may precede.
pub open spec fn parse_decimal(numeral: Seq<char>, max: nat) -> Option<nat> {
    let digits = unsigned_part(numeral);
    if digits.len() > 0 && all_digits(digits) && digits_value(digits) <= max {
        Some(digits_value(digits))
    } else {
        None
    }
}

/// The value of a numeral is at least the value of each of its prefixes.
pub proof fn lemma_digits_value_grows(digits: Seq<char>, k: int)
    requires
        0 <= k <= digits.len(),
    ensures
        digits_value(digits.take(k)) <= digits_value(digits),
    decreases digits.len(),
{
    if k == digits.len() {
        assert(digits.take(k) =~= digits);
    } else {
        lemma_digits_value_grows(digits.drop_last(), k);
        assert(digits.drop_last().take(k) =~= digits.take(k));
        assert(digits_value(digits.drop_last()) * 10 >= digits_value(digits.drop_last()))
            by (nonlinear_arith);
    }
}

/// The decimal numeral of a number is made of digits only, starts with a
/// digit, and stands for that number.
pub proof fn lemma_decimal(n: nat)
    ensures
        decimal(n).len() >= 1,
        all_digits(decimal(n)),
        digits_value(decimal(n)) == n,
    decreases n,
{
    if n < 10 {
        assert(decimal(n).drop_last() =~= Seq::<char>::empty());
        assert(digits_value(decimal(n).drop_last()) == 0);
    } else {
        lemma_decimal(n / 10);
        assert(decimal(n).drop_last() =~= decimal(n / 10));
    }
}

/// Reading the decimal numeral of a number gives the number back.
pub proof fn lemma_parse_decimal(n: nat, max: nat)
    requires
        n <= max,
    ensures
        parse_decimal(decimal(n), max) == Some(n),
{
    lemma_decimal(n);
    assert(is_digit(decimal(n)[0]));
}

/// The number that a run of decimal digits stands for, if it is one and the
/// number is at most `max`.
fn read_digits(digits: &Vec<char>, from: usize, max: u32) -> (value: Option<u32>)
    requires
        from <= digits@.len(),
    ensures
        value == (if digits@.len() > from && all_digits(digits@.skip(from as int)) && digits_value(
            digits@.skip(from as int),
        ) <= max {
            Some(digits_value(digits@.skip(from as int)) as u32)
        } else {
            None
        }),
{
    let ghost run = digits@.skip(from as int);
    if digits.len() == from {
        return None;
    }
    let mut value: u32 = 0;
    let mut k: usize = from;
    assert(run.take(0) =~= Seq::<char>::empty());
    while k < digits.len()
        invariant
            from <= k <= digits@.len(),
            run == digits@.skip(from as int),
            all_digits(run.take(k - from)),
            value == digits_value(run.take(k - from)),
            value <= max,
        decreases digits@.len() - k,
    {
        let c = digits[k];
        proof {
            assert(run.take(k - from + 1).drop_last() =~= run.take(k - from));
            assert(run.take(k - from + 1).last() == c);
            assert(run[k - from] == c);
        }
        if !('0' <= c && c <= '9') {
            return None;
        }
        let digit = c as u32 - '0' as u32;
        let next: u64 = value as u64 * 10 + digit as u64;
        if next > max as u64 {
            proof {
                if all_digits(run) {
                    lemma_digits_value_grows(run, k - from + 1);
                }
            }
            return None;
        }
        value = next as u32;
        k += 1;
    }
    assert(run.take(run.len() as int) =~= run);
    Some(value)
}

/// Reads a decimal numeral that stands for a number up to `max`.
pub fn read_decimal(numeral: &Vec<char>, max: u32) -> (value: Option<u32>)
    ensures
        value == (match parse_decimal(numeral@, max as nat) {
            Some(n) => Some(n as u32),
            None => None,
        }),
{
    if numeral.len() > 0 && numeral[0] == '+' {
        read_digits(numeral, 1, max)
    } else {
        assert(numeral@.skip(0) =~= numeral@);
        read_digits(numeral, 0, max)
    }
}

/// Appends the decimal numeral of a number to a text.
pub fn push_decimal(text: &mut Vec<char>, n: u64)
    ensures
        final(text)@ == old(text)@ + decimal(n as nat),
    decreases n,
{
    if n >= 10 {
        push_decimal(text, n / 10);
    }
    let digit = (('0' as u8) + (n % 10) as u8) as char;
    text.push(digit);
    proof {
        if n >= 10 {
            assert(text@ =~= old(text)@ + decimal(n as nat));
        } else {
            assert(text@ =~= old(text)@ + decimal(n as nat));
        }
    }
}

/// A decimal numeral of a number reads the same in small letters, holds no
/// white space and starts with a digit.
pub proof fn lemma_decimal_is_plain(n: nat)
    ensures
        crate::text::lowercase(decimal(n)) == decimal(n),
        crate::text::unbroken(decimal(n), crate::text::Separator::Space),
        decimal(n).len() >= 1,
        is_digit(decimal(n)[0]),
{
    lemma_decimal(n);
    assert(crate::text::lowercase(decimal(n)) =~= decimal(n));
}

/// Whether a character is a hexadecimal digit.
pub open spec fn is_hex_digit(c: char) -> bool {
    ('0' <= c <= '9') || ('a' <= c <= 'f') || ('A' <= c <= 'F')
}

/// The value of a hexadecimal digit.
pub open spec fn hex_digit_value(c: char) -> nat {
    if '0' <= c <= '9' {
        (c as u32 - '0' as u32) as nat
    } else if 'a' <= c <= 'f' {
        (c as u32 - 'a' as u32 + 10) as nat
    } else {
        (c as u32 - 'A' as u32 + 10) as nat
    }
}

/// Every character is a hexadecimal digit.
pub open spec fn all_hex_digits(digits: Seq<char>) -> bool {
    forall|k: int| 0 <= k < digits.len() ==> is_hex_digit(#[trigger] digits[k])
}

/// The number that a sequence of hexadecimal digits stands for.
pub open spec fn hex_value(digits: Seq<char>) -> nat
    decreases digits.len(),
{
    if digits.len() == 0 {
        0
    } else {
        hex_value(digits.drop_last()) * 16 + hex_digit_value(digits.last())
    }
}

/// The number that a run of hexadecimal digits stands for, if it is one
/// and the number is at most `max`.
pub open spec fn parse_hex(digits: Seq<char>, max: nat) -> Option<nat> {
    if digits.len() > 0 && all_hex_digits(digits) && hex_value(digits) <= max {
        Some(hex_value(digits))
    } else {
        None
    }
}

/// The value of a hexadecimal numeral is at least the value of each of its
/// prefixes.
pub proof fn lemma_hex_value_grows(digits: Seq<char>, k: int)
    requires
        0 <= k <= digits.len(),
    ensures
        hex_value(digits.take(k)) <= hex_value(digits),
    decreases digits.len(),
{
    if k == digits.len() {
        assert(digits.take(k) =~= digits);
    } else {
        lemma_hex_value_grows(digits.drop_last(), k);
        assert(digits.drop_last().take(k) =~= digits.take(k));
        assert(hex_value(digits.drop_last()) * 16 >= hex_value(digits.drop_last()))
            by (nonlinear_arith);
    }
}

/// Reads the hexadecimal digits of `digits` from index `from` on as a
/// number up to `max`.
pub fn read_hex(digits: &Vec<char>, from: usize, max: u32) -> (value: Option<u32>)
    requires
        from <= digits@.len(),
    ensures
        value == (match parse_hex(digits@.skip(from as int), max as nat) {
            Some(n) => Some(n as u32),
            None => None,
        }),
{
    let ghost run = digits@.skip(from as int);
    if digits.len() == from {
        return None;
    }
    let mut value: u32 = 0;
    let mut k: usize = from;
    assert(run.take(0) =~= Seq::<char>::empty());
    while k < digits.len()
        invariant
            from <= k <= digits@.len(),
            run == digits@.skip(from as int),
            all_hex_digits(run.take(k - from)),
            value == hex_value(run.take(k - from)),
            value <= max,
        decreases digits@.len() - k,
    {
        let c = digits[k];
        proof {
            assert(run.take(k - from + 1).drop_last() =~= run.take(k - from));
            assert(run.take(k - from + 1).last() == c);
            assert(run[k - from] == c);
        }
        let digit: u32 = if '0' <= c && c <= '9' {
            c as u32 - '0' as u32
        } else if 'a' <= c && c <= 'f' {
            c as u32 - 'a' as u32 + 10
        } else if 'A' <= c && c <= 'F' {
            c as u32 - 'A' as u32 + 10
        } else {
            return None;
        };
        let next: u64 = value as u64 * 16 + digit as u64;
        if next > max as u64 {
            proof {
                if all_hex_digits(run) {
                    lemma_hex_value_grows(run, k - from + 1);
                }
            }
            return None;
        }
        value = next as u32;
        k += 1;
    }
    assert(run.take(run.len() as int) =~= run);
    Some(value)
}

/// The character of a hexadecimal digit from 0 to 15, in small letters.
pub open spec fn hex_digit_char(d: nat) -> char {
    if d < 10 {
        (('0' as u8) + d) as char
    } else {
        (('a' as u8) + d - 10) as char
    }
}

/// The hexadecimal numeral of a number, in small letters and without
/// leading zeroes.
pub open spec fn hexadecimal(n: nat) -> Seq<char>
    decreases n,
{
    if n < 16 {
        seq![hex_digit_char(n)]
    } else {
        hexadecimal(n / 16).push(hex_digit_char(n % 16))
    }
}

/// Appends the hexadecimal numeral of a number to a text.
pub fn push_hex(text: &mut Vec<char>, n: u64)
    ensures
        final(text)@ == old(text)@ + hexadecimal(n as nat),
    decreases n,
{
    if n >= 16 {
        push_hex(text, n / 16);
    }
    let d = (n % 16) as u8;
    let digit = if d < 10 {
        (('0' as u8) + d) as char
    } else {
        (('a' as u8) + d - 10) as char
    };
    text.push(digit);
    assert(text@ =~= old(text)@ + hexadecimal(n as nat));
}

} // verus!
