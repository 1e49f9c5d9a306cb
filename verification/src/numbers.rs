//! Numbers as text: decimal and hexadecimal digits, written and read.

use vstd::prelude::*;

use crate::text::chars_of;

verus! {

/// The character of a digit below sixteen.
pub open spec fn digit(value: int, upper: bool) -> char {
    if value < 10 {
        (48 + value) as char
    } else if upper {
        (55 + value) as char
    } else {
        (87 + value) as char
    }
}

/// The character of a digit below sixteen.
pub fn digit_char(value: u8, upper: bool) -> (c: char)
    requires
        value < 16,
    ensures
        c == digit(value as int, upper),
{
    if value < 10 {
        (48 + value) as char
    } else if upper {
        (55 + value) as char
    } else {
        (87 + value) as char
    }
}

/// The digits of `value` to the given base, most significant first, without leading zeros.
pub open spec fn numeral(value: nat, base: nat, upper: bool) -> Seq<char>
    decreases value,
{
    if base < 2 || value < base {
        seq![digit(value as int, upper)]
    } else {
        proof {
            assert(value / base < value) by (nonlinear_arith)
                requires
                    value >= base >= 2,
            ;
        }
        numeral(value / base, base, upper).push(digit((value % base) as int, upper))
    }
}

/// The decimal digits of `value`.
pub open spec fn decimal(value: nat) -> Seq<char> {
    numeral(value, 10, true)
}

/// The upper-case hexadecimal digits of `value`.
pub open spec fn hex(value: nat) -> Seq<char> {
    numeral(value, 16, true)
}

/// The digits of `value` to the base ten or sixteen.
pub fn numeral_text(value: u128, base: u128, upper: bool) -> (out: String)
    requires
        2 <= base <= 16,
    ensures
        out@ == numeral(value as nat, base as nat, upper),
    decreases value,
{
    if value < base {
        let mut out = String::new();
        out.push(digit_char(value as u8, upper));
        assert(out@ =~= numeral(value as nat, base as nat, upper));
        out
    } else {
        assert(value / base < value) by (nonlinear_arith)
            requires
                value >= base >= 2,
        ;
        let mut out = numeral_text(value / base, base, upper);
        out.push(digit_char((value % base) as u8, upper));
        out
    }
}

/// The decimal digits of `value`.
pub fn decimal_text(value: usize) -> (out: String)
    ensures
        out@ == decimal(value as nat),
{
    numeral_text(value as u128, 10, true)
}

/// The decimal digits of the number after `value`.
pub fn ordinal_text(value: usize) -> (out: String)
    ensures
        out@ == decimal((value + 1) as nat),
{
    numeral_text(value as u128 + 1, 10, true)
}

/// The upper-case hexadecimal digits of `value`.
pub fn hex_text(value: usize) -> (out: String)
    ensures
        out@ == hex(value as nat),
{
    numeral_text(value as u128, 16, true)
}

/// The two upper-case hexadecimal digits of a byte.
pub open spec fn byte_hex(byte: u8) -> Seq<char> {
    seq![digit(byte as int / 16, true), digit(byte as int % 16, true)]
}

/// The two upper-case hexadecimal digits of a byte.
pub fn byte_text(byte: u8) -> (out: String)
    ensures
        out@ == byte_hex(byte),
{
    let mut out = String::new();
    out.push(digit_char(byte / 16, true));
    out.push(digit_char(byte % 16, true));
    assert(out@ =~= byte_hex(byte));
    out
}

/// The lowest `width` hexadecimal digits of `value`, in lower case, padded with zeros.
pub open spec fn hex_padded(value: nat, width: nat) -> Seq<char>
    decreases width,
{
    if width == 0 {
        Seq::<char>::empty()
    } else {
        hex_padded(value / 16, (width - 1) as nat).push(digit((value % 16) as int, false))
    }
}

/// `value` as `width` lower-case hexadecimal digits, padded with zeros.
pub fn hex_padded_text(value: u64, width: usize) -> (out: String)
    ensures
        out@ == hex_padded(value as nat, width as nat),
    decreases width,
{
    if width == 0 {
        let out = String::new();
        out
    } else {
        let mut out = hex_padded_text(value / 16, width - 1);
        out.push(digit_char((value % 16) as u8, false));
        out
    }
}

// ---------------------------------------------------------------------------
// Reading
// ---------------------------------------------------------------------------

/// The value of a digit, letters of either case standing for ten to fifteen.
pub open spec fn digit_value(c: char) -> int {
    let u = c as u32 as int;
    if 48 <= u <= 57 {
        u - 48
    } else if 65 <= u <= 70 {
        u - 55
    } else if 97 <= u <= 102 {
        u - 87
    } else {
        16
    }
}

/// Whether `c` is a hexadecimal digit of either case.
pub open spec fn is_hex_digit(c: char) -> bool {
    digit_value(c) < 16
}

/// The value of a hexadecimal digit; sixteen for every other character.
pub fn hex_digit_value(c: char) -> (value: u8)
    ensures
        value == digit_value(c),
        value <= 16,
{
    let u: u32 = c as u32;
    if 48 <= u && u <= 57 {
        (u - 48) as u8
    } else if 65 <= u && u <= 70 {
        (u - 55) as u8
    } else if 97 <= u && u <= 102 {
        (u - 87) as u8
    } else {
        16
    }
}

/// Whether every character is a digit of the base.
pub open spec fn all_digits(text: Seq<char>, base: int) -> bool {
    forall|i: int| 0 <= i < text.len() ==> digit_value(#[trigger] text[i]) < base
}

/// The number that digits stand for.
pub open spec fn digits_value(text: Seq<char>, base: int) -> int
    decreases text.len(),
{
    if text.len() == 0 {
        0
    } else {
        digits_value(text.drop_last(), base) * base + digit_value(text.last())
    }
}

/// `text` without one leading plus sign.
pub open spec fn without_plus(text: Seq<char>) -> Seq<char> {
    if text.len() > 0 && text[0] == '+' {
        text.skip(1)
    } else {
        text
    }
}

/// The number written by `text`, an optional plus sign followed by one or more digits, if it is
/// at most `max`.
pub open spec fn number(text: Seq<char>, base: int, max: int) -> Option<int> {
    let digits = without_plus(text);
    if digits.len() > 0 && all_digits(digits, base) && digits_value(digits, base) <= max {
        Some(digits_value(digits, base))
    } else {
        None
    }
}

proof fn lemma_digits_value_grows(text: Seq<char>, cut: int, base: int)
    requires
        0 <= cut <= text.len(),
        base >= 1,
    ensures
        0 <= digits_value(text.take(cut), base) <= digits_value(text, base),
    decreases text.len(),
{
    if text.len() == 0 {
        assert(text.take(cut) =~= text);
    } else if cut == text.len() {
        assert(text.take(cut) =~= text);
        lemma_digits_value_grows(text.drop_last(), text.len() - 1, base);
        assert(text.drop_last().take(text.len() - 1) =~= text.drop_last());
        let v = digits_value(text.drop_last(), base);
        assert(v * base >= 0) by (nonlinear_arith)
            requires
                v >= 0,
                base >= 1,
        ;
    } else {
        lemma_digits_value_grows(text.drop_last(), cut, base);
        assert(text.drop_last().take(cut) =~= text.take(cut));
        let v = digits_value(text.drop_last(), base);
        assert(v * base >= v) by (nonlinear_arith)
            requires
                v >= 0,
                base >= 1,
        ;
    }
}

/// The number written by `text` to the base, if it is at most `max`.
pub fn read_number(text: &str, base: u8, max: u128) -> (value: Option<u128>)
    requires
        2 <= base <= 16,
    ensures
        value is Some <==> number(text@, base as int, max as int) is Some,
        value matches Some(v) ==> number(text@, base as int, max as int) == Some(v as int),
{
    let chars = chars_of(text);
    let mut from: usize = 0;
    if chars.len() > 0 && chars[0] == '+' {
        from = 1;
    }
    let ghost digits = without_plus(text@);
    assert(digits =~= chars@.skip(from as int));
    if from == chars.len() {
        return None;
    }
    let mut value: u128 = 0;
    let mut i: usize = from;
    assert(digits.take(0) =~= Seq::<char>::empty());
    while i < chars.len()
        invariant
            from <= i <= chars.len(),
            chars@ == text@,
            2 <= base <= 16,
            digits == without_plus(text@),
            digits == chars@.skip(from as int),
            forall|j: int| 0 <= j < i - from ==> digit_value(#[trigger] digits[j]) < base,
            value == digits_value(digits.take(i - from), base as int),
            value <= max,
        decreases chars.len() - i,
    {
        let d: u8 = hex_digit_value(chars[i]);
        assert(digits[i - from] == chars@[i as int]);
        if d >= base {
            return None;
        }
        assert(digits.take(i + 1 - from).drop_last() =~= digits.take(i - from));
        proof {
            lemma_digits_value_grows(digits, i + 1 - from, base as int);
        }
        let scaled = value.checked_mul(base as u128);
        let total: Option<u128> = match scaled {
            Some(s) => s.checked_add(d as u128),
            None => None,
        };
        match total {
            Some(t) if t <= max => {
                value = t;
            },
            _ => {
                return None;
            },
        }
        i = i + 1;
    }
    assert(digits.take(chars.len() - from) =~= digits);
    Some(value)
}

/// A byte's value is read back from its two digits.
pub proof fn lemma_byte_hex_read_back(byte: u8)
    ensures
        digit_value(byte_hex(byte)[0]) * 16 + digit_value(byte_hex(byte)[1]) == byte,
        is_hex_digit(byte_hex(byte)[0]),
        is_hex_digit(byte_hex(byte)[1]),
{
    lemma_digit_read_back(byte as int / 16, true);
    lemma_digit_read_back(byte as int % 16, true);
}

/// A digit's value is read back from its character.
pub proof fn lemma_digit_read_back(value: int, upper: bool)
    requires
        0 <= value < 16,
    ensures
        digit_value(digit(value, upper)) == value,
{
}

/// Reading the digits of a number gives the number.
pub proof fn lemma_numeral_read_back(value: nat, base: nat, upper: bool)
    requires
        2 <= base <= 16,
    ensures
        numeral(value, base, upper).len() >= 1,
        all_digits(numeral(value, base, upper), base as int),
        digits_value(numeral(value, base, upper), base as int) == value,
        numeral(value, base, upper)[0] != '+',
    decreases value,
{
    let digits = numeral(value, base, upper);
    if value < base {
        lemma_digit_read_back(value as int, upper);
        assert(digits.drop_last() =~= Seq::<char>::empty());
        assert(digits_value(digits.drop_last(), base as int) == 0);
        assert(digits[0] == digit(value as int, upper));
        assert(digits.last() == digit(value as int, upper));
    } else {
        assert(value / base < value) by (nonlinear_arith)
            requires
                value >= base >= 2,
        ;
        lemma_numeral_read_back(value / base, base, upper);
        let init = numeral(value / base, base, upper);
        assert(digits.drop_last() =~= init);
        lemma_digit_read_back((value % base) as int, upper);
        assert(value == (value / base) * base + value % base) by (nonlinear_arith)
            requires
                base >= 2,
        ;
        assert forall|i: int| 0 <= i < digits.len() implies digit_value(#[trigger] digits[i])
            < base by {
            if i < init.len() {
                assert(digits[i] == init[i]);
            }
        }
    }
}

/// Whether a character is a hexadecimal digit, with letters in lower case.
pub open spec fn is_lower_hex_digit(c: char) -> bool {
    ('0' <= c <= '9') || ('a' <= c <= 'f')
}

/// A number written with leading zeros has as many digits as it is given, in lower case.
pub proof fn lemma_hex_padded(value: nat, width: nat)
    ensures
        hex_padded(value, width).len() == width,
        forall|i: int|
            0 <= i < width ==> is_lower_hex_digit(#[trigger] hex_padded(value, width)[i]),
    decreases width,
{
    if width > 0 {
        lemma_hex_padded(value / 16, (width - 1) as nat);
        let rest = hex_padded(value / 16, (width - 1) as nat);
        assert forall|i: int| 0 <= i < width implies is_lower_hex_digit(
            #[trigger] hex_padded(value, width)[i],
        ) by {
            if i < width - 1 {
                assert(hex_padded(value, width)[i] == rest[i]);
            }
        }
    }
}

/// The number of values that some hexadecimal digits can write.
spec fn power16(width: nat) -> nat
    decreases width,
{
    if width == 0 {
        1
    } else {
        16 * power16((width - 1) as nat)
    }
}

proof fn lemma_hex_padded_injective(a: nat, b: nat, width: nat)
    requires
        a < power16(width),
        b < power16(width),
        hex_padded(a, width) == hex_padded(b, width),
    ensures
        a == b,
    decreases width,
{
    if width > 0 {
        let rest = (width - 1) as nat;
        let x = hex_padded(a, width);
        let y = hex_padded(b, width);
        assert(x.drop_last() =~= hex_padded(a / 16, rest));
        assert(y.drop_last() =~= hex_padded(b / 16, rest));
        assert(x.last() == y.last());
        lemma_digit_read_back((a % 16) as int, false);
        lemma_digit_read_back((b % 16) as int, false);
        lemma_hex_padded_injective(a / 16, b / 16, rest);
    }
}

/// Sixteen digits tell all 64-bit numbers apart.
pub proof fn lemma_hex_padded_tells_apart(a: nat, b: nat)
    requires
        a <= u64::MAX,
        b <= u64::MAX,
        a != b,
    ensures
        hex_padded(a, 16) != hex_padded(b, 16),
{
    reveal_with_fuel(power16, 17);
    assert(power16(16) == 0x1_0000_0000_0000_0000);
    if hex_padded(a, 16) == hex_padded(b, 16) {
        lemma_hex_padded_injective(a, b, 16);
    }
}

}
