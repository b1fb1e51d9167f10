//! Numbers as text: decimal and hexadecimal digits, and reading them back.

use crate::text::chars_of;
use vstd::prelude::*;

verus! {

/// The character that stands for a decimal or hexadecimal digit.
pub open spec fn digit_char(digit: nat) -> char {
    if digit < 10 {
        (48 + digit) as char
    } else {
        (87 + digit) as char
    }
}

fn digit_of(digit: u8) -> (c: char)
    requires
        digit < 16,
    ensures
        c == digit_char(digit as nat),
{
    if digit < 10 {
        (48u8 + digit) as char
    } else {
        (87u8 + digit) as char
    }
}

/// `n` in decimal, without leading zeros.
pub open spec fn decimal(n: nat) -> Seq<char>
    decreases n,
{
    if n < 10 {
        seq![digit_char(n)]
    } else {
        decimal(n / 10).push(digit_char(n % 10))
    }
}

/// `n` in decimal, as `Display` writes an unsigned integer.
pub fn decimal_of(n: u64) -> (text: String)
    ensures
        text@ == decimal(n as nat),
    decreases n,
{
    if n < 10 {
        let mut text = String::new();
        text.push(digit_of(n as u8));
        assert(text@ =~= decimal(n as nat));
        text
    } else {
        let mut text = decimal_of(n / 10);
        text.push(digit_of((n % 10) as u8));
        text
    }
}

/// `n` in decimal, with a minus sign when it is negative.
pub open spec fn signed_decimal(n: int) -> Seq<char> {
    if n < 0 {
        "-"@ + decimal((-n) as nat)
    } else {
        decimal(n as nat)
    }
}

/// `n` in decimal, as `Display` writes a signed integer.
pub fn signed_decimal_of(n: i32) -> (text: String)
    ensures
        text@ == signed_decimal(n as int),
{
    if n < 0 {
        let mut text = String::from_str("-");
        text.append(decimal_of((-(n as i64)) as u64).as_str());
        text
    } else {
        decimal_of(n as u64)
    }
}

/// The lowest `width` hexadecimal digits of `n`, zeros included.
pub open spec fn hexadecimal(n: nat, width: nat) -> Seq<char>
    decreases width,
{
    if width == 0 {
        Seq::empty()
    } else {
        hexadecimal(n / 16, (width - 1) as nat).push(digit_char(n % 16))
    }
}

/// `n` as `width` hexadecimal digits.
pub fn hexadecimal_of(n: u64, width: u8) -> (text: String)
    ensures
        text@ == hexadecimal(n as nat, width as nat),
    decreases width,
{
    if width == 0 {
        String::new()
    } else {
        let mut text = hexadecimal_of(n / 16, width - 1);
        text.push(digit_of((n % 16) as u8));
        text
    }
}

/// Whether `c` is one of `0` to `9`.
pub open spec fn is_digit(c: char) -> bool {
    '0' <= c <= '9'
}

fn digit_is(c: char) -> (yes: bool)
    ensures
        yes == is_digit(c),
{
    '0' <= c && c <= '9'
}

/// What a run of decimal digits is worth.
pub open spec fn digits_value(digits: Seq<char>) -> nat
    decreases digits.len(),
{
    if digits.len() == 0 {
        0
    } else {
        digits_value(digits.drop_last()) * 10 + (digits.last() as nat - 48) as nat
    }
}

/// Whether every character of `text` is a decimal digit.
pub open spec fn all_digits(text: Seq<char>) -> bool {
    forall|i: int| 0 <= i < text.len() ==> is_digit(#[trigger] text[i])
}

/// The number `text` spells: digits, with at most one leading plus sign.
pub open spec fn number_in(text: Seq<char>) -> Option<nat> {
    let digits = if text.len() > 1 && text[0] == '+' {
        text.skip(1)
    } else {
        text
    };
    if digits.len() > 0 && all_digits(digits) {
        Some(digits_value(digits))
    } else {
        None
    }
}

/// The number `text` spells, when it is at most `most`.
pub open spec fn number_up_to(text: Seq<char>, most: nat) -> Option<nat> {
    match number_in(text) {
        Some(n) => if n <= most {
            Some(n)
        } else {
            None
        },
        None => None,
    }
}

proof fn lemma_digits_value_grows(digits: Seq<char>, upto: int)
    requires
        0 <= upto <= digits.len(),
        all_digits(digits),
    ensures
        digits_value(digits.take(upto)) <= digits_value(digits),
    decreases digits.len() - upto,
{
    if upto == digits.len() {
        assert(digits.take(upto) =~= digits);
    } else {
        lemma_digits_value_grows(digits, upto + 1);
        assert(digits.take(upto + 1).drop_last() =~= digits.take(upto));
        assert(digits.take(upto + 1).last() == digits[upto]);
    }
}

/// Read a number no greater than `most`, as `str::parse` reads an unsigned
/// integer.
pub fn number_of(text: &str, most: u64) -> (n: Option<u64>)
    ensures
        match n {
            Some(n) => number_up_to(text@, most as nat) == Some(n as nat),
            None => number_up_to(text@, most as nat) is None,
        },
{
    let chars = chars_of(text);
    let start: usize = if chars.len() > 1 && chars[0] == '+' {
        1
    } else {
        0
    };
    if chars.len() == start {
        return None;
    }
    let ghost digits = chars@.skip(start as int);
    proof {
        if start == 0 {
            assert(digits =~= text@);
        }
    }
    let mut only_digits = true;
    let mut scan: usize = start;
    while scan < chars.len()
        invariant
            start <= scan <= chars.len(),
            digits == chars@.skip(start as int),
            only_digits == forall|i: int| 0 <= i < scan - start ==> is_digit(#[trigger] digits[i]),
        decreases chars.len() - scan,
    {
        assert(digits[scan - start] == chars@[scan as int]);
        if !digit_is(chars[scan]) {
            only_digits = false;
        }
        scan = scan + 1;
    }
    assert(digits.len() == scan - start);
    if !only_digits {
        assert(number_in(text@) is None);
        return None;
    }
    let mut value: u64 = 0;
    let mut at: usize = start;
    while at < chars.len()
        invariant
            start <= at <= chars.len(),
            digits == chars@.skip(start as int),
            all_digits(digits),
            number_in(text@) == Some(digits_value(digits)),
            value == digits_value(digits.take(at - start)),
            value <= most,
        decreases chars.len() - at,
    {
        let ghost so_far = digits.take(at - start + 1);
        assert(is_digit(digits[at - start]));
        let digit: u64 = (chars[at] as u32 as u64) - 48;
        proof {
            assert(so_far.drop_last() =~= digits.take(at - start));
            assert(so_far.last() == chars@[at as int]);
            assert(digits_value(so_far) == value * 10 + digit);
            lemma_digits_value_grows(digits, at - start + 1);
        }
        if value > most / 10 {
            return None;
        }
        let tens: u64 = value * 10;
        if digit > most - tens {
            return None;
        }
        value = tens + digit;
        at = at + 1;
    }
    assert(digits.take(digits.len() as int) =~= digits);
    Some(value)
}

/// Writing a number in decimal and reading it back gives the number.
pub proof fn law_decimal_reads_back(n: nat)
    ensures
        number_in(decimal(n)) == Some(n),
{
    law_decimal_is_digits(n);
    let text = decimal(n);
    assert(is_digit(text[0]));
}

/// A number in decimal is one or more digits, worth the number.
pub proof fn law_decimal_is_digits(n: nat)
    ensures
        decimal(n).len() > 0,
        all_digits(decimal(n)),
        digits_value(decimal(n)) == n,
    decreases n,
{
    if n < 10 {
        let text = decimal(n);
        assert(text.drop_last() =~= Seq::<char>::empty());
        assert(digits_value(text.drop_last()) == 0);
    } else {
        law_decimal_is_digits(n / 10);
        let text = decimal(n);
        assert(text.drop_last() =~= decimal(n / 10));
    }
}

/// Two numbers that read the same in decimal are the same number.
pub proof fn law_decimal_is_injective(a: nat, b: nat)
    requires
        decimal(a) == decimal(b),
    ensures
        a == b,
{
    law_decimal_reads_back(a);
    law_decimal_reads_back(b);
}

/// How many numbers `width` hexadecimal digits can tell apart.
spec fn hexadecimal_range(width: nat) -> nat
    decreases width,
{
    if width == 0 {
        1
    } else {
        16 * hexadecimal_range((width - 1) as nat)
    }
}

proof fn lemma_hexadecimal_is_injective(a: nat, b: nat, width: nat)
    requires
        a < hexadecimal_range(width),
        b < hexadecimal_range(width),
        hexadecimal(a, width) == hexadecimal(b, width),
    ensures
        a == b,
    decreases width,
{
    if width > 0 {
        let left = hexadecimal(a, width);
        let right = hexadecimal(b, width);
        assert(left.last() == digit_char(a % 16));
        assert(right.last() == digit_char(b % 16));
        assert(left.drop_last() =~= hexadecimal(a / 16, (width - 1) as nat));
        assert(right.drop_last() =~= hexadecimal(b / 16, (width - 1) as nat));
        lemma_hexadecimal_is_injective(a / 16, b / 16, (width - 1) as nat);
    }
}

/// Sixteen hexadecimal digits tell any two 64-bit numbers apart.
pub proof fn law_hexadecimal_is_injective(a: u64, b: u64)
    requires
        hexadecimal(a as nat, 16) == hexadecimal(b as nat, 16),
    ensures
        a == b,
{
    reveal_with_fuel(hexadecimal_range, 17);
    assert(hexadecimal_range(16) == 0x1_0000_0000_0000_0000);
    lemma_hexadecimal_is_injective(a as nat, b as nat, 16);
}

/// A number below zero is its magnitude behind a minus sign.
pub proof fn law_a_sign_is_written_only_below_zero(n: nat)
    ensures
        signed_decimal(n as int) == decimal(n),
        n > 0 ==> signed_decimal(-n) == seq!['-'] + decimal(n),
{
    reveal_strlit("-");
    assert("-"@ =~= seq!['-']);
}

/// A plus sign or zeros before a number do not change it; any other character
/// in the text makes it no number.
pub proof fn law_only_digits_are_a_number(n: nat, text: Seq<char>, at: int)
    ensures
        number_in(seq!['+'] + decimal(n)) == Some(n),
        number_in(seq!['0'] + decimal(n)) == Some(n),
        number_in(Seq::empty()) is None,
        0 <= at < text.len() && !('0' <= text[at] <= '9') && (at > 0 || text[at] != '+')
            ==> number_in(text) is None,
{
    let digits = decimal(n);
    law_decimal_is_digits(n);
    let signed = seq!['+'] + digits;
    assert(signed.skip(1) =~= digits);
    let padded = seq!['0'] + digits;
    assert(padded[0] == '0');
    assert forall|i: int| 0 <= i < padded.len() implies is_digit(#[trigger] padded[i]) by {
        if i > 0 {
            assert(padded[i] == digits[i - 1]);
        }
    }
    lemma_a_zero_adds_nothing(digits);
    if 0 <= at < text.len() && !('0' <= text[at] <= '9') && (at > 0 || text[at] != '+') {
        if text.len() > 1 && text[0] == '+' {
            assert(text.skip(1)[at - 1] == text[at]);
            assert(!is_digit(text.skip(1)[at - 1]));
        } else {
            assert(!is_digit(text[at]));
        }
    }
}

proof fn lemma_a_zero_adds_nothing(digits: Seq<char>)
    ensures
        digits_value(seq!['0'] + digits) == digits_value(digits),
    decreases digits.len(),
{
    let padded = seq!['0'] + digits;
    if digits.len() > 0 {
        lemma_a_zero_adds_nothing(digits.drop_last());
        assert(padded.drop_last() =~= seq!['0'] + digits.drop_last());
        assert(padded.last() == digits.last());
    } else {
        assert(padded.drop_last() =~= digits);
        assert(padded.last() == '0');
        assert(digits_value(padded) == digits_value(digits) * 10 + ('0' as nat - 48) as nat);
    }
}

/// As many hexadecimal digits are written as were asked for, each one of `0`
/// to `9` and `a` to `f`, the lowest last.
pub proof fn law_hexadecimal_digits_stand_in_order(n: nat, width: nat)
    ensures
        hexadecimal(n, width).len() == width,
        forall|i: int|
            0 <= i < width ==> ({
                let c = #[trigger] hexadecimal(n, width)[i];
                '0' <= c <= '9' || 'a' <= c <= 'f'
            }),
        width > 0 ==> hexadecimal(n, width).last() as nat == (if n % 16 < 10 {
            48 + n % 16
        } else {
            87 + n % 16
        }),
    decreases width,
{
    if width > 0 {
        law_hexadecimal_digits_stand_in_order(n / 16, (width - 1) as nat);
    }
}

} // verus!
