//! Small string helpers that the messages of the library are built from.

use vstd::prelude::*;

verus! {

/// `String::push` appends one character at the end.
pub assume_specification[ String::push ](text: &mut String, ch: char)
    ensures
        final(text)@ == old(text)@.push(ch),
;

/// The character of a decimal digit.
pub open spec fn digit_char(d: nat) -> char {
    (48 + d) as char
}

/// The decimal digits of a number, without leading zeros.
pub open spec fn decimal_digits(n: nat) -> Seq<char>
    decreases n,
{
    if n < 10 {
        seq![digit_char(n)]
    } else {
        decimal_digits(n / 10).push(digit_char(n % 10))
    }
}

/// Writes a number in decimal.
pub fn decimal(n: u64) -> (text: String)
    ensures
        text@ == decimal_digits(n as nat),
    decreases n,
{
    let digit: u8 = (n % 10) as u8;
    if n < 10 {
        let mut text: String = String::new();
        text.push((48 + digit) as char);
        text
    } else {
        let mut text: String = decimal(n / 10);
        text.push((48 + digit) as char);
        text
    }
}

/// The text of a signed number.
pub open spec fn signed_digits(n: int) -> Seq<char> {
    if n < 0 {
        seq!['-'] + decimal_digits((-n) as nat)
    } else {
        decimal_digits(n as nat)
    }
}

/// Writes a signed number in decimal.
pub fn signed_decimal(n: i64) -> (text: String)
    ensures
        text@ == signed_digits(n as int),
{
    if n >= 0 {
        decimal(n as u64)
    } else {
        let magnitude: u64 = (-(n as i128)) as u64;
        let mut text: String = String::new();
        text.push('-');
        let digits: String = decimal(magnitude);
        text.append(digits.as_str());
        text
    }
}

/// Whether two strings hold the same characters.
pub fn same_text(a: &str, b: &str) -> (same: bool)
    ensures
        same == (a@ == b@),
{
    a.to_owned() == b.to_owned()
}

/// Whether a character is a decimal digit.
pub open spec fn is_digit(ch: char) -> bool {
    48 <= ch as int <= 57
}

/// Whether text is one or more decimal digits.
pub open spec fn all_digits(text: Seq<char>) -> bool {
    text.len() >= 1 && forall|i: int| 0 <= i < text.len() ==> is_digit(#[trigger] text[i])
}

/// The number that decimal digits stand for.
pub open spec fn digits_value(text: Seq<char>) -> nat
    decreases text.len(),
{
    if text.len() == 0 {
        0
    } else {
        10 * digits_value(text.drop_last()) + (text.last() as int - 48) as nat
    }
}

/// The digits after an optional leading `+`.
pub open spec fn unsigned_part(text: Seq<char>) -> Seq<char> {
    if text.len() > 0 && text[0] == '+' {
        text.drop_first()
    } else {
        text
    }
}

/// Whether text is an unsigned decimal number of at most `most`.
pub open spec fn is_number(text: Seq<char>, most: int) -> bool {
    all_digits(unsigned_part(text)) && digits_value(unsigned_part(text)) <= most
}

/// A longer run of digits stands for no smaller a number.
proof fn lemma_prefix_value(text: Seq<char>, n: int)
    requires
        0 <= n <= text.len(),
        forall|i: int| 0 <= i < text.len() ==> is_digit(#[trigger] text[i]),
    ensures
        digits_value(text.take(n)) <= digits_value(text),
    decreases text.len() - n,
{
    if n < text.len() {
        lemma_prefix_value(text, n + 1);
        assert(text.take(n + 1).drop_last() =~= text.take(n));
        assert(text.take(n + 1).last() == text[n]);
    } else {
        assert(text.take(n) =~= text);
    }
}

/// Reads digits from position `from` to the end; nothing where there are none,
/// where something else stands among them, or where the number is too large.
fn read_digits(text: &str, from: usize) -> (number: Option<u64>)
    requires
        from <= text@.len(),
    ensures
        number is Some <==> all_digits(text@.skip(from as int)) && digits_value(
            text@.skip(from as int),
        ) <= u64::MAX,
        number matches Some(n) ==> n == digits_value(text@.skip(from as int)),
{
    let len: usize = text.unicode_len();
    let ghost digits = text@.skip(from as int);
    if from == len {
        return None;
    }
    let mut value: u64 = 0;
    let mut i: usize = from;
    assert(digits.take(0) =~= Seq::empty());
    while i < len
        invariant
            from <= i <= len == text@.len(),
            from < len,
            digits == text@.skip(from as int),
            forall|k: int| 0 <= k < i - from ==> is_digit(#[trigger] digits[k]),
            value == digits_value(digits.take(i - from)),
        decreases len - i,
    {
        let code: u32 = text.get_char(i) as u32;
        assert(digits[i - from] == text@[i as int]);
        if code < 48 || code > 57 {
            assert(!is_digit(digits[i - from]));
            return None;
        }
        let digit: u64 = (code - 48) as u64;
        proof {
            assert(digits.take(i + 1 - from).drop_last() =~= digits.take(i - from));
            assert(digits.take(i + 1 - from).last() == digits[i - from]);
        }
        if value > (u64::MAX - digit) / 10 {
            proof {
                if all_digits(digits) {
                    lemma_prefix_value(digits, i + 1 - from);
                }
            }
            return None;
        }
        value = value * 10 + digit;
        i = i + 1;
    }
    assert(digits.take(len - from) =~= digits);
    Some(value)
}

/// Reads an unsigned decimal number, with an optional leading `+`.
pub fn parse_u64(text: &str) -> (number: Option<u64>)
    ensures
        number is Some <==> is_number(text@, u64::MAX as int),
        number matches Some(n) ==> n == digits_value(unsigned_part(text@)),
{
    if text.unicode_len() > 0 && text.get_char(0) == '+' {
        assert(text@.skip(1) =~= text@.drop_first());
        read_digits(text, 1)
    } else {
        assert(text@.skip(0) =~= text@);
        read_digits(text, 0)
    }
}

/// Reads an unsigned decimal number that fits in 32 bits.
pub fn parse_u32(text: &str) -> (number: Option<u32>)
    ensures
        number is Some <==> is_number(text@, u32::MAX as int),
        number matches Some(n) ==> n == digits_value(unsigned_part(text@)),
{
    match parse_u64(text) {
        Some(n) => if n <= u32::MAX as u64 {
            Some(n as u32)
        } else {
            None
        },
        None => None,
    }
}

/// Whether text is a signed decimal number in the 64-bit range.
pub open spec fn is_signed_number(text: Seq<char>) -> bool {
    if text.len() > 0 && text[0] == '-' {
        all_digits(text.drop_first()) && digits_value(text.drop_first()) <= i64::MAX + 1
    } else {
        is_number(text, i64::MAX as int)
    }
}

/// The number that signed decimal text stands for.
pub open spec fn signed_value(text: Seq<char>) -> int {
    if text.len() > 0 && text[0] == '-' {
        -(digits_value(text.drop_first()) as int)
    } else {
        digits_value(unsigned_part(text)) as int
    }
}

/// Reads a signed decimal number.
pub fn parse_i64(text: &str) -> (number: Option<i64>)
    ensures
        number is Some <==> is_signed_number(text@),
        number matches Some(n) ==> n == signed_value(text@),
{
    if text.unicode_len() > 0 && text.get_char(0) == '-' {
        assert(text@.skip(1) =~= text@.drop_first());
        match read_digits(text, 1) {
            Some(n) => if n <= 0x8000_0000_0000_0000 {
                Some((-(n as i128)) as i64)
            } else {
                None
            },
            None => None,
        }
    } else {
        match parse_u64(text) {
            Some(n) => if n <= i64::MAX as u64 {
                Some(n as i64)
            } else {
                None
            },
            None => None,
        }
    }
}

/// The UTF-8 encoding of text.
pub open spec fn utf8(text: Seq<char>) -> Seq<u8> {
    vstd::utf8::encode_utf8(text)
}

/// Joins two pieces of text.
pub fn joined(a: &str, b: &str) -> (text: String)
    ensures
        text@ == a@ + b@,
{
    let mut text: String = a.to_owned();
    text.append(b);
    text
}

/// What the standard library's debug formatting makes of a string: the characters
/// in double quotes, with those that cannot stand there escaped.
pub uninterp spec fn debug_form(text: Seq<char>) -> Seq<char>;

/// Formats a string with `{:?}` (the `Debug` impl of `str`). The result depends on
/// the characters alone; which of them are escaped, and how, is left unsaid.
#[verifier::external_body]
pub(crate) fn debug_quoted(text: &str) -> (quoted: String)
    ensures
        quoted@ == debug_form(text@),
{
    format!("{:?}", text)
}

/// A number reads back: its decimal digits are digits without a leading zero, and stand
/// for the number.
pub proof fn law_decimal_reads_back(n: nat)
    ensures
        all_digits(decimal_digits(n)),
        digits_value(decimal_digits(n)) == n,
        n > 0 ==> decimal_digits(n)[0] != '0',
        n < 10 ==> decimal_digits(n).len() == 1,
    decreases n,
{
    let text = decimal_digits(n);
    if n >= 10 {
        let head = decimal_digits(n / 10);
        law_decimal_reads_back(n / 10);
        assert(text.drop_last() =~= head);
        assert(text.last() as int == 48 + n % 10);
        assert(text[0] == head[0]);
        assert forall|i: int| 0 <= i < text.len() implies is_digit(#[trigger] text[i]) by {
            if i < head.len() {
                assert(is_digit(head[i]));
            }
        }
    } else {
        assert(text.drop_last() =~= Seq::empty());
        assert(digits_value(Seq::<char>::empty()) == 0);
        assert(text.last() as int == 48 + n);
    }
}

/// No two numbers have the same digits.
pub proof fn law_decimals_are_told_apart(a: nat, b: nat)
    requires
        a != b,
    ensures
        decimal_digits(a) != decimal_digits(b),
{
    law_decimal_reads_back(a);
    law_decimal_reads_back(b);
}

/// What is written of a number can be read: as a number where it is no larger than the
/// largest that may be read, with or without a plus sign, and as no number otherwise.
pub proof fn law_written_numbers_are_numbers(n: nat, most: int)
    ensures
        is_number(decimal_digits(n), most) <==> n <= most,
        is_number(seq!['+'] + decimal_digits(n), most) <==> n <= most,
        digits_value(unsigned_part(decimal_digits(n))) == n,
        digits_value(unsigned_part(seq!['+'] + decimal_digits(n))) == n,
{
    law_decimal_reads_back(n);
    let text = decimal_digits(n);
    assert(is_digit(text[0]));
    assert((seq!['+'] + text).drop_first() =~= text);
}

/// A signed number reads back.
pub proof fn law_signed_reads_back(n: int)
    ensures
        signed_value(signed_digits(n)) == n,
        is_signed_number(signed_digits(n)) <==> i64::MIN <= n <= i64::MAX,
{
    let m = if n < 0 { (-n) as nat } else { n as nat };
    law_decimal_reads_back(m);
    law_written_numbers_are_numbers(m, i64::MAX as int);
    let text = decimal_digits(m);
    assert(is_digit(text[0]));
    assert((seq!['-'] + text).drop_first() =~= text);
}

/// Leading zeros do not count, and a digit more at the end makes ten times the number
/// and the digit.
pub proof fn law_digits_count_by_tens(text: Seq<char>, d: nat)
    requires
        d < 10,
    ensures
        digits_value(seq!['0'] + text) == digits_value(text),
        digits_value(text.push(digit_char(d))) == 10 * digits_value(text) + d,
        digits_value(Seq::<char>::empty()) == 0,
    decreases text.len(),
{
    assert(text.push(digit_char(d)).drop_last() =~= text);
    let long = seq!['0'] + text;
    if text.len() > 0 {
        law_digits_count_by_tens(text.drop_last(), d);
        assert(long.drop_last() =~= seq!['0'] + text.drop_last());
        assert(long.last() == text.last());
    } else {
        assert(long.drop_last() =~= Seq::empty());
        assert(long.last() == '0');
        assert(digits_value(long.drop_last()) == 0);
    }
}

/// The digits are the ten characters from zero to nine, in that order.
pub proof fn law_digits_are_ten(ch: char, d: nat)
    ensures
        is_digit(ch) <==> '0' <= ch <= '9',
        d < 10 ==> is_digit(digit_char(d)),
        d < 10 ==> digit_char(d) as int == '0' as int + d,
{
}

/// Only digits make a number, with at most one plus sign before them.
pub proof fn law_numbers_are_digits(text: Seq<char>, most: int, i: int)
    requires
        is_number(text, most),
        0 <= i < text.len(),
    ensures
        '0' <= text[i] <= '9' || (i == 0 && text[0] == '+' && text.len() >= 2),
{
    let digits = unsigned_part(text);
    if text[0] == '+' {
        if i > 0 {
            assert(digits[i - 1] == text[i]);
            assert(is_digit(digits[i - 1]));
        }
    } else {
        assert(is_digit(digits[i]));
    }
}

} // verus!
