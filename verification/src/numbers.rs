//! Numbers as text: decimal and hexadecimal digits, and reading them back.

use vstd::prelude::*;
use vstd::string::*;

use crate::text::chars_of;

verus! {

/// The character of a decimal digit.
pub open spec fn digit_char(digit: int) -> char {
    (0x30 + digit) as u8 as char
}

/// A number in decimal digits, without leading zeros.
pub open spec fn decimal_text(n: nat) -> Seq<char>
    decreases n,
{
    if n < 10 {
        seq![digit_char(n as int)]
    } else {
        decimal_text(n / 10).push(digit_char(n as int % 10))
    }
}

/// A signed number in decimal digits.
pub open spec fn signed_text(n: int) -> Seq<char> {
    if n < 0 {
        "-"@ + decimal_text((-n) as nat)
    } else {
        decimal_text(n as nat)
    }
}

/// The character of a lower-case hexadecimal digit.
pub open spec fn hex_char(digit: int) -> char {
    if digit < 10 {
        (0x30 + digit) as u8 as char
    } else {
        (0x61 + digit - 10) as u8 as char
    }
}

/// The last `width` hexadecimal digits of a number.
pub open spec fn hex_text(n: nat, width: nat) -> Seq<char>
    decreases width,
{
    if width == 0 {
        Seq::empty()
    } else {
        hex_text(n / 16, (width - 1) as nat).push(hex_char(n as int % 16))
    }
}

/// The number that decimal digits stand for.
pub open spec fn digits_value(digits: Seq<char>) -> int
    decreases digits.len(),
{
    if digits.len() == 0 {
        0
    } else {
        digits_value(digits.drop_last()) * 10 + (digits.last() as int - 0x30)
    }
}

/// Decimal digits and nothing else.
pub open spec fn all_digits(s: Seq<char>) -> bool {
    forall|i: int| 0 <= i < s.len() ==> '0' <= #[trigger] s[i] <= '9'
}

/// The 32-bit number that a text denotes: digits behind an optional plus sign.
pub open spec fn parsed_u32(s: Seq<char>) -> Option<u32> {
    let digits = if s.len() > 0 && s[0] == '+' {
        s.skip(1)
    } else {
        s
    };
    if digits.len() > 0 && all_digits(digits) && digits_value(digits) <= u32::MAX {
        Some(digits_value(digits) as u32)
    } else {
        None
    }
}

/// A number in decimal digits.
pub fn decimal(n: u64) -> (r: String)
    ensures
        r@ == decimal_text(n as nat),
    decreases n,
{
    if n < 10 {
        let mut r: String = String::new();
        r.push((0x30 + n as u8) as char);
        proof {
            assert(r@ =~= decimal_text(n as nat));
        }
        r
    } else {
        let mut r: String = decimal(n / 10);
        r.push((0x30 + (n % 10) as u8) as char);
        r
    }
}

/// A signed number in decimal digits.
pub fn signed_decimal(n: i64) -> (r: String)
    ensures
        r@ == signed_text(n as int),
{
    if n < 0 {
        let magnitude: u64 = (-(n as i128)) as u64;
        let mut r: String = "-".to_owned();
        r.append(decimal(magnitude).as_str());
        r
    } else {
        decimal(n as u64)
    }
}

/// The last `width` lower-case hexadecimal digits of a number.
pub fn hex(n: u64, width: usize) -> (r: String)
    ensures
        r@ == hex_text(n as nat, width as nat),
    decreases width,
{
    if width == 0 {
        String::new()
    } else {
        let mut r: String = hex(n / 16, width - 1);
        let digit: u8 = (n % 16) as u8;
        if digit < 10 {
            r.push((0x30 + digit) as char);
        } else {
            r.push((0x61 + digit - 10) as char);
        }
        r
    }
}

proof fn lemma_digits_step(digits: Seq<char>, i: int)
    requires
        0 <= i < digits.len(),
        all_digits(digits),
    ensures
        digits_value(digits.take(i + 1)) == digits_value(digits.take(i)) * 10 + (digits[i] as int
            - 0x30),
{
    assert(digits.take(i + 1).drop_last() =~= digits.take(i));
    assert(digits.take(i + 1).last() == digits[i]);
}

proof fn lemma_digits_grow(digits: Seq<char>, i: int)
    requires
        0 <= i <= digits.len(),
        all_digits(digits),
    ensures
        0 <= digits_value(digits.take(i)) <= digits_value(digits),
    decreases digits.len() - i,
{
    if i == digits.len() {
        assert(digits.take(i) =~= digits);
        lemma_digits_nonnegative(digits);
    } else {
        lemma_digits_grow(digits, i + 1);
        lemma_digits_step(digits, i);
        assert(all_digits(digits.take(i)));
        lemma_digits_nonnegative(digits.take(i));
    }
}

proof fn lemma_digits_nonnegative(digits: Seq<char>)
    requires
        all_digits(digits),
    ensures
        digits_value(digits) >= 0,
    decreases digits.len(),
{
    if digits.len() > 0 {
        assert(all_digits(digits.drop_last()));
        lemma_digits_nonnegative(digits.drop_last());
        assert('0' <= digits[digits.len() - 1] <= '9');
    }
}

/// Read a 32-bit number: digits behind an optional plus sign.
pub fn parse_u32(s: &str) -> (r: Option<u32>)
    ensures
        r == parsed_u32(s@),
{
    let chars = chars_of(s);
    let start: usize = if chars.len() > 0 && chars[0] == '+' {
        1
    } else {
        0
    };
    let ghost digits = if s@.len() > 0 && s@[0] == '+' {
        s@.skip(1)
    } else {
        s@
    };
    proof {
        assert(digits =~= s@.skip(start as int));
    }
    if start == chars.len() {
        return None;
    }
    let mut i: usize = start;
    while i < chars.len()
        invariant
            chars@ == s@,
            start <= i <= chars@.len(),
            digits == s@.skip(start as int),
            digits == (if s@.len() > 0 && s@[0] == '+' {
                s@.skip(1)
            } else {
                s@
            }),
            forall|j: int| start <= j < i ==> '0' <= #[trigger] chars@[j] <= '9',
        decreases chars@.len() - i,
    {
        if chars[i] < '0' || chars[i] > '9' {
            proof {
                assert(digits[i - start] == chars@[i as int]);
            }
            return None;
        }
        i = i + 1;
    }
    proof {
        assert forall|j: int| 0 <= j < digits.len() implies '0' <= #[trigger] digits[j] <= '9' by {
            assert(digits[j] == chars@[j + start]);
        }
        assert(digits.take(0) =~= Seq::<char>::empty());
    }
    let mut value: u64 = 0;
    let mut k: usize = start;
    while k < chars.len()
        invariant
            chars@ == s@,
            start <= k <= chars@.len(),
            digits == s@.skip(start as int),
            digits == (if s@.len() > 0 && s@[0] == '+' {
                s@.skip(1)
            } else {
                s@
            }),
            all_digits(digits),
            value == digits_value(digits.take(k - start)),
            value <= u32::MAX,
        decreases chars@.len() - k,
    {
        proof {
            lemma_digits_step(digits, k - start);
            lemma_digits_grow(digits, k - start + 1);
            assert('0' <= digits[k - start] <= '9');
        }
        let digit: u32 = chars[k] as u32 - 0x30;
        value = value * 10 + digit as u64;
        k = k + 1;
        if value > 0xffff_ffff {
            return None;
        }
    }
    proof {
        assert(digits.take(k - start) =~= digits);
    }
    Some(value as u32)
}

/// What `decimal` writes, `digits_value` reads.
pub proof fn lemma_decimal_round_trip(n: nat)
    ensures
        all_digits(decimal_text(n)),
        decimal_text(n).len() > 0,
        digits_value(decimal_text(n)) == n,
    decreases n,
{
    if n < 10 {
        let s = decimal_text(n);
        assert(s.drop_last() =~= Seq::<char>::empty());
        assert(digits_value(s.drop_last()) == 0);
        assert(s.last() as int == 0x30 + n);
    } else {
        lemma_decimal_round_trip(n / 10);
        let s = decimal_text(n);
        let d = n as int % 10;
        assert(s.drop_last() =~= decimal_text(n / 10));
        assert(s.last() as int == 0x30 + d);
        assert forall|i: int| 0 <= i < s.len() implies '0' <= #[trigger] s[i] <= '9' by {
            if i < s.len() - 1 {
                assert(s[i] == decimal_text(n / 10)[i]);
            }
        }
    }
}

/// One more digit is ten times as much and the digit's value; the digits are `0` to `9`.
pub proof fn lemma_value_of_digits(digits: Seq<char>, digit: char)
    ensures
        digits_value(digits.push(digit)) == digits_value(digits) * 10 + (digit as int - '0' as int),
        digits_value(Seq::empty()) == 0,
{
    assert(digits.push(digit).drop_last() =~= digits);
}

/// A number is written without leading zeros.
pub proof fn lemma_no_leading_zero(n: nat)
    requires
        n > 0,
    ensures
        decimal_text(n)[0] != '0',
    decreases n,
{
    if n >= 10 {
        lemma_no_leading_zero(n / 10);
        lemma_decimal_round_trip(n / 10);
    } else {
        assert(decimal_text(n)[0] as int == 0x30 + n);
    }
}

/// A number that was written is read back, with a plus sign before it or without.
pub proof fn lemma_read_back(n: u32)
    ensures
        parsed_u32(decimal_text(n as nat)) == Some(n),
        parsed_u32(seq!['+'] + decimal_text(n as nat)) == Some(n),
{
    let s = decimal_text(n as nat);
    lemma_decimal_round_trip(n as nat);
    assert('0' <= s[0] <= '9');
    assert((seq!['+'] + s).skip(1) =~= s);
}

/// Nothing else is read: no empty text, no sign alone, no other character and no number that does
/// not fit.
pub proof fn lemma_what_is_not_read(s: Seq<char>, i: int)
    ensures
        s.len() == 0 ==> parsed_u32(s) is None,
        s == seq!['+'] ==> parsed_u32(s) is None,
        0 < i < s.len() && !('0' <= s[i] <= '9') ==> parsed_u32(s) is None,
        s.len() > 0 && s[0] != '+' && !('0' <= s[0] <= '9') ==> parsed_u32(s) is None,
        s.len() > 0 && s[0] != '+' && digits_value(s) > u32::MAX ==> parsed_u32(s) is None,
{
    if 0 < i < s.len() && s[0] == '+' {
        assert(s.skip(1)[i - 1] == s[i]);
    }
    if s == seq!['+'] {
        assert(s.skip(1).len() == 0);
    }
}

/// A negative number is its magnitude behind a minus sign; any other is written without a sign.
pub proof fn lemma_sign(n: int)
    ensures
        n < 0 ==> signed_text(n)[0] == '-' && signed_text(n).skip(1) == decimal_text((-n) as nat),
        n >= 0 ==> signed_text(n) == decimal_text(n as nat),
{
    reveal_strlit("-");
    if n < 0 {
        assert(signed_text(n).skip(1) =~= decimal_text((-n) as nat));
    }
}

/// Hexadecimal digits stand for sixteenths: a number has as many as are asked for, one more digit is
/// sixteen times as much, and the digits above nine are lower-case letters.
pub proof fn lemma_hex_digits(n: nat, width: nat, digit: int)
    requires
        0 <= digit < 16,
    ensures
        hex_text(n, width).len() == width,
        hex_text((n * 16 + digit) as nat, width + 1) == hex_text(n, width).push(hex_char(digit)),
        digit < 10 ==> hex_char(digit) as int == '0' as int + digit,
        digit >= 10 ==> hex_char(digit) as int == 'a' as int + (digit - 10),
    decreases width,
{
    if width > 0 {
        lemma_hex_digits(n / 16, (width - 1) as nat, digit);
    }
    assert((n * 16 + digit) / 16 == n);
    assert((n * 16 + digit) % 16 == digit);
}

} // verus!
