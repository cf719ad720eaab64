//! The textual form of an amount: the integer part in decimal digits, a
//! decimal point, and four decimal digits.

use crate::errors::MyError;
use crate::four_decimals::FourDecimals;
use vstd::prelude::*;
use vstd::string::StringExecFns;
use vstd::utf8::{encode_utf8, is_ascii_chars, is_ascii_chars_encode_utf8};

verus! {

/// The byte `+`.
pub const PLUS: u8 = 43;

/// The byte `.`.
pub const DOT: u8 = 46;

/// The byte `0`.
pub const ZERO: u8 = 48;

/// Number of decimal digits in the textual form.
pub const DECIMAL_DIGITS: usize = 4;

/// `b` is one of the bytes `0` to `9`.
pub open spec fn is_digit(b: u8) -> bool {
    48 <= b <= 57
}

/// Every byte of `s` is a digit.
pub open spec fn all_digits(s: Seq<u8>) -> bool {
    forall|i: int| 0 <= i < s.len() ==> is_digit(#[trigger] s[i])
}

/// The number that the digits of `s` write in base ten.
pub open spec fn digits_value(s: Seq<u8>) -> nat
    decreases s.len(),
{
    if s.len() == 0 {
        0
    } else {
        digits_value(s.drop_last()) * 10 + (s.last() - 48) as nat
    }
}

/// `s` without its leading `+`, where it has one.
pub open spec fn unsigned_body(s: Seq<u8>) -> Seq<u8> {
    if s.len() > 0 && s[0] == 43 {
        s.skip(1)
    } else {
        s
    }
}

/// The number that `s` writes, where it is an optional `+` and then one or
/// more digits that write a number of at most `max`.
pub open spec fn number_of(s: Seq<u8>, max: nat) -> Option<nat> {
    let body = unsigned_body(s);
    if body.len() > 0 && all_digits(body) && digits_value(body) <= max {
        Some(digits_value(body))
    } else {
        None
    }
}

/// `k` is the place of the first decimal point in `s`.
pub open spec fn is_first_dot(s: Seq<u8>, k: int) -> bool {
    &&& 0 <= k < s.len()
    &&& s[k] == 46
    &&& forall|j: int| 0 <= j < k ==> #[trigger] s[j] != 46
}

/// `s` holds a decimal point.
pub open spec fn has_dot(s: Seq<u8>) -> bool {
    exists|k: int| is_first_dot(s, k)
}

/// The place of the first decimal point in a text that holds one.
pub open spec fn first_dot(s: Seq<u8>) -> int {
    choose|k: int| is_first_dot(s, k)
}

/// What a decimal part written with `len` digits is multiplied by to count
/// ten-thousandths.
pub open spec fn pad_factor(len: nat) -> nat {
    if len >= 4 {
        1
    } else if len == 3 {
        10
    } else if len == 2 {
        100
    } else {
        1000
    }
}

/// The amount that the text `s` writes, if it writes one. The text up to
/// the first decimal point is the integer part and the text behind it the
/// decimal part; a text without a decimal point has the decimal part `0`.
/// Each part is an optional `+` and then digits; the integer part fits in
/// 64 bits, and the decimal part has at most four bytes, which count from
/// the left: `1.12` is 1.1200.
pub open spec fn amount_of(s: Seq<u8>) -> Option<FourDecimals> {
    let whole = if has_dot(s) {
        s.take(first_dot(s))
    } else {
        s
    };
    let fraction = if has_dot(s) {
        s.skip(first_dot(s) + 1)
    } else {
        seq![48u8]
    };
    match (number_of(whole, 0xffff_ffff_ffff_ffff), number_of(fraction, 0xffff)) {
        (Some(n), Some(f)) => if fraction.len() <= 4 {
            Some(
                FourDecimals {
                    integer: n as u64,
                    decimal: (f * pad_factor(fraction.len())) as u16,
                },
            )
        } else {
            None
        },
        _ => None,
    }
}

/// The result of parsing the text `s`.
pub open spec fn parse_result(s: Seq<u8>) -> Result<FourDecimals, MyError> {
    match amount_of(s) {
        Some(a) => Ok(a),
        None => Err(MyError::MalformedAmount),
    }
}

/// The decimal digits of `n`, without leading zeros.
pub open spec fn digits_of(n: nat) -> Seq<u8>
    decreases n,
{
    if n < 10 {
        seq![(48 + n) as u8]
    } else {
        digits_of(n / 10).push((48 + n % 10) as u8)
    }
}

/// The four digits of a decimal part `d` below 10000.
pub open spec fn decimal_digits(d: nat) -> Seq<u8> {
    seq![
        (48 + d / 1000) as u8,
        (48 + d / 100 % 10) as u8,
        (48 + d / 10 % 10) as u8,
        (48 + d % 10) as u8,
    ]
}

/// The textual form of `a`.
pub open spec fn text_of(a: FourDecimals) -> Seq<u8> {
    digits_of(a.integer as nat) + seq![46u8] + decimal_digits(a.decimal as nat)
}

/// The digits of a number are digits, at least one, and write that number.
pub proof fn lemma_digits_of(n: nat)
    ensures
        digits_of(n).len() > 0,
        all_digits(digits_of(n)),
        digits_value(digits_of(n)) == n,
    decreases n,
{
    if n < 10 {
        let s = digits_of(n);
        assert(s.drop_last() =~= Seq::<u8>::empty());
        assert(digits_value(s.drop_last()) == 0);
    } else {
        lemma_digits_of(n / 10);
        let s = digits_of(n);
        assert(s.drop_last() =~= digits_of(n / 10));
    }
}

/// The four digits of a decimal part write it.
pub proof fn lemma_decimal_digits(d: nat)
    requires
        d < 10000,
    ensures
        all_digits(decimal_digits(d)),
        digits_value(decimal_digits(d)) == d,
{
    let s4 = decimal_digits(d);
    let s3 = s4.drop_last();
    let s2 = s3.drop_last();
    let s1 = s2.drop_last();
    let s0 = s1.drop_last();
    assert(s0 =~= Seq::<u8>::empty());
    assert(digits_value(s0) == 0);
    assert(digits_value(s1) == d / 1000);
    assert(digits_value(s2) == d / 100);
    assert(digits_value(s3) == d / 10);
}

/// Parsing the textual form of a valid amount gives the amount back.
pub proof fn law_parse_format(a: FourDecimals)
    requires
        a.wf(),
    ensures
        amount_of(text_of(a)) == Some(a),
        parse_result(text_of(a)) == Ok::<FourDecimals, MyError>(a),
{
    let whole = digits_of(a.integer as nat);
    let fraction = decimal_digits(a.decimal as nat);
    let s = text_of(a);
    let k = whole.len() as int;
    lemma_digits_of(a.integer as nat);
    lemma_decimal_digits(a.decimal as nat);
    assert(is_first_dot(s, k));
    assert(first_dot(s) == k) by {
        let c = first_dot(s);
        assert(is_first_dot(s, c));
        if c < k {
            assert(is_digit(whole[c]));
        }
    }
    assert(s.take(k) =~= whole);
    assert(s.skip(k + 1) =~= fraction);
    assert(is_digit(whole[0]));
    assert(is_digit(fraction[0]));
}

/// Reads the number in `bytes[start..end]`.
fn parse_number(bytes: &[u8], start: usize, end: usize, max: u64) -> (r: Option<u64>)
    requires
        start <= end <= bytes@.len(),
    ensures
        r is Some == number_of(bytes@.subrange(start as int, end as int), max as nat) is Some,
        r is Some ==> r->0 as nat == number_of(
            bytes@.subrange(start as int, end as int),
            max as nat,
        )->0,
{
    let ghost segment = bytes@.subrange(start as int, end as int);
    let mut i: usize = start;
    if i < end && bytes[i] == PLUS {
        i += 1;
    }
    let begin: usize = i;
    assert(unsigned_body(segment) =~= bytes@.subrange(begin as int, end as int));
    if i == end {
        return None;
    }
    let mut value: u64 = 0;
    let mut fits: bool = true;
    assert(bytes@.subrange(begin as int, i as int) =~= Seq::<u8>::empty());
    while i < end
        invariant
            start <= begin <= i <= end <= bytes@.len(),
            unsigned_body(bytes@.subrange(start as int, end as int)) == bytes@.subrange(
                begin as int,
                end as int,
            ),
            all_digits(bytes@.subrange(begin as int, i as int)),
            fits ==> value as nat == digits_value(bytes@.subrange(begin as int, i as int)),
            fits ==> value <= max,
            !fits ==> digits_value(bytes@.subrange(begin as int, i as int)) > max,
        decreases end - i,
    {
        let b: u8 = bytes[i];
        let ghost before = bytes@.subrange(begin as int, i as int);
        let ghost after = bytes@.subrange(begin as int, i + 1);
        assert(after.drop_last() =~= before);
        assert(after.last() == b);
        if b < ZERO || b > 57 {
            proof {
                let body = bytes@.subrange(begin as int, end as int);
                assert(body[i - begin] == b);
            }
            return None;
        }
        let digit: u64 = (b - ZERO) as u64;
        if fits {
            if value > max / 10 {
                fits = false;
            } else if digit > max - value * 10 {
                fits = false;
            } else {
                value = value * 10 + digit;
            }
        }
        i += 1;
    }
    assert(bytes@.subrange(begin as int, i as int) =~= unsigned_body(segment));
    if fits {
        Some(value)
    } else {
        None
    }
}

/// Appends the decimal digits of `n` to `out`.
fn push_digits(n: u64, out: &mut Vec<u8>)
    ensures
        final(out)@ == old(out)@ + digits_of(n as nat),
    decreases n,
{
    if n >= 10 {
        push_digits(n / 10, out);
    }
    let digit: u8 = (n % 10) as u8;
    out.push(ZERO + digit);
    assert(out@ =~= old(out)@ + digits_of(n as nat));
}

/// The one-character text of a digit or of the decimal point.
fn ascii_text(b: u8) -> (r: &'static str)
    requires
        is_digit(b) || b == 46,
    ensures
        r@ == seq![b as char],
{
    proof {
        reveal_strlit("0");
        reveal_strlit("1");
        reveal_strlit("2");
        reveal_strlit("3");
        reveal_strlit("4");
        reveal_strlit("5");
        reveal_strlit("6");
        reveal_strlit("7");
        reveal_strlit("8");
        reveal_strlit("9");
        reveal_strlit(".");
    }
    let r = if b == 48 {
        "0"
    } else if b == 49 {
        "1"
    } else if b == 50 {
        "2"
    } else if b == 51 {
        "3"
    } else if b == 52 {
        "4"
    } else if b == 53 {
        "5"
    } else if b == 54 {
        "6"
    } else if b == 55 {
        "7"
    } else if b == 56 {
        "8"
    } else if b == 57 {
        "9"
    } else {
        "."
    };
    assert(r@ =~= seq![b as char]);
    r
}

impl FourDecimals {
    /// Reads an amount from its text, given by its UTF-8 bytes: see
    /// `amount_of` for the texts that write one. Every other text is a
    /// `MalformedAmount`.
    pub fn parse(text: &str) -> (r: Result<FourDecimals, MyError>)
        ensures
            r == parse_result(encode_utf8(text@)),
            r is Ok ==> r->Ok_0.wf(),
    {
        let bytes = text.as_bytes();
        let n: usize = bytes.len();
        let mut k: usize = 0;
        while k < n && bytes[k] != DOT
            invariant
                k <= n == bytes@.len(),
                forall|j: int| 0 <= j < k ==> #[trigger] bytes@[j] != 46,
            decreases n - k,
        {
            k += 1;
        }
        let ghost s = bytes@;
        if k == n {
            assert(!has_dot(s));
            assert(s.subrange(0, n as int) =~= s);
            proof {
                let zero = seq![48u8];
                assert(zero.drop_last() =~= Seq::<u8>::empty());
                assert(digits_value(zero.drop_last()) == 0);
                assert(digits_value(zero) == 0);
                assert(is_digit(zero[0]));
            }
            match parse_number(bytes, 0, n, u64::MAX) {
                Some(integer) => Ok(FourDecimals { integer, decimal: 0 }),
                None => Err(MyError::MalformedAmount),
            }
        } else {
            assert(is_first_dot(s, k as int));
            assert(first_dot(s) == k);
            assert(s.subrange(0, k as int) =~= s.take(k as int));
            assert(s.subrange(k + 1, n as int) =~= s.skip(k + 1));
            let decimal_len: usize = n - k - 1;
            if decimal_len > DECIMAL_DIGITS {
                return Err(MyError::MalformedAmount);
            }
            let integer = match parse_number(bytes, 0, k, u64::MAX) {
                Some(integer) => integer,
                None => {
                    return Err(MyError::MalformedAmount);
                },
            };
            let written = match parse_number(bytes, k + 1, n, 0xffff) {
                Some(written) => written,
                None => {
                    return Err(MyError::MalformedAmount);
                },
            };
            proof {
                lemma_digits_bound(unsigned_body(s.skip(k + 1)));
            }
            let factor: u64 = if decimal_len >= 4 {
                1
            } else if decimal_len == 3 {
                10
            } else if decimal_len == 2 {
                100
            } else {
                1000
            };
            let decimal: u64 = written * factor;
            Ok(FourDecimals { integer, decimal: decimal as u16 })
        }
    }

    /// Writes the amount: the integer part in decimal digits, a decimal
    /// point, and the decimal part in four digits.
    pub fn format(&self) -> (s: String)
        requires
            self.wf(),
        ensures
            is_ascii_chars(s@),
            encode_utf8(s@) == text_of(*self),
    {
        let mut bytes: Vec<u8> = Vec::new();
        push_digits(self.integer, &mut bytes);
        bytes.push(DOT);
        bytes.push(ZERO + (self.decimal / 1000) as u8);
        bytes.push(ZERO + (self.decimal / 100 % 10) as u8);
        bytes.push(ZERO + (self.decimal / 10 % 10) as u8);
        bytes.push(ZERO + (self.decimal % 10) as u8);
        assert(bytes@ =~= text_of(*self));
        proof {
            lemma_digits_of(self.integer as nat);
            lemma_decimal_digits(self.decimal as nat);
        }
        let mut s = String::new();
        let mut i: usize = 0;
        while i < bytes.len()
            invariant
                i <= bytes@.len(),
                s@.len() == i,
                forall|j: int| 0 <= j < bytes@.len() ==> is_digit(#[trigger] bytes@[j]) || bytes@[j] == 46,
                forall|j: int| 0 <= j < i ==> #[trigger] s@[j] == bytes@[j] as char,
            decreases bytes@.len() - i,
        {
            s.append(ascii_text(bytes[i]));
            i += 1;
        }
        proof {
            is_ascii_chars_encode_utf8(s@);
            assert(encode_utf8(s@) =~= bytes@);
        }
        s
    }
}

/// A number written with at most four digits is below ten thousand, and
/// stays so when it is padded to four digits.
proof fn lemma_digits_bound(s: Seq<u8>)
    requires
        all_digits(s),
        s.len() <= 4,
    ensures
        s.len() == 0 ==> digits_value(s) == 0,
        s.len() == 1 ==> digits_value(s) < 10,
        s.len() == 2 ==> digits_value(s) < 100,
        s.len() == 3 ==> digits_value(s) < 1000,
        digits_value(s) < 10000,
        digits_value(s) * pad_factor(s.len()) < 10000,
    decreases s.len(),
{
    if s.len() > 0 {
        lemma_digits_bound(s.drop_last());
        assert(is_digit(s.last()));
    }
}

} // verus!
