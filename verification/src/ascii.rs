//! Decimal numbers written as ASCII digits: the message length, the
//! authorization serial number and the numeric fields of a response.

use vstd::prelude::*;
use vstd::slice::slice_subrange;
use crate::error::{Error, ErrorKind};

verus! {

/// `b` is one of the ASCII characters `0` to `9`.
pub open spec fn is_ascii_digit(b: u8) -> bool {
    0x30 <= b <= 0x39
}

/// Every byte of `s` is an ASCII digit.
pub open spec fn all_digits(s: Seq<u8>) -> bool {
    forall|i: int| 0 <= i < s.len() ==> is_ascii_digit(#[trigger] s[i])
}

/// The number that the digits of `s` spell, most significant digit first.
pub open spec fn decimal_value(s: Seq<u8>) -> nat
    decreases s.len(),
{
    if s.len() == 0 {
        0
    } else {
        decimal_value(s.drop_last()) * 10 + (s.last() - 0x30) as nat
    }
}

/// What a field of ASCII digits holds: its value, if it is one digit or
/// more, nothing but digits, and no larger than `max`.
pub open spec fn ascii_number(s: Seq<u8>, max: nat) -> Option<nat> {
    if s.len() > 0 && all_digits(s) && decimal_value(s) <= max {
        Some(decimal_value(s))
    } else {
        None
    }
}

/// `b` is an ASCII blank: a space, or one of tab, line feed, vertical tab,
/// form feed and carriage return.
pub open spec fn is_ascii_space(b: u8) -> bool {
    b == 0x20 || (0x09 <= b <= 0x0d)
}

/// `s` without the blanks it starts with.
pub open spec fn trim_start(s: Seq<u8>) -> Seq<u8>
    decreases s.len(),
{
    if s.len() > 0 && is_ascii_space(s[0]) {
        trim_start(s.drop_first())
    } else {
        s
    }
}

/// `s` without the blanks it ends with.
pub open spec fn trim_end(s: Seq<u8>) -> Seq<u8>
    decreases s.len(),
{
    if s.len() > 0 && is_ascii_space(s.last()) {
        trim_end(s.drop_last())
    } else {
        s
    }
}

/// `s` without the blanks around it.
pub open spec fn trim(s: Seq<u8>) -> Seq<u8> {
    trim_end(trim_start(s))
}

/// The decimal digits of `n`, most significant first, without leading zeros.
pub open spec fn decimal_digits(n: nat) -> Seq<u8>
    decreases n,
{
    if n < 10 {
        seq![(0x30 + n) as u8]
    } else {
        decimal_digits(n / 10).push((0x30 + n % 10) as u8)
    }
}

/// `n` as a field of exactly `width` ASCII digits: padded with zeros on the
/// left, or, where `n` has more digits than fit, cut down to its leading
/// `width` digits.
pub open spec fn ascii_digits(n: nat, width: nat) -> Seq<u8> {
    let digits = decimal_digits(n);
    if digits.len() >= width {
        digits.take(width as int)
    } else {
        Seq::new((width - digits.len()) as nat, |i: int| 0x30u8) + digits
    }
}

/// Ten to the power `k`.
pub open spec fn pow10(k: nat) -> nat
    decreases k,
{
    if k == 0 {
        1
    } else {
        10 * pow10((k - 1) as nat)
    }
}

/// A prefix of a run of digits spells no more than the whole run.
pub proof fn lemma_decimal_value_prefix(s: Seq<u8>, k: int)
    requires
        0 <= k <= s.len(),
        all_digits(s),
    ensures
        decimal_value(s.take(k)) <= decimal_value(s),
    decreases s.len() - k,
{
    if k == s.len() {
        assert(s.take(k) =~= s);
    } else {
        lemma_decimal_value_prefix(s, k + 1);
        assert(s.take(k + 1).drop_last() =~= s.take(k));
        assert(is_ascii_digit(s[k]));
    }
}

/// The digits of a number are digits, and spell that number.
pub proof fn lemma_decimal_digits_value(n: nat)
    ensures
        decimal_digits(n).len() >= 1,
        all_digits(decimal_digits(n)),
        decimal_value(decimal_digits(n)) == n,
    decreases n,
{
    if n < 10 {
        let d = decimal_digits(n);
        assert(d.drop_last() =~= Seq::<u8>::empty());
        assert(decimal_value(d.drop_last()) == 0);
    } else {
        lemma_decimal_digits_value(n / 10);
        let d = decimal_digits(n);
        assert(d.drop_last() =~= decimal_digits(n / 10));
    }
}

/// A number has at most `k` digits exactly when it is below ten to the `k`.
pub proof fn lemma_decimal_digits_len(n: nat, k: nat)
    requires
        k >= 1,
    ensures
        decimal_digits(n).len() <= k <==> n < pow10(k),
    decreases n,
{
    reveal_with_fuel(pow10, 2);
    if n < 10 {
        lemma_pow10_grows(1, k);
    } else {
        if k == 1 {
            lemma_decimal_digits_value(n / 10);
        } else {
            lemma_decimal_digits_len(n / 10, (k - 1) as nat);
        }
    }
}

/// Powers of ten grow with the exponent.
pub proof fn lemma_pow10_grows(j: nat, k: nat)
    requires
        j <= k,
    ensures
        1 <= pow10(j) <= pow10(k),
    decreases k,
{
    if k == 0 {
    } else if j == k {
        lemma_pow10_grows((j - 1) as nat, (k - 1) as nat);
    } else {
        lemma_pow10_grows(j, (k - 1) as nat);
    }
}

/// Zeros on the left do not change what a run of digits spells.
pub proof fn lemma_leading_zeros(zeros: nat, s: Seq<u8>)
    ensures
        decimal_value(Seq::new(zeros, |i: int| 0x30u8) + s) == decimal_value(s),
    decreases s.len(),
{
    let pad = Seq::new(zeros, |i: int| 0x30u8);
    if s.len() == 0 {
        assert(pad + s =~= pad);
        lemma_zeros_value(zeros);
    } else {
        lemma_leading_zeros(zeros, s.drop_last());
        assert((pad + s).drop_last() =~= pad + s.drop_last());
    }
}

/// A run of zeros spells zero.
pub proof fn lemma_zeros_value(zeros: nat)
    ensures
        decimal_value(Seq::new(zeros, |i: int| 0x30u8)) == 0,
    decreases zeros,
{
    if zeros > 0 {
        lemma_zeros_value((zeros - 1) as nat);
        assert(Seq::new(zeros, |i: int| 0x30u8).drop_last() =~= Seq::new(
            (zeros - 1) as nat,
            |i: int| 0x30u8,
        ));
    }
}

/// A field of digits is exactly as wide as asked, and holds digits only.
pub proof fn lemma_ascii_digits_shape(n: nat, width: nat)
    ensures
        ascii_digits(n, width).len() == width,
        all_digits(ascii_digits(n, width)),
{
    lemma_decimal_digits_value(n);
}

/// Truncation keeps the leading digits: a number with more than `width`
/// digits is written as the first `width` digits of its decimal form.
pub proof fn lemma_ascii_digits_truncates(n: nat, width: nat)
    requires
        width >= 1,
        n >= pow10(width),
    ensures
        decimal_digits(n).len() > width,
        ascii_digits(n, width) == decimal_digits(n).take(width as int),
{
    lemma_decimal_digits_len(n, width);
}

/// Reading back a field gives the number that was written, whenever the
/// number fits the field.
pub proof fn lemma_ascii_digits_round_trip(n: nat, width: nat, max: nat)
    requires
        width >= 1,
        n < pow10(width),
        n <= max,
    ensures
        ascii_number(ascii_digits(n, width), max) == Some(n),
{
    lemma_decimal_digits_len(n, width);
    lemma_decimal_digits_value(n);
    lemma_ascii_digits_shape(n, width);
    let digits = decimal_digits(n);
    if digits.len() >= width {
        assert(digits.take(width as int) =~= digits);
    } else {
        lemma_leading_zeros((width - digits.len()) as nat, digits);
    }
}

/// Two runs of digits of one length that spell the same number are the same.
pub proof fn lemma_digits_injective(a: Seq<u8>, b: Seq<u8>)
    requires
        a.len() == b.len(),
        all_digits(a),
        all_digits(b),
        decimal_value(a) == decimal_value(b),
    ensures
        a == b,
    decreases a.len(),
{
    if a.len() > 0 {
        assert(is_ascii_digit(a.last()));
        assert(is_ascii_digit(b.last()));
        assert(all_digits(a.drop_last()));
        assert(all_digits(b.drop_last()));
        lemma_digits_injective(a.drop_last(), b.drop_last());
        assert(a =~= a.drop_last().push(a.last()));
        assert(b =~= b.drop_last().push(b.last()));
    } else {
        assert(a =~= b);
    }
}

/// Reads a run of ASCII digits as a number no larger than `max`.
pub fn parse_ascii_digits(data: &[u8], max: u64) -> (r: Option<u64>)
    ensures
        r is Some <==> ascii_number(data@, max as nat) is Some,
        r is Some ==> r->0 == ascii_number(data@, max as nat)->0,
{
    if data.len() == 0 {
        return None;
    }
    let mut value: u64 = 0;
    let mut i: usize = 0;
    while i < data.len()
        invariant
            0 <= i <= data.len(),
            all_digits(data@.take(i as int)),
            value == decimal_value(data@.take(i as int)),
            value <= max,
        decreases data.len() - i,
    {
        let b = data[i];
        if b < 0x30 || b > 0x39 {
            return None;
        }
        let digit: u64 = (b - 0x30) as u64;
        proof {
            assert(data@.take(i + 1).drop_last() =~= data@.take(i as int));
            assert(data@.take(i + 1).last() == b);
        }
        if digit > max || value > (max - digit) / 10 {
            proof {
                if all_digits(data@) {
                    lemma_decimal_value_prefix(data@, i + 1);
                }
            }
            return None;
        }
        value = value * 10 + digit;
        i = i + 1;
    }
    proof {
        assert(data@.take(i as int) =~= data@);
    }
    Some(value)
}

/// Reads a numeric field, and reports the field by name where it holds
/// anything but a number that fits.
pub fn parse_ascii_bytes(data: &[u8], max: u64, field_name: &str, should_be: &str) -> (r: Result<
    u64,
    Error,
>)
    ensures
        match ascii_number(data@, max as nat) {
            Some(v) => r == Ok::<u64, Error>(v as u64),
            None => r is Err && r->Err_0.kind() == (ErrorKind::IncorrectFieldData {
                field_name: field_name@,
                should_be: should_be@,
            }),
        },
{
    match parse_ascii_digits(data, max) {
        Some(v) => Ok(v),
        None => Err(Error::incorrect_field_data(field_name, should_be)),
    }
}

/// Whether a byte is an ASCII blank.
pub fn is_space(b: u8) -> (r: bool)
    ensures
        r == is_ascii_space(b),
{
    b == 0x20 || (0x09 <= b && b <= 0x0d)
}

/// The part of `data` between the blanks that surround it.
pub fn trim_ascii(data: &[u8]) -> (r: &[u8])
    ensures
        r@ == trim(data@),
{
    let mut start: usize = 0;
    assert(data@.subrange(0, data@.len() as int) =~= data@);
    while start < data.len() && is_space(data[start])
        invariant
            0 <= start <= data.len(),
            trim_start(data@) == trim_start(data@.subrange(start as int, data@.len() as int)),
        decreases data.len() - start,
    {
        proof {
            let rest = data@.subrange(start as int, data@.len() as int);
            assert(rest.drop_first() =~= data@.subrange(start + 1, data@.len() as int));
        }
        start = start + 1;
    }
    let mut end: usize = data.len();
    while end > start && is_space(data[end - 1])
        invariant
            start <= end <= data.len(),
            trim_end(data@.subrange(start as int, data@.len() as int)) == trim_end(
                data@.subrange(start as int, end as int),
            ),
        decreases end,
    {
        proof {
            let part = data@.subrange(start as int, end as int);
            assert(part.drop_last() =~= data@.subrange(start as int, end - 1));
        }
        end = end - 1;
    }
    slice_subrange(data, start, end)
}

/// Appends the decimal digits of `n` to `out`.
pub fn push_decimal_digits(n: u64, out: &mut Vec<u8>)
    ensures
        final(out)@ == old(out)@ + decimal_digits(n as nat),
    decreases n,
{
    if n >= 10 {
        push_decimal_digits(n / 10, out);
    }
    out.push(0x30 + (n % 10) as u8);
    assert(out@ =~= old(out)@ + decimal_digits(n as nat));
}

/// Writes `n` as a field of exactly `width` ASCII digits, padded with zeros
/// on the left; a number too long for the field keeps its leading digits.
pub fn format_ascii_digits(n: u64, width: usize) -> (out: Vec<u8>)
    ensures
        out@ == ascii_digits(n as nat, width as nat),
{
    let mut digits: Vec<u8> = Vec::new();
    push_decimal_digits(n, &mut digits);
    assert(digits@ =~= decimal_digits(n as nat));
    let mut out: Vec<u8> = Vec::new();
    if digits.len() >= width {
        let mut i: usize = 0;
        while i < width
            invariant
                0 <= i <= width <= digits.len(),
                out@ == digits@.take(i as int),
            decreases width - i,
        {
            out.push(digits[i]);
            assert(out@ =~= digits@.take(i + 1));
            i = i + 1;
        }
    } else {
        let pad: usize = width - digits.len();
        let mut i: usize = 0;
        while i < pad
            invariant
                0 <= i <= pad,
                out@ == Seq::new(i as nat, |k: int| 0x30u8),
            decreases pad - i,
        {
            out.push(0x30);
            assert(out@ =~= Seq::new((i + 1) as nat, |k: int| 0x30u8));
            i = i + 1;
        }
        let mut j: usize = 0;
        while j < digits.len()
            invariant
                0 <= j <= digits.len(),
                out@ == Seq::new(pad as nat, |k: int| 0x30u8) + digits@.take(j as int),
            decreases digits.len() - j,
        {
            out.push(digits[j]);
            assert(out@ =~= Seq::new(pad as nat, |k: int| 0x30u8) + digits@.take(j + 1));
            j = j + 1;
        }
        assert(digits@.take(digits.len() as int) =~= digits@);
    }
    out
}

} // verus!
