//! Packed decimal: two decimal digits per byte, high nibble first.

use vstd::prelude::*;
use vstd::string::StringExecFns;
use crate::error::{Error, ErrorKind};

verus! {

/// Both nibbles of `b` are decimal digits.
pub open spec fn is_bcd_byte(b: u8) -> bool {
    b / 16 <= 9 && b % 16 <= 9
}

/// The two-digit number that a packed byte holds.
pub open spec fn bcd_byte_value(b: u8) -> int {
    (b / 16) * 10 + b % 16
}

/// The packed byte that holds the two-digit number `n`.
pub open spec fn bcd_byte(n: int) -> u8
    recommends
        0 <= n <= 99,
{
    ((n / 10) * 16 + n % 10) as u8
}

/// A pair of bytes is packed decimal when all four nibbles are digits.
pub open spec fn is_bcd_x4(data: Seq<u8>) -> bool {
    data.len() == 2 && is_bcd_byte(data[0]) && is_bcd_byte(data[1])
}

/// The four-digit number that a packed pair holds.
pub open spec fn bcd_x4_value(data: Seq<u8>) -> int {
    bcd_byte_value(data[0]) * 100 + bcd_byte_value(data[1])
}

/// The packed pair that holds the four-digit number `n`.
pub open spec fn bcd_x4(n: int) -> Seq<u8>
    recommends
        0 <= n <= 9999,
{
    seq![bcd_byte(n / 100), bcd_byte(n % 100)]
}

/// Unpacks one byte, or reports the nibble that is no digit.
pub fn decode_bcd_x2(b: u8) -> (r: Result<u8, Error>)
    ensures
        is_bcd_byte(b) ==> r == Ok::<u8, Error>(bcd_byte_value(b) as u8),
        !is_bcd_byte(b) ==> r is Err && r->Err_0.kind() == ErrorKind::Bounds,
{
    let hi: u8 = b / 16;
    let lo: u8 = b % 16;
    if hi > 9 || lo > 9 {
        return Err(Error::Bounds(String::from_str("packed decimal nibble out of range")));
    }
    Ok(hi * 10 + lo)
}

/// Packs a two-digit number into one byte.
pub fn encode_bcd_x2(n: u8) -> (b: u8)
    requires
        n <= 99,
    ensures
        b == bcd_byte(n as int),
        is_bcd_byte(b),
        bcd_byte_value(b) == n,
{
    (n / 10) * 16 + n % 10
}

/// Unpacks a pair of bytes into the number its four nibbles spell.
pub fn decode_bcd_x4(data: &[u8; 2]) -> (r: Result<u16, Error>)
    ensures
        is_bcd_x4(data@) ==> r == Ok::<u16, Error>(bcd_x4_value(data@) as u16),
        !is_bcd_x4(data@) ==> r is Err && r->Err_0.kind() == ErrorKind::Bounds,
        r is Ok ==> r->Ok_0 <= 9999,
{
    let hi = decode_bcd_x2(data[0])?;
    let lo = decode_bcd_x2(data[1])?;
    Ok(hi as u16 * 100 + lo as u16)
}

/// Packs a number of at most four digits into a pair of bytes.
pub fn encode_bcd_x4(n: u16) -> (data: [u8; 2])
    requires
        n <= 9999,
    ensures
        data@ == bcd_x4(n as int),
{
    let data = [encode_bcd_x2((n / 100) as u8), encode_bcd_x2((n % 100) as u8)];
    assert(data@ =~= bcd_x4(n as int));
    data
}

/// Packing then unpacking a byte gives the number back; only zero packs to
/// the zero byte.
pub proof fn lemma_bcd_byte_round_trip(n: int)
    requires
        0 <= n <= 99,
    ensures
        is_bcd_byte(bcd_byte(n)),
        bcd_byte_value(bcd_byte(n)) == n,
        bcd_byte(n) == 0 <==> n == 0,
{
}

/// Unpacking then packing a byte gives the byte back.
pub proof fn lemma_bcd_byte_value_round_trip(b: u8)
    requires
        is_bcd_byte(b),
    ensures
        0 <= bcd_byte_value(b) <= 99,
        bcd_byte(bcd_byte_value(b)) == b,
{
}

/// Packing then unpacking gives the number back, for every number of at most
/// four digits.
pub proof fn lemma_bcd_x4_round_trip(n: int)
    requires
        0 <= n <= 9999,
    ensures
        is_bcd_x4(bcd_x4(n)),
        bcd_x4_value(bcd_x4(n)) == n,
{
}

/// A pair with a nibble above nine is no packed decimal: no number packs to it.
pub proof fn lemma_bcd_x4_rejects_bad_nibble(data: Seq<u8>)
    requires
        data.len() == 2,
        data[0] / 16 > 9 || data[0] % 16 > 9 || data[1] / 16 > 9 || data[1] % 16 > 9,
    ensures
        !is_bcd_x4(data),
        forall|n: int| 0 <= n <= 9999 ==> #[trigger] bcd_x4(n) != data,
{
    assert forall|n: int| 0 <= n <= 9999 implies #[trigger] bcd_x4(n) != data by {
        lemma_bcd_x4_round_trip(n);
    }
}

/// Unpacking then packing gives the bytes back: the two are inverse.
pub proof fn lemma_bcd_x4_value_round_trip(data: Seq<u8>)
    requires
        is_bcd_x4(data),
    ensures
        0 <= bcd_x4_value(data) <= 9999,
        bcd_x4(bcd_x4_value(data)) == data,
{
    assert(bcd_x4(bcd_x4_value(data)) =~= data);
}

} // verus!
