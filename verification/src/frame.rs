//! The outer frame of a message: five ASCII digits that give the length of
//! the body, then the body.

use vstd::prelude::*;
use bytes::{Bytes, BytesMut};
use crate::ascii::{
    all_digits, ascii_digits, ascii_number, format_ascii_digits, is_ascii_digit,
    lemma_ascii_digits_round_trip, lemma_ascii_digits_shape, parse_ascii_bytes, pow10, trim,
    trim_ascii,
};
use crate::error::{Error, ErrorKind};
use crate::field::bytes_split_to;
use crate::wire::{bytes_mut_view, bytes_view, put_slice};

verus! {

/// Number of digits in the length prefix.
pub const LENGTH_PREFIX_LEN: usize = 5;

/// Longest body that a frame holds, in bytes: what five digits can say.
pub const MAX_BODY_LEN: usize = 99999;

/// A message on the wire: the length of the body as five digits, then the body.
pub open spec fn frame_bytes(body: Seq<u8>) -> Seq<u8> {
    ascii_digits(body.len(), LENGTH_PREFIX_LEN as nat) + body
}

/// The body of the message that `data` starts with, or why there is none:
/// `data` is shorter than a prefix, the prefix is no number, or `data` ends
/// before the body does. Blanks around the digits of the prefix are let
/// pass; what follows the body is left alone.
pub open spec fn framed_body(data: Seq<u8>) -> Result<Seq<u8>, ErrorKind> {
    if data.len() < LENGTH_PREFIX_LEN {
        Err(ErrorKind::Bounds)
    } else {
        match ascii_number(trim(data.subrange(0, LENGTH_PREFIX_LEN as int)), MAX_BODY_LEN as nat) {
            None => Err(
                ErrorKind::IncorrectFieldData {
                    field_name: "message length"@,
                    should_be: "valid integer"@,
                },
            ),
            Some(len) => if data.len() < LENGTH_PREFIX_LEN + len {
                Err(ErrorKind::Bounds)
            } else {
                Ok(data.subrange(LENGTH_PREFIX_LEN as int, LENGTH_PREFIX_LEN + len))
            },
        }
    }
}

/// Puts the length prefix in front of a body. A body longer than five digits
/// can say is refused.
pub fn frame(body: BytesMut) -> (r: Result<Bytes, Error>)
    ensures
        bytes_mut_view(body).len() <= MAX_BODY_LEN ==> r is Ok && bytes_view(r->Ok_0)
            == frame_bytes(bytes_mut_view(body)),
        bytes_mut_view(body).len() > MAX_BODY_LEN ==> r is Err && r->Err_0.kind()
            == ErrorKind::Bounds,
{
    let len = body.len();
    if len > MAX_BODY_LEN {
        return Err(Error::out_of_bounds("message too long: ", MAX_BODY_LEN, len));
    }
    let prefix = format_ascii_digits(len as u64, LENGTH_PREFIX_LEN);
    proof {
        lemma_ascii_digits_shape(len as nat, LENGTH_PREFIX_LEN as nat);
    }
    let mut out = BytesMut::with_capacity(len + 10);
    put_slice(&mut out, prefix.as_slice());
    let body = body.freeze();
    put_slice(&mut out, &body);
    Ok(out.freeze())
}

/// Reads the length prefix and returns the body it announces.
pub fn unframe(data: Bytes) -> (r: Result<Bytes, Error>)
    ensures
        match framed_body(bytes_view(data)) {
            Ok(body) => r is Ok && bytes_view(r->Ok_0) == body,
            Err(kind) => r is Err && r->Err_0.kind() == kind,
        },
{
    let mut data = data;
    let ghost all = bytes_view(data);
    let prefix = bytes_split_to(&mut data, LENGTH_PREFIX_LEN)?;
    let len = parse_ascii_bytes(
        trim_ascii(&prefix),
        MAX_BODY_LEN as u64,
        "message length",
        "valid integer",
    )?;
    let body = bytes_split_to(&mut data, len as usize)?;
    proof {
        assert(bytes_view(body) =~= all.subrange(LENGTH_PREFIX_LEN as int, LENGTH_PREFIX_LEN + len));
    }
    Ok(body)
}

/// Digits have no blanks around them to take away.
pub proof fn lemma_trim_digits(s: Seq<u8>)
    requires
        all_digits(s),
    ensures
        trim(s) == s,
{
    if s.len() > 0 {
        assert(is_ascii_digit(s[0]));
        assert(is_ascii_digit(s.last()));
    }
}

/// A framed body reads back as it was, whatever follows the frame.
pub proof fn lemma_frame_round_trip(body: Seq<u8>, rest: Seq<u8>)
    requires
        body.len() <= MAX_BODY_LEN,
    ensures
        framed_body(frame_bytes(body) + rest) == Ok::<Seq<u8>, ErrorKind>(body),
{
    let prefix = ascii_digits(body.len(), LENGTH_PREFIX_LEN as nat);
    let data = frame_bytes(body) + rest;
    lemma_ascii_digits_shape(body.len(), LENGTH_PREFIX_LEN as nat);
    lemma_trim_digits(prefix);
    assert(pow10(5) == 100000) by {
        reveal_with_fuel(pow10, 6);
    }
    lemma_ascii_digits_round_trip(body.len(), LENGTH_PREFIX_LEN as nat, MAX_BODY_LEN as nat);
    assert(data.subrange(0, LENGTH_PREFIX_LEN as int) =~= prefix);
    assert(data.subrange(LENGTH_PREFIX_LEN as int, LENGTH_PREFIX_LEN + body.len()) =~= body);
}

} // verus!
