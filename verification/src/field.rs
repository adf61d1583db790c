//! One field on the wire: the header of its tag, the length of its value as
//! packed decimal, and the value.

use vstd::prelude::*;
use vstd::slice::slice_subrange;
use vstd::string::{StringExecFns, StringSliceAdditionalSpecFns};
use bytes::{Bytes, BytesMut};
use crate::bcd::{bcd_x4, bcd_x4_value, decode_bcd_x4, encode_bcd_x4, is_bcd_x4};
use crate::error::{Error, ErrorKind};
use crate::tag::{decode_tag_header, lemma_tag_header_round_trip, tag_of_header, Tag};
use crate::wire::{bytes_mut_view, bytes_view, put_slice};

verus! {

/// Longest value that a field holds, in bytes: what its two length bytes
/// can say.
pub const MAX_VALUE_LEN: usize = 9999;

/// A field can be written: the numbers of its tag fit the header and the
/// length of its value fits the length bytes.
pub open spec fn field_encodable(tag: Tag, value: Seq<u8>) -> bool {
    tag.wf() && value.len() <= MAX_VALUE_LEN
}

/// The bytes of a field: header, length, value. The value goes out as it is.
pub open spec fn field_bytes(tag: Tag, value: Seq<u8>) -> Seq<u8> {
    tag.header() + bcd_x4(value.len() as int) + value
}

/// The field that `data` starts with, as its tag, its value and the bytes
/// that follow it; or why `data` starts with none. A field that `data` ends
/// before the end of is out of bounds.
pub open spec fn first_field(data: Seq<u8>) -> Result<(Tag, Seq<u8>, Seq<u8>), ErrorKind> {
    if data.len() < 4 {
        Err(ErrorKind::Bounds)
    } else {
        match tag_of_header(data.subrange(0, 4)) {
            Err(kind) => Err(kind),
            Ok(tag) => {
                if data.len() < 6 || !is_bcd_x4(data.subrange(4, 6)) {
                    Err(ErrorKind::Bounds)
                } else {
                    let len = bcd_x4_value(data.subrange(4, 6));
                    if data.len() < 6 + len {
                        Err(ErrorKind::Bounds)
                    } else {
                        Ok((tag, data.subrange(6, 6 + len), data.subrange(6 + len, data.len() as int)))
                    }
                }
            },
        }
    }
}

/// Takes the first `at` bytes off the front of `bytes`. Where there are
/// fewer, nothing is taken and the shortfall is reported.
pub fn bytes_split_to(bytes: &mut Bytes, at: usize) -> (r: Result<Bytes, Error>)
    ensures
        at <= bytes_view(*old(bytes)).len() ==> r is Ok && bytes_view(r->Ok_0) == bytes_view(
            *old(bytes),
        ).subrange(0, at as int) && bytes_view(*final(bytes)) == bytes_view(*old(bytes)).subrange(
            at as int,
            bytes_view(*old(bytes)).len() as int,
        ),
        at > bytes_view(*old(bytes)).len() ==> r is Err && r->Err_0.kind() == ErrorKind::Bounds
            && bytes_view(*final(bytes)) == bytes_view(*old(bytes)),
{
    let len = bytes.len();
    if len < at {
        return Err(Error::out_of_bounds("split_to out of bounds: ", at, len));
    }
    Ok(bytes.split_to(at))
}

/// Appends one field to `buf`. A tag whose numbers do not fit the header,
/// or a value too long for the length bytes, is refused, and `buf` stays as
/// it was.
pub fn encode_field_to_buf(tag: Tag, value: &str, buf: &mut BytesMut) -> (r: Result<(), Error>)
    requires
        bytes_mut_view(*old(buf)).len() + 6 + MAX_VALUE_LEN <= isize::MAX,
    ensures
        field_encodable(tag, value.spec_bytes()) ==> r is Ok && bytes_mut_view(*final(buf))
            == bytes_mut_view(*old(buf)) + field_bytes(tag, value.spec_bytes()),
        !field_encodable(tag, value.spec_bytes()) ==> r is Err && r->Err_0.kind()
            == ErrorKind::Bounds && bytes_mut_view(*final(buf)) == bytes_mut_view(*old(buf)),
{
    let in_range = match tag {
        Tag::Regular(id) => id <= crate::tag::MAX_ID,
        Tag::Iso(id) => id <= crate::tag::MAX_ID,
        Tag::IsoSubfield(id, sub) => id <= crate::tag::MAX_ID && sub <= crate::tag::MAX_SUB,
    };
    if !in_range {
        return Err(Error::Bounds(String::from_str("tag number does not fit its header")));
    }
    let bytes = value.as_bytes();
    if bytes.len() > MAX_VALUE_LEN {
        return Err(Error::out_of_bounds("field value too long: ", MAX_VALUE_LEN, bytes.len()));
    }
    let header = tag.encode();
    let len = encode_bcd_x4(bytes.len() as u16);
    put_slice(buf, &header);
    put_slice(buf, &len);
    put_slice(buf, bytes);
    proof {
        assert(bytes_mut_view(*buf) =~= bytes_mut_view(*old(buf)) + field_bytes(
            tag,
            value.spec_bytes(),
        ));
    }
    Ok(())
}

/// Reads the tag and the length of the value of the field that `data`
/// starts with, and sees that the value is all there.
pub fn field_header(data: &[u8]) -> (r: Result<(Tag, usize), Error>)
    ensures
        match first_field(data@) {
            Ok((tag, value, rest)) => r == Ok::<(Tag, usize), Error>((tag, value.len() as usize)),
            Err(kind) => r is Err && r->Err_0.kind() == kind,
        },
{
    if data.len() < 4 {
        return Err(Error::out_of_bounds("field header out of bounds: ", 4, data.len()));
    }
    let tag = decode_tag_header(slice_subrange(data, 0, 4))?;
    if data.len() < 6 {
        return Err(Error::out_of_bounds("field length out of bounds: ", 6, data.len()));
    }
    let packed = [data[4], data[5]];
    assert(packed@ =~= data@.subrange(4, 6));
    let len = decode_bcd_x4(&packed)? as usize;
    if data.len() - 6 < len {
        return Err(Error::out_of_bounds("field value out of bounds: ", len, data.len() - 6));
    }
    Ok((tag, len))
}

/// Takes one field off the front of `data` and returns its tag and its
/// value. Where `data` does not start with a whole field, nothing is taken.
pub fn decode_field(data: &mut Bytes) -> (r: Result<(Tag, Bytes), Error>)
    ensures
        match first_field(bytes_view(*old(data))) {
            Ok((tag, value, rest)) => r is Ok && r->Ok_0.0 == tag && bytes_view(r->Ok_0.1) == value
                && bytes_view(*final(data)) == rest,
            Err(kind) => r is Err && r->Err_0.kind() == kind && bytes_view(*final(data))
                == bytes_view(*old(data)),
        },
{
    let ghost all = bytes_view(*data);
    let (tag, len) = field_header(&*data)?;
    let _ = data.split_to(6);
    let value = data.split_to(len);
    proof {
        assert(bytes_view(value) =~= all.subrange(6, 6 + len));
        assert(bytes_view(*data) =~= all.subrange(6 + len, all.len() as int));
    }
    Ok((tag, value))
}

/// A written field reads back as it was written, with whatever follows it
/// left over, for every tag that a header tells apart.
pub proof fn lemma_field_round_trip(tag: Tag, value: Seq<u8>, rest: Seq<u8>)
    requires
        field_encodable(tag, value),
        tag.distinct_on_wire(),
    ensures
        first_field(field_bytes(tag, value) + rest) == Ok::<(Tag, Seq<u8>, Seq<u8>), ErrorKind>(
            (tag, value, rest),
        ),
{
    let data = field_bytes(tag, value) + rest;
    lemma_tag_header_round_trip(tag);
    crate::bcd::lemma_bcd_x4_round_trip(value.len() as int);
    assert(data.subrange(0, 4) =~= tag.header());
    assert(data.subrange(4, 6) =~= bcd_x4(value.len() as int));
    assert(data.subrange(6, 6 + value.len() as int) =~= value);
    assert(data.subrange(6 + value.len() as int, data.len() as int) =~= rest);
}

/// The fields that `data` is made of, as tags and values in order, or why
/// `data` is not made of fields from end to end.
pub open spec fn all_fields(data: Seq<u8>) -> Result<Seq<(Tag, Seq<u8>)>, ErrorKind>
    decreases data.len(),
{
    if data.len() == 0 {
        Ok(Seq::empty())
    } else {
        match first_field(data) {
            Err(kind) => Err(kind),
            Ok((tag, value, rest)) => match all_fields(rest) {
                Err(kind) => Err(kind),
                Ok(fields) => Ok(seq![(tag, value)] + fields),
            },
        }
    }
}

/// A written field in front of fields reads back in front of them.
pub proof fn lemma_all_fields_after(tag: Tag, value: Seq<u8>, rest: Seq<u8>)
    requires
        field_encodable(tag, value),
        tag.distinct_on_wire(),
        all_fields(rest) is Ok,
    ensures
        all_fields(field_bytes(tag, value) + rest) == Ok::<Seq<(Tag, Seq<u8>)>, ErrorKind>(
            seq![(tag, value)] + all_fields(rest)->Ok_0,
        ),
{
    lemma_field_round_trip(tag, value, rest);
}

} // verus!
