//! The three kinds of tag, their names in structured input and their header
//! on the wire.

use vstd::prelude::*;
use vstd::slice::slice_subrange;
use vstd::string::{StringExecFns, StringSliceAdditionalSpecFns};
use bytes::Bytes;
use crate::ascii::{ascii_number, parse_ascii_digits};
use crate::bcd::{
    bcd_byte, bcd_byte_value, bcd_x4, bcd_x4_value, decode_bcd_x2, decode_bcd_x4, encode_bcd_x2,
    encode_bcd_x4, is_bcd_byte, is_bcd_x4,
};
use crate::error::{Error, ErrorKind};
use crate::wire::bytes_view;

verus! {

/// First byte of the header of a regular tag: `T`.
pub const REGULAR_MARKER: u8 = 0x54;

/// First byte of the header of an ISO field or subfield: `I`.
pub const ISO_MARKER: u8 = 0x49;

/// First character of the name of a regular tag: `T`.
pub const REGULAR_PREFIX: u8 = 0x54;

/// First character of the name of an ISO field: `i`.
pub const ISO_PREFIX: u8 = 0x69;

/// Largest number that four packed decimal digits hold.
pub const MAX_ID: u16 = 9999;

/// Largest number that two packed decimal digits hold.
pub const MAX_SUB: u8 = 99;

/// What a field is, on the wire and in a request.
#[derive(Debug, Clone, Copy, PartialEq, Eq, Structural, PartialOrd, Ord, Hash)]
pub enum Tag {
    /// A free-form field, by its number.
    Regular(u16),
    /// A field of the ISO message, by its number.
    Iso(u16),
    /// A part of an ISO field, by the field's number and its own.
    IsoSubfield(u16, u8),
}

impl Tag {
    /// The numbers of the tag fit the packed decimal digits of a header:
    /// four for the field, two for the subfield.
    pub open spec fn wf(&self) -> bool {
        match *self {
            Tag::Regular(id) => id <= MAX_ID,
            Tag::Iso(id) => id <= MAX_ID,
            Tag::IsoSubfield(id, sub) => id <= MAX_ID && sub <= MAX_SUB,
        }
    }

    /// The tag is one that a header tells apart from every other: a subfield
    /// numbered zero is written as its field is.
    pub open spec fn distinct_on_wire(&self) -> bool {
        match *self {
            Tag::IsoSubfield(_, sub) => sub != 0,
            _ => true,
        }
    }

    /// The four bytes that stand for the tag on the wire: the marker of its
    /// kind, the field number as packed decimal, and the subfield number as
    /// packed decimal where there is one, zero where there is none.
    pub open spec fn header(&self) -> Seq<u8> {
        match *self {
            Tag::Regular(id) => seq![REGULAR_MARKER] + bcd_x4(id as int) + seq![0u8],
            Tag::Iso(id) => seq![ISO_MARKER] + bcd_x4(id as int) + seq![0u8],
            Tag::IsoSubfield(id, sub) => seq![ISO_MARKER] + bcd_x4(id as int) + seq![
                bcd_byte(sub as int),
            ],
        }
    }

    /// Resolves the name of a field: `T` and four digits name a regular
    /// tag, `i` and three digits an ISO field. No other name is known.
    pub fn from_str(name: &str) -> (r: Result<Tag, Error>)
        ensures
            match tag_of_name(name.spec_bytes()) {
                Some(tag) => r == Ok::<Tag, Error>(tag),
                None => r matches Err(Error::IncorrectTag(text)) && text@ == name@,
            },
            r is Ok ==> r->Ok_0.wf(),
    {
        let bytes = name.as_bytes();
        if bytes.len() == 5 && bytes[0] == REGULAR_PREFIX {
            match parse_ascii_digits(slice_subrange(bytes, 1, 5), MAX_ID as u64) {
                Some(id) => {
                    return Ok(Tag::Regular(id as u16));
                },
                None => {},
            }
        } else if bytes.len() == 4 && bytes[0] == ISO_PREFIX {
            match parse_ascii_digits(slice_subrange(bytes, 1, 4), MAX_ID as u64) {
                Some(id) => {
                    return Ok(Tag::Iso(id as u16));
                },
                None => {},
            }
        }
        Err(Error::IncorrectTag(String::from_str(name)))
    }

    /// Writes the header of the tag.
    pub fn encode(&self) -> (header: [u8; 4])
        requires
            self.wf(),
        ensures
            header@ == self.header(),
    {
        let (marker, id, sub): (u8, u16, u8) = match *self {
            Tag::Regular(id) => (REGULAR_MARKER, id, 0),
            Tag::Iso(id) => (ISO_MARKER, id, 0),
            Tag::IsoSubfield(id, sub) => (ISO_MARKER, id, sub),
        };
        let packed = encode_bcd_x4(id);
        let header = [marker, packed[0], packed[1], encode_bcd_x2(sub)];
        assert(header@ =~= self.header());
        header
    }

    /// Reads the header of a tag.
    pub fn decode(data: Bytes) -> (r: Result<Tag, Error>)
        ensures
            match tag_of_header(bytes_view(data)) {
                Ok(tag) => r == Ok::<Tag, Error>(tag),
                Err(kind) => r is Err && r->Err_0.kind() == kind,
            },
            r is Ok ==> r->Ok_0.wf(),
    {
        decode_tag_header(&data)
    }
}

/// The tag that a field name resolves to, if it resolves to one. The name is
/// taken as its bytes.
pub open spec fn tag_of_name(name: Seq<u8>) -> Option<Tag> {
    if name.len() == 5 && name[0] == REGULAR_PREFIX {
        match ascii_number(name.subrange(1, 5), MAX_ID as nat) {
            Some(id) => Some(Tag::Regular(id as u16)),
            None => None,
        }
    } else if name.len() == 4 && name[0] == ISO_PREFIX {
        match ascii_number(name.subrange(1, 4), MAX_ID as nat) {
            Some(id) => Some(Tag::Iso(id as u16)),
            None => None,
        }
    } else {
        None
    }
}

/// The tag that a header stands for, or why it stands for none: it is not
/// four bytes long, its marker is unknown, a number in it is not packed
/// decimal, or a regular tag carries a subfield number.
pub open spec fn tag_of_header(header: Seq<u8>) -> Result<Tag, ErrorKind> {
    if header.len() != 4 {
        Err(ErrorKind::Bounds)
    } else if header[0] != REGULAR_MARKER && header[0] != ISO_MARKER {
        Err(ErrorKind::IncorrectTag)
    } else if !is_bcd_x4(header.subrange(1, 3)) {
        Err(ErrorKind::Bounds)
    } else {
        let id = bcd_x4_value(header.subrange(1, 3)) as u16;
        if header[0] == REGULAR_MARKER {
            if header[3] == 0 {
                Ok(Tag::Regular(id))
            } else {
                Err(ErrorKind::IncorrectTag)
            }
        } else if header[3] == 0 {
            Ok(Tag::Iso(id))
        } else if is_bcd_byte(header[3]) {
            Ok(Tag::IsoSubfield(id, bcd_byte_value(header[3]) as u8))
        } else {
            Err(ErrorKind::Bounds)
        }
    }
}

/// Reads the header of a tag from a slice.
pub fn decode_tag_header(header: &[u8]) -> (r: Result<Tag, Error>)
    ensures
        match tag_of_header(header@) {
            Ok(tag) => r == Ok::<Tag, Error>(tag),
            Err(kind) => r is Err && r->Err_0.kind() == kind,
        },
        r is Ok ==> r->Ok_0.wf(),
{
    proof {
        if tag_of_header(header@) is Ok {
            lemma_tag_of_header_inverse(header@);
        }
    }
    if header.len() != 4 {
        return Err(Error::Bounds(String::from_str("tag header should be 4 bytes")));
    }
    let marker = header[0];
    if marker != REGULAR_MARKER && marker != ISO_MARKER {
        return Err(Error::IncorrectTag(String::from_str("unknown tag marker")));
    }
    let packed = [header[1], header[2]];
    assert(packed@ =~= header@.subrange(1, 3));
    let id = decode_bcd_x4(&packed)?;
    let sub = header[3];
    if marker == REGULAR_MARKER {
        if sub == 0 {
            Ok(Tag::Regular(id))
        } else {
            Err(Error::IncorrectTag(String::from_str("regular tag with a subfield")))
        }
    } else if sub == 0 {
        Ok(Tag::Iso(id))
    } else {
        let sub = decode_bcd_x2(sub)?;
        Ok(Tag::IsoSubfield(id, sub))
    }
}

/// A name that resolves gives a tag whose numbers fit a header.
pub proof fn lemma_named_tag_wf(name: Seq<u8>)
    requires
        tag_of_name(name) is Some,
    ensures
        tag_of_name(name)->0.wf(),
        !(tag_of_name(name)->0 is IsoSubfield),
{
}

/// Two names that resolve to the same tag are the same name.
pub proof fn lemma_tag_of_name_injective(a: Seq<u8>, b: Seq<u8>)
    requires
        tag_of_name(a) is Some,
        tag_of_name(a) == tag_of_name(b),
    ensures
        a == b,
{
    let n: int = if a.len() == 5 { 5 } else { 4 };
    assert(a.len() == b.len());
    crate::ascii::lemma_digits_injective(a.subrange(1, n), b.subrange(1, n));
    assert(a =~= b) by {
        assert forall|i: int| 0 <= i < a.len() implies a[i] == b[i] by {
            if i > 0 {
                assert(a[i] == a.subrange(1, n)[i - 1]);
                assert(b[i] == b.subrange(1, n)[i - 1]);
            }
        }
    }
}

/// Reading a written header gives the tag back, for every tag that a header
/// tells apart.
pub proof fn lemma_tag_header_round_trip(tag: Tag)
    requires
        tag.wf(),
        tag.distinct_on_wire(),
    ensures
        tag.header().len() == 4,
        tag_of_header(tag.header()) == Ok::<Tag, ErrorKind>(tag),
{
    let h = tag.header();
    let id: int = match tag {
        Tag::Regular(id) => id as int,
        Tag::Iso(id) => id as int,
        Tag::IsoSubfield(id, _) => id as int,
    };
    let packed = bcd_x4(id);
    assert(is_bcd_x4(packed) && bcd_x4_value(packed) == id) by {
        crate::bcd::lemma_bcd_x4_round_trip(id);
    }
    assert(packed.len() == 2);
    assert(h.len() == 4);
    assert(h.subrange(1, 3) =~= packed);
    if let Tag::IsoSubfield(_, sub) = tag {
        crate::bcd::lemma_bcd_byte_round_trip(sub as int);
        assert(h[3] == bcd_byte(sub as int));
    } else {
        assert(h[3] == 0);
    }
}

/// Whatever header reads as a tag is the header of that tag, and of no other.
pub proof fn lemma_tag_of_header_inverse(header: Seq<u8>)
    requires
        tag_of_header(header) is Ok,
    ensures
        tag_of_header(header)->Ok_0.wf(),
        tag_of_header(header)->Ok_0.distinct_on_wire(),
        tag_of_header(header)->Ok_0.header() == header,
{
    let tag = tag_of_header(header)->Ok_0;
    let packed = header.subrange(1, 3);
    crate::bcd::lemma_bcd_x4_value_round_trip(packed);
    if tag is IsoSubfield {
        crate::bcd::lemma_bcd_byte_value_round_trip(header[3]);
    }
    assert(tag.header() =~= header) by {
        assert(header[1] == packed[0]);
        assert(header[2] == packed[1]);
    }
}

} // verus!
