//! The response of the backend, read from the wire.

use vstd::prelude::*;
use vstd::slice::slice_subrange;
use vstd::string::StringExecFns;
use bytes::Bytes;
use crate::ascii::{ascii_number, parse_ascii_bytes, trim, trim_ascii};
use crate::error::{Error, ErrorKind};
use crate::field::{bytes_split_to, decode_field, first_field};
use crate::frame::{framed_body, unframe};
use crate::tag::Tag;
use crate::text::{from_utf8_lossy, utf8_lossy};
use crate::wire::bytes_view;

verus! {

/// Number of the regular tag that carries the reason code.
pub const TAG_REASON: u16 = 31;

/// Number of the regular tag that carries a fee record.
pub const TAG_FEE: u16 = 32;

/// Number of the regular tag that carries additional data.
pub const TAG_ADATA: u16 = 48;

/// Length of the message type at the start of a body, in bytes.
pub const MTI_LEN: usize = 4;

/// Length of the authorization serial number in a body, in bytes.
pub const SERNO_LEN: usize = 10;

/// Shortest fee record, in bytes: reason, currency and one digit of amount.
pub const MIN_FEE_LEN: usize = 8;

/// One fee of a response.
#[derive(Debug, Clone, Copy, PartialEq, Eq, Structural)]
pub struct FeeData {
    /// Why the fee is taken.
    pub reason: u16,
    /// The currency of the amount, by its ISO number.
    pub currency: u16,
    /// The amount.
    pub amount: u64,
}

/// The fee that a record holds, or why it holds none. The record is four
/// digits of reason, three of currency, and the amount in as many digits as
/// are left; each part is reported by name if it is no number that fits.
pub open spec fn fee_of(data: Seq<u8>) -> Result<FeeData, ErrorKind> {
    if data.len() < MIN_FEE_LEN {
        Err(ErrorKind::IncorrectData)
    } else {
        match ascii_number(data.subrange(0, 4), u16::MAX as nat) {
            None => Err(
                ErrorKind::IncorrectFieldData {
                    field_name: "FeeData.reason"@,
                    should_be: "valid integer"@,
                },
            ),
            Some(reason) => match ascii_number(data.subrange(4, 7), u16::MAX as nat) {
                None => Err(
                    ErrorKind::IncorrectFieldData {
                        field_name: "FeeData.currency"@,
                        should_be: "valid integer"@,
                    },
                ),
                Some(currency) => match ascii_number(
                    data.subrange(7, data.len() as int),
                    u64::MAX as nat,
                ) {
                    None => Err(
                        ErrorKind::IncorrectFieldData {
                            field_name: "FeeData.amount"@,
                            should_be: "valid integer"@,
                        },
                    ),
                    Some(amount) => Ok(
                        FeeData {
                            reason: reason as u16,
                            currency: currency as u16,
                            amount: amount as u64,
                        },
                    ),
                },
            },
        }
    }
}

impl FeeData {
    /// Reads a fee record.
    pub fn from_slice(data: &[u8]) -> (r: Result<Self, Error>)
        ensures
            match fee_of(data@) {
                Ok(fee) => r == Ok::<FeeData, Error>(fee),
                Err(kind) => r is Err && r->Err_0.kind() == kind,
            },
    {
        if data.len() >= MIN_FEE_LEN {
            let reason = parse_ascii_bytes(
                slice_subrange(data, 0, 4),
                u16::MAX as u64,
                "FeeData.reason",
                "valid integer",
            )?;
            let currency = parse_ascii_bytes(
                slice_subrange(data, 4, 7),
                u16::MAX as u64,
                "FeeData.currency",
                "valid integer",
            )?;
            let amount = parse_ascii_bytes(
                slice_subrange(data, 7, data.len()),
                u64::MAX,
                "FeeData.amount",
                "valid integer",
            )?;
            Ok(FeeData { reason: reason as u16, currency: currency as u16, amount })
        } else {
            Err(Error::IncorrectData(String::from_str("FeeData slice should be longer than 8 bytes")))
        }
    }
}

/// A response of the backend.
#[derive(Debug)]
pub struct SigmaResponse {
    /// The message type.
    pub mti: String,
    /// The authorization serial number that the response answers.
    pub auth_serno: u64,
    /// The reason code; zero where the response carries none.
    pub reason: u32,
    /// The fees, in the order of the response.
    pub fees: Vec<FeeData>,
    /// Additional data, where the response carries any.
    pub adata: Option<String>,
}

/// What a [`SigmaResponse`] holds.
pub struct ResponseView {
    pub mti: Seq<char>,
    pub auth_serno: u64,
    pub reason: u32,
    pub fees: Seq<FeeData>,
    pub adata: Option<Seq<char>>,
}

impl View for SigmaResponse {
    type V = ResponseView;

    open spec fn view(&self) -> ResponseView {
        ResponseView {
            mti: self.mti@,
            auth_serno: self.auth_serno,
            reason: self.reason,
            fees: self.fees@,
            adata: match self.adata {
                Some(text) => Some(text@),
                None => None,
            },
        }
    }
}

/// The response after one more field. A reason replaces the reason, a fee
/// joins the fees, additional data replace what additional data there were;
/// a field with any other tag changes nothing.
pub open spec fn with_field(resp: ResponseView, tag: Tag, value: Seq<u8>) -> Result<
    ResponseView,
    ErrorKind,
> {
    match tag {
        Tag::Regular(id) if id == TAG_REASON => match ascii_number(value, u32::MAX as nat) {
            Some(reason) => Ok(ResponseView { reason: reason as u32, ..resp }),
            None => Err(
                ErrorKind::IncorrectFieldData { field_name: "reason"@, should_be: "should be u32"@ },
            ),
        },
        Tag::Regular(id) if id == TAG_FEE => match fee_of(value) {
            Ok(fee) => Ok(ResponseView { fees: resp.fees.push(fee), ..resp }),
            Err(kind) => Err(kind),
        },
        Tag::Regular(id) if id == TAG_ADATA => Ok(
            ResponseView { adata: Some(utf8_lossy(value)), ..resp },
        ),
        _ => Ok(resp),
    }
}

/// The response after all the fields of `data`, taken one after another
/// until none is left; the first field that fails fails the whole.
pub open spec fn with_fields(resp: ResponseView, data: Seq<u8>) -> Result<ResponseView, ErrorKind>
    decreases data.len(),
{
    if data.len() == 0 {
        Ok(resp)
    } else {
        match first_field(data) {
            Err(kind) => Err(kind),
            Ok((tag, value, rest)) => match with_field(resp, tag, value) {
                Err(kind) => Err(kind),
                Ok(next) => with_fields(next, rest),
            },
        }
    }
}

/// The response that a body holds: four bytes of message type, taken as
/// text; ten bytes of serial number, digits with blanks around them let
/// pass; then fields to the end.
pub open spec fn response_of_body(body: Seq<u8>) -> Result<ResponseView, ErrorKind> {
    if body.len() < MTI_LEN + SERNO_LEN {
        Err(ErrorKind::Bounds)
    } else {
        match ascii_number(
            trim(body.subrange(MTI_LEN as int, MTI_LEN + SERNO_LEN)),
            u64::MAX as nat,
        ) {
            None => Err(ErrorKind::IncorrectFieldData { field_name: "Serno"@, should_be: "u64"@ }),
            Some(serno) => with_fields(
                ResponseView {
                    mti: utf8_lossy(body.subrange(0, MTI_LEN as int)),
                    auth_serno: serno as u64,
                    reason: 0,
                    fees: Seq::empty(),
                    adata: None,
                },
                body.subrange(MTI_LEN + SERNO_LEN, body.len() as int),
            ),
        }
    }
}

/// The response that a message on the wire holds, or the first thing that
/// is wrong with the message.
pub open spec fn response_of(data: Seq<u8>) -> Result<ResponseView, ErrorKind> {
    match framed_body(data) {
        Err(kind) => Err(kind),
        Ok(body) => response_of_body(body),
    }
}

/// A field whose tag means nothing to a response changes nothing and fails
/// nothing, whatever its value.
pub proof fn lemma_other_tags_passed_over(resp: ResponseView, tag: Tag, value: Seq<u8>)
    requires
        tag != Tag::Regular(TAG_REASON),
        tag != Tag::Regular(TAG_FEE),
        tag != Tag::Regular(TAG_ADATA),
    ensures
        with_field(resp, tag, value) == Ok::<ResponseView, ErrorKind>(resp),
{
}

impl SigmaResponse {
    /// A response without fees or additional data.
    pub fn new(mti: &str, auth_serno: u64, reason: u32) -> (r: Self)
        ensures
            r@ == (ResponseView {
                mti: mti@,
                auth_serno,
                reason,
                fees: Seq::empty(),
                adata: None,
            }),
    {
        SigmaResponse {
            mti: String::from_str(mti),
            auth_serno,
            reason,
            fees: Vec::new(),
            adata: None,
        }
    }

    /// Takes one field into the response.
    pub fn apply_field(&mut self, tag: Tag, value: &[u8]) -> (r: Result<(), Error>)
        ensures
            match with_field(old(self)@, tag, value@) {
                Ok(next) => r is Ok && final(self)@ == next,
                Err(kind) => r is Err && r->Err_0.kind() == kind && final(self)@ == old(self)@,
            },
    {
        match tag {
            Tag::Regular(id) => {
                if id == TAG_REASON {
                    let reason = parse_ascii_bytes(value, u32::MAX as u64, "reason", "should be u32")?;
                    self.reason = reason as u32;
                } else if id == TAG_FEE {
                    let fee = FeeData::from_slice(value)?;
                    self.fees.push(fee);
                } else if id == TAG_ADATA {
                    self.adata = Some(from_utf8_lossy(value));
                }
            },
            _ => {},
        }
        Ok(())
    }

    /// Reads a response from the wire. Nothing is returned of a message that
    /// is wrong anywhere; fields with tags that mean nothing here are passed
    /// over.
    pub fn decode(data: Bytes) -> (r: Result<Self, Error>)
        ensures
            match response_of(bytes_view(data)) {
                Ok(resp) => r is Ok && r->Ok_0@ == resp,
                Err(kind) => r is Err && r->Err_0.kind() == kind,
            },
    {
        let ghost wire = bytes_view(data);
        let mut body = unframe(data)?;
        let ghost all = bytes_view(body);
        let mti_src = bytes_split_to(&mut body, MTI_LEN)?;
        let serno_src = bytes_split_to(&mut body, SERNO_LEN)?;
        proof {
            assert(bytes_view(serno_src) =~= all.subrange(MTI_LEN as int, MTI_LEN + SERNO_LEN));
            assert(bytes_view(body) =~= all.subrange(MTI_LEN + SERNO_LEN, all.len() as int));
        }
        let auth_serno = parse_ascii_bytes(trim_ascii(&serno_src), u64::MAX, "Serno", "u64")?;
        let mut resp = SigmaResponse {
            mti: from_utf8_lossy(&mti_src),
            auth_serno,
            reason: 0,
            fees: Vec::new(),
            adata: None,
        };
        let ghost goal = with_fields(resp@, bytes_view(body));
        while !body.is_empty()
            invariant
                with_fields(resp@, bytes_view(body)) == goal,
                goal == response_of(wire),
                wire == bytes_view(data),
            decreases bytes_view(body).len(),
        {
            let (tag, value) = decode_field(&mut body)?;
            resp.apply_field(tag, &value)?;
        }
        Ok(resp)
    }
}

} // verus!
