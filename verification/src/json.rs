//! A request from a JSON value.
//!
//! What `serde_json` says of a value is taken on trust, item by item; what
//! is made of it is verified.

use vstd::prelude::*;
use vstd::string::StringExecFns;
use serde_json::Value;
use crate::assemble::{find_field, named_values, request_of, Scalar, ScalarView};
use crate::error::{Error, ErrorKind};
use crate::random::gen_random_auth_serno;
use crate::request::SigmaRequest;

verus! {

/// `serde_json::Value`, any JSON value. Its inside is not looked at.
#[verifier::external_type_specification]
#[verifier::external_body]
pub struct ExValue(Value);

/// The string that a JSON value is, if it is one.
pub uninterp spec fn json_text(value: Value) -> Option<Seq<char>>;

/// The number that a JSON value is, if it is a whole number that `u64` holds.
pub uninterp spec fn json_unsigned(value: Value) -> Option<u64>;

/// The members of a JSON object, as names and values in the order in which
/// the object hands them out, if the value is an object.
pub uninterp spec fn json_members(value: Value) -> Option<Seq<(Seq<char>, Value)>>;

/// `Value::as_str` returns the string of a value that is one, and nothing
/// of any other value.
pub assume_specification<'a>[ Value::as_str ](value: &'a Value) -> (r: Option<&'a str>)
    ensures
        match r {
            Some(text) => json_text(*value) == Some(text@),
            None => json_text(*value) is None,
        },
;

/// `Value::as_u64` returns the number of a value that is a whole number
/// within `u64`, and nothing of any other value.
pub assume_specification[ Value::as_u64 ](value: &Value) -> (r: Option<u64>)
    ensures
        r == json_unsigned(*value),
;

/// Calls `Value::as_object` and, on the object, `Map::iter`: hands out the
/// members of an object as copies, in the order of the walk, and nothing of
/// a value that is no object.
#[verifier::external_body]
fn object_members(value: &Value) -> (r: Option<Vec<(String, Value)>>)
    ensures
        match r {
            Some(members) => json_members(*value) == Some(
                members@.map_values(|member: (String, Value)| (member.0@, member.1)),
            ),
            None => json_members(*value) is None,
        },
{
    value.as_object().map(|object| object.iter().map(|(k, v)| (k.clone(), v.clone())).collect())
}

/// What a request looks at in a JSON value: its string, else its number,
/// else nothing.
pub open spec fn json_scalar(value: Value) -> ScalarView {
    match json_text(value) {
        Some(text) => ScalarView::Text(text),
        None => match json_unsigned(value) {
            Some(n) => ScalarView::Unsigned(n),
            None => ScalarView::Other,
        },
    }
}

/// The named fields that a JSON object holds.
pub open spec fn json_fields(members: Seq<(Seq<char>, Value)>) -> Seq<(Seq<char>, ScalarView)> {
    members.map_values(|member: (Seq<char>, Value)| (member.0, json_scalar(member.1)))
}

/// Reads from a JSON value what a request looks at.
pub fn scalar_of(value: &Value) -> (r: Scalar)
    ensures
        r@ == json_scalar(*value),
{
    match value.as_str() {
        Some(text) => Scalar::Text(String::from_str(text)),
        None => match value.as_u64() {
            Some(n) => Scalar::Unsigned(n),
            None => Scalar::Other,
        },
    }
}

impl SigmaRequest {
    /// Builds a request from a JSON object, whose members are the named
    /// fields. Where the object has no `Serno`, a serial number is drawn at
    /// random, and is not zero.
    pub fn from_json_value(data: Value) -> (r: Result<SigmaRequest, Error>)
        ensures
            match json_members(data) {
                None => r is Err && r->Err_0.kind() == ErrorKind::IncorrectData,
                Some(members) => exists|generated: u64|
                    generated > 0 && match #[trigger] request_of(json_fields(members), generated) {
                        Ok(req) => r is Ok && r->Ok_0@ == req,
                        Err(kind) => r is Err && r->Err_0.kind() == kind,
                    },
            },
    {
        let members = match object_members(&data) {
            Some(members) => members,
            None => {
                return Err(
                    Error::IncorrectData(String::from_str("SigmaRequest JSON should be object")),
                );
            },
        };
        let ghost all = json_members(data)->0;
        let mut fields: Vec<(String, Scalar)> = Vec::new();
        let mut i: usize = 0;
        while i < members.len()
            invariant
                0 <= i <= members.len(),
                all == members@.map_values(|member: (String, Value)| (member.0@, member.1)),
                fields@.len() == i,
                named_values(fields@) == json_fields(all).take(i as int),
            decreases members.len() - i,
        {
            let name = members[i].0.clone();
            let value = scalar_of(&members[i].1);
            fields.push((name, value));
            proof {
                assert(named_values(fields@) =~= json_fields(all).take(i + 1));
            }
            i = i + 1;
        }
        proof {
            assert(json_fields(all).take(i as int) =~= json_fields(all));
        }
        let generated = match find_field(fields.as_slice(), "Serno") {
            Some(_) => 1,
            None => gen_random_auth_serno(),
        };
        Self::from_fields(fields.as_slice(), generated)
    }
}

} // verus!
