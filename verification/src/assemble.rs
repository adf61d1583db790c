//! Building a request from named fields.

use vstd::prelude::*;
use vstd::string::StringExecFns;
use vstd::utf8::encode_utf8;
use std::collections::BTreeMap;
use crate::ascii::{ascii_number, decimal_digits, parse_ascii_digits};
use crate::error::{decimal_string, Error, ErrorKind};
use crate::request::{lemma_request_round_trip, RequestView, SigmaRequest};
use crate::tag::{tag_of_name, Tag};
use crate::text::{ascii_chars, str_eq};

verus! {

/// The value of a named field, as far as a request looks at it.
#[derive(Debug, Clone, PartialEq)]
pub enum Scalar {
    /// A string.
    Text(String),
    /// A whole number that is not negative.
    Unsigned(u64),
    /// Anything else.
    Other,
}

/// What a [`Scalar`] holds.
pub enum ScalarView {
    Text(Seq<char>),
    Unsigned(u64),
    Other,
}

impl View for Scalar {
    type V = ScalarView;

    open spec fn view(&self) -> ScalarView {
        match *self {
            Scalar::Text(text) => ScalarView::Text(text@),
            Scalar::Unsigned(n) => ScalarView::Unsigned(n),
            Scalar::Other => ScalarView::Other,
        }
    }
}

/// Named fields as names and values.
pub open spec fn named_values(fields: Seq<(String, Scalar)>) -> Seq<(Seq<char>, ScalarView)> {
    fields.map_values(|field: (String, Scalar)| (field.0@, field.1@))
}

/// The value that goes by a name: that of the last field of that name.
pub open spec fn lookup(fields: Seq<(Seq<char>, ScalarView)>, name: Seq<char>) -> Option<
    ScalarView,
>
    decreases fields.len(),
{
    if fields.len() == 0 {
        None
    } else if fields.last().0 == name {
        Some(fields.last().1)
    } else {
        lookup(fields.drop_last(), name)
    }
}

/// The text of a field that has to be there and has to be a string.
pub open spec fn mandatory_text(fields: Seq<(Seq<char>, ScalarView)>, name: Seq<char>) -> Result<
    Seq<char>,
    ErrorKind,
> {
    match lookup(fields, name) {
        None => Err(ErrorKind::MissingField(name)),
        Some(ScalarView::Text(text)) => Ok(text),
        Some(_) => Err(ErrorKind::IncorrectFieldData { field_name: name, should_be: "String"@ }),
    }
}

/// The serial number of a request: the number under `Serno`, or the number
/// that a string of digits under `Serno` spells, or `generated` where no
/// field is called `Serno`.
pub open spec fn serial_of(fields: Seq<(Seq<char>, ScalarView)>, generated: u64) -> Result<
    u64,
    ErrorKind,
> {
    match lookup(fields, "Serno"@) {
        None => Ok(generated),
        Some(ScalarView::Unsigned(n)) => Ok(n),
        Some(ScalarView::Text(text)) => match ascii_number(encode_utf8(text), u64::MAX as nat) {
            Some(n) => Ok(n as u64),
            None => Err(
                ErrorKind::IncorrectFieldData { field_name: "Serno"@, should_be: "integer"@ },
            ),
        },
        Some(ScalarView::Other) => Err(
            ErrorKind::IncorrectFieldData {
                field_name: "Serno"@,
                should_be: "u64 or String with integer"@,
            },
        ),
    }
}

/// The names that stand for the start of the request and not for a tag.
pub open spec fn is_reserved(name: Seq<char>) -> bool {
    name == "SAF"@ || name == "SRC"@ || name == "MTI"@ || name == "Serno"@
}

/// The text that a value puts into a field: a string as it is, a number in
/// decimal. Nothing else can go into a field.
pub open spec fn field_text(value: ScalarView) -> Option<Seq<char>> {
    match value {
        ScalarView::Text(text) => Some(text),
        ScalarView::Unsigned(n) => Some(ascii_chars(decimal_digits(n as nat))),
        ScalarView::Other => None,
    }
}

impl RequestView {
    /// The request with one field set, in place of what was there under the tag.
    pub open spec fn with_field(self, tag: Tag, text: Seq<char>) -> RequestView {
        match tag {
            Tag::Regular(id) => RequestView { tags: self.tags.insert(id, text), ..self },
            Tag::Iso(id) => RequestView { iso_fields: self.iso_fields.insert(id, text), ..self },
            Tag::IsoSubfield(id, sub) => RequestView {
                iso_subfields: self.iso_subfields.insert((id, sub), text),
                ..self
            },
        }
    }
}

/// The request after the named fields are taken in, one after another. A
/// reserved name is passed over. Any other name has to be the name of a
/// tag, and its value a string or a number; the first that is not fails
/// the whole.
pub open spec fn with_named_fields(
    req: RequestView,
    fields: Seq<(Seq<char>, ScalarView)>,
) -> Result<RequestView, ErrorKind>
    decreases fields.len(),
{
    if fields.len() == 0 {
        Ok(req)
    } else {
        let (name, value) = fields[0];
        if is_reserved(name) {
            with_named_fields(req, fields.drop_first())
        } else {
            match tag_of_name(encode_utf8(name)) {
                None => Err(ErrorKind::IncorrectTag),
                Some(tag) => match field_text(value) {
                    None => Err(
                        ErrorKind::IncorrectFieldData {
                            field_name: name,
                            should_be: "u64 or String with integer"@,
                        },
                    ),
                    Some(text) => with_named_fields(req.with_field(tag, text), fields.drop_first()),
                },
            }
        }
    }
}

/// The request that named fields describe, or the first thing that is
/// wrong with them. `SAF`, `SRC` and `MTI` are looked at first, in that
/// order, then `Serno`, then the fields in the order they come in.
pub open spec fn request_of(fields: Seq<(Seq<char>, ScalarView)>, generated: u64) -> Result<
    RequestView,
    ErrorKind,
> {
    match mandatory_text(fields, "SAF"@) {
        Err(kind) => Err(kind),
        Ok(saf) => match mandatory_text(fields, "SRC"@) {
            Err(kind) => Err(kind),
            Ok(source) => match mandatory_text(fields, "MTI"@) {
                Err(kind) => Err(kind),
                Ok(mti) => match serial_of(fields, generated) {
                    Err(kind) => Err(kind),
                    Ok(auth_serno) => with_named_fields(
                        RequestView {
                            saf,
                            source,
                            mti,
                            auth_serno,
                            tags: Map::empty(),
                            iso_fields: Map::empty(),
                            iso_subfields: Map::empty(),
                        },
                        fields,
                    ),
                },
            },
        },
    }
}

/// No request is built of fields that lack `SAF`, `SRC` or `MTI`. The one
/// that is missing is named, unless one that is looked at before it is
/// there and is no string: then that one is reported.
pub proof fn lemma_missing_mandatory(fields: Seq<(Seq<char>, ScalarView)>, generated: u64)
    ensures
        lookup(fields, "SAF"@) is None || lookup(fields, "SRC"@) is None || lookup(
            fields,
            "MTI"@,
        ) is None ==> request_of(fields, generated) is Err,
        lookup(fields, "SAF"@) is None ==> request_of(fields, generated) == Err::<
            RequestView,
            ErrorKind,
        >(ErrorKind::MissingField("SAF"@)),
        mandatory_text(fields, "SAF"@) is Ok && lookup(fields, "SRC"@) is None ==> request_of(
            fields,
            generated,
        ) == Err::<RequestView, ErrorKind>(ErrorKind::MissingField("SRC"@)),
        mandatory_text(fields, "SAF"@) is Ok && mandatory_text(fields, "SRC"@) is Ok && lookup(
            fields,
            "MTI"@,
        ) is None ==> request_of(fields, generated) == Err::<RequestView, ErrorKind>(
            ErrorKind::MissingField("MTI"@),
        ),
{
}

/// No request is built of fields whose `SAF` is anything but a string: the
/// field is reported, with what it should be. The same holds of `SRC` and
/// of `MTI`, where the fields looked at before are in order.
pub proof fn lemma_mandatory_not_text(fields: Seq<(Seq<char>, ScalarView)>, generated: u64)
    ensures
        lookup(fields, "SAF"@) is Some && !(lookup(fields, "SAF"@)->0 is Text) ==> request_of(
            fields,
            generated,
        ) == Err::<RequestView, ErrorKind>(
            ErrorKind::IncorrectFieldData { field_name: "SAF"@, should_be: "String"@ },
        ),
        mandatory_text(fields, "SAF"@) is Ok && lookup(fields, "SRC"@) is Some && !(lookup(
            fields,
            "SRC"@,
        )->0 is Text) ==> request_of(fields, generated) == Err::<RequestView, ErrorKind>(
            ErrorKind::IncorrectFieldData { field_name: "SRC"@, should_be: "String"@ },
        ),
        mandatory_text(fields, "SAF"@) is Ok && mandatory_text(fields, "SRC"@) is Ok && lookup(
            fields,
            "MTI"@,
        ) is Some && !(lookup(fields, "MTI"@)->0 is Text) ==> request_of(fields, generated)
            == Err::<RequestView, ErrorKind>(
            ErrorKind::IncorrectFieldData { field_name: "MTI"@, should_be: "String"@ },
        ),
{
}

/// Taking in named fields leaves the start of a request as it is.
pub proof fn lemma_named_fields_keep_head(req: RequestView, fields: Seq<(Seq<char>, ScalarView)>)
    requires
        with_named_fields(req, fields) is Ok,
    ensures
        with_named_fields(req, fields)->Ok_0.saf == req.saf,
        with_named_fields(req, fields)->Ok_0.source == req.source,
        with_named_fields(req, fields)->Ok_0.mti == req.mti,
        with_named_fields(req, fields)->Ok_0.auth_serno == req.auth_serno,
    decreases fields.len(),
{
    if fields.len() > 0 {
        let (name, value) = fields[0];
        if is_reserved(name) {
            lemma_named_fields_keep_head(req, fields.drop_first());
        } else {
            let tag = tag_of_name(encode_utf8(name))->0;
            let text = field_text(value)->0;
            lemma_named_fields_keep_head(req.with_field(tag, text), fields.drop_first());
        }
    }
}

/// A request built from named fields holds what the fields say: `SAF`,
/// `SRC` and `MTI` as they are given, and the serial number under `Serno`,
/// or the generated one where there is none.
pub proof fn lemma_request_keeps_mandatory(fields: Seq<(Seq<char>, ScalarView)>, generated: u64)
    requires
        request_of(fields, generated) is Ok,
    ensures
        lookup(fields, "SAF"@) == Some(ScalarView::Text(request_of(fields, generated)->Ok_0.saf)),
        lookup(fields, "SRC"@) == Some(
            ScalarView::Text(request_of(fields, generated)->Ok_0.source),
        ),
        lookup(fields, "MTI"@) == Some(ScalarView::Text(request_of(fields, generated)->Ok_0.mti)),
        serial_of(fields, generated) == Ok::<u64, ErrorKind>(
            request_of(fields, generated)->Ok_0.auth_serno,
        ),
        lookup(fields, "Serno"@) is None ==> request_of(fields, generated)->Ok_0.auth_serno
            == generated,
{
    let start = RequestView {
        saf: mandatory_text(fields, "SAF"@)->Ok_0,
        source: mandatory_text(fields, "SRC"@)->Ok_0,
        mti: mandatory_text(fields, "MTI"@)->Ok_0,
        auth_serno: serial_of(fields, generated)->Ok_0,
        tags: Map::empty(),
        iso_fields: Map::empty(),
        iso_subfields: Map::empty(),
    };
    lemma_named_fields_keep_head(start, fields);
}

/// From named fields to the wire and back: where fields make a request
/// that can be written, the frame of the message gives the body back, and
/// the body starts with the very `SAF`, `SRC` and `MTI` of the fields and
/// with the digits of their serial number. The flag and the source are
/// taken to be one byte each and the message type four.
pub proof fn lemma_assembled_round_trip(
    fields: Seq<(Seq<char>, ScalarView)>,
    generated: u64,
    rest: Seq<u8>,
)
    requires
        request_of(fields, generated) is Ok,
        request_of(fields, generated)->Ok_0.encodable(),
        lookup(fields, "SAF"@) matches Some(ScalarView::Text(saf)) && encode_utf8(saf).len() == 1,
        lookup(fields, "SRC"@) matches Some(ScalarView::Text(source)) && encode_utf8(
            source,
        ).len() == 1,
        lookup(fields, "MTI"@) matches Some(ScalarView::Text(mti)) && encode_utf8(mti).len() == 4,
    ensures
        ({
            let req = request_of(fields, generated)->Ok_0;
            &&& crate::frame::framed_body(req.wire() + rest) == Ok::<Seq<u8>, ErrorKind>(req.body())
            &&& lookup(fields, "SAF"@) == Some(ScalarView::Text(decode_one(req.body(), 0, 1)))
            &&& lookup(fields, "SRC"@) == Some(ScalarView::Text(decode_one(req.body(), 1, 2)))
            &&& lookup(fields, "MTI"@) == Some(ScalarView::Text(decode_one(req.body(), 2, 6)))
            &&& req.auth_serno <= 9_999_999_999 ==> serial_of(fields, generated) == Ok::<
                u64,
                ErrorKind,
            >(ascii_number(req.body().subrange(6, 16), u64::MAX as nat)->0 as u64)
        }),
{
    let req = request_of(fields, generated)->Ok_0;
    lemma_request_keeps_mandatory(fields, generated);
    lemma_request_round_trip(req, rest);
    vstd::utf8::encode_utf8_decode_utf8(req.saf);
    vstd::utf8::encode_utf8_decode_utf8(req.source);
    vstd::utf8::encode_utf8_decode_utf8(req.mti);
}

/// The text that a stretch of a body holds.
pub open spec fn decode_one(body: Seq<u8>, from: int, to: int) -> Seq<char> {
    vstd::utf8::decode_utf8(body.subrange(from, to))
}

/// Where the fields give a serial number, nothing hangs on the generated one.
pub proof fn lemma_given_serial_decides(
    fields: Seq<(Seq<char>, ScalarView)>,
    generated: u64,
    other: u64,
)
    requires
        lookup(fields, "Serno"@) is Some,
    ensures
        request_of(fields, generated) == request_of(fields, other),
{
}

/// Finds the value that goes by a name.
pub fn find_field<'a>(fields: &'a [(String, Scalar)], name: &str) -> (r: Option<&'a Scalar>)
    ensures
        match lookup(named_values(fields@), name@) {
            Some(value) => r is Some && r->0@ == value,
            None => r is None,
        },
{
    let ghost named = named_values(fields@);
    let mut i: usize = fields.len();
    proof {
        assert(named.take(i as int) =~= named);
    }
    while i > 0
        invariant
            0 <= i <= fields.len(),
            named == named_values(fields@),
            lookup(named, name@) == lookup(named.take(i as int), name@),
        decreases i,
    {
        i = i - 1;
        proof {
            assert(named.take(i + 1).drop_last() =~= named.take(i as int));
            assert(named.take(i + 1).last() == named[i as int]);
        }
        if str_eq(fields[i].0.as_str(), name) {
            return Some(&fields[i].1);
        }
    }
    None
}

/// Takes the text of a field that has to be there and has to be a string.
fn take_mandatory(fields: &[(String, Scalar)], name: &str) -> (r: Result<String, Error>)
    ensures
        match mandatory_text(named_values(fields@), name@) {
            Ok(text) => r is Ok && r->Ok_0@ == text,
            Err(kind) => r is Err && r->Err_0.kind() == kind,
        },
{
    match find_field(fields, name) {
        None => Err(Error::MissingField(String::from_str(name))),
        Some(Scalar::Text(text)) => Ok(text.clone()),
        Some(_) => Err(Error::incorrect_field_data(name, "String")),
    }
}

/// Whether a name stands for the start of the request and not for a tag.
fn reserved(name: &str) -> (r: bool)
    ensures
        r == is_reserved(name@),
{
    str_eq(name, "SAF") || str_eq(name, "SRC") || str_eq(name, "MTI") || str_eq(name, "Serno")
}

impl SigmaRequest {
    /// Sets one field, in place of what was there under the tag.
    pub fn set_field(&mut self, tag: Tag, text: String)
        ensures
            final(self)@ == old(self)@.with_field(tag, text@),
    {
        match tag {
            Tag::Regular(id) => {
                self.tags.insert(id, text);
                assert(self@.tags =~= old(self)@.tags.insert(id, text@));
            },
            Tag::Iso(id) => {
                self.iso_fields.insert(id, text);
                assert(self@.iso_fields =~= old(self)@.iso_fields.insert(id, text@));
            },
            Tag::IsoSubfield(id, sub) => {
                self.iso_subfields.insert((id, sub), text);
                assert(self@.iso_subfields =~= old(self)@.iso_subfields.insert((id, sub), text@));
            },
        }
    }

    /// Builds a request from named fields. `SAF`, `SRC` and `MTI` have to
    /// be there, as strings. `Serno` is a number or a string of digits;
    /// where it is missing the serial number is `generated_serno`. Every
    /// other name has to be the name of a tag, and its value a string or a
    /// number. Of two fields for one tag the later stays.
    pub fn from_fields(fields: &[(String, Scalar)], generated_serno: u64) -> (r: Result<
        SigmaRequest,
        Error,
    >)
        ensures
            match request_of(named_values(fields@), generated_serno) {
                Ok(req) => r is Ok && r->Ok_0@ == req,
                Err(kind) => r is Err && r->Err_0.kind() == kind,
            },
    {
        let ghost named = named_values(fields@);
        let saf = take_mandatory(fields, "SAF")?;
        let source = take_mandatory(fields, "SRC")?;
        let mti = take_mandatory(fields, "MTI")?;
        let auth_serno = match find_field(fields, "Serno") {
            None => generated_serno,
            Some(Scalar::Unsigned(n)) => *n,
            Some(Scalar::Text(text)) => match parse_ascii_digits(text.as_str().as_bytes(), u64::MAX) {
                Some(n) => n,
                None => {
                    return Err(Error::incorrect_field_data("Serno", "integer"));
                },
            },
            Some(Scalar::Other) => {
                return Err(Error::incorrect_field_data("Serno", "u64 or String with integer"));
            },
        };
        let mut req = SigmaRequest {
            saf,
            source,
            mti,
            auth_serno,
            tags: BTreeMap::new(),
            iso_fields: BTreeMap::new(),
            iso_subfields: BTreeMap::new(),
        };
        proof {
            assert(req@.tags =~= Map::empty());
            assert(req@.iso_fields =~= Map::empty());
            assert(req@.iso_subfields =~= Map::empty());
            assert(named.skip(0) =~= named);
        }
        let ghost goal = request_of(named, generated_serno);
        let mut i: usize = 0;
        while i < fields.len()
            invariant
                0 <= i <= fields.len(),
                named == named_values(fields@),
                goal == request_of(named, generated_serno),
                with_named_fields(req@, named.skip(i as int)) == goal,
            decreases fields.len() - i,
        {
            proof {
                assert(named.skip(i as int).drop_first() =~= named.skip(i + 1));
                assert(named.skip(i as int)[0] == named[i as int]);
            }
            let name = fields[i].0.as_str();
            if !reserved(name) {
                let tag = Tag::from_str(name)?;
                let text = match &fields[i].1 {
                    Scalar::Text(text) => text.clone(),
                    Scalar::Unsigned(n) => decimal_string(*n),
                    Scalar::Other => {
                        return Err(Error::incorrect_field_data(name, "u64 or String with integer"));
                    },
                };
                req.set_field(tag, text);
            }
            i = i + 1;
        }
        Ok(req)
    }
}

} // verus!
