//! The closed set of failures the codec reports.

use vstd::prelude::*;
use vstd::string::StringExecFns;
use crate::ascii::{decimal_digits, lemma_decimal_digits_value, push_decimal_digits};
use crate::text::{ascii_chars, ascii_string};

verus! {

/// A codec failure. Every variant carries text for a human reader; the
/// variants that concern a named field carry that name on its own.
#[derive(Debug, Clone, PartialEq)]
pub enum Error {
    /// A buffer was too short, or a value too large, for the wire format.
    Bounds(String),
    /// A tag name or tag header that the tag model does not know.
    IncorrectTag(String),
    /// A field is present but is not of the kind its meaning asks for.
    IncorrectFieldData { field_name: String, should_be: String },
    /// A mandatory field is absent.
    MissingField(String),
    /// The input as a whole does not have the expected structure.
    IncorrectData(String),
}

/// What an [`Error`] says once its free text is set aside.
pub enum ErrorKind {
    Bounds,
    IncorrectTag,
    IncorrectFieldData { field_name: Seq<char>, should_be: Seq<char> },
    MissingField(Seq<char>),
    IncorrectData,
}

impl Error {
    /// The variant of the error, with the field it names where it names one.
    pub open spec fn kind(&self) -> ErrorKind {
        match *self {
            Error::Bounds(_) => ErrorKind::Bounds,
            Error::IncorrectTag(_) => ErrorKind::IncorrectTag,
            Error::IncorrectFieldData { field_name, should_be } => ErrorKind::IncorrectFieldData {
                field_name: field_name@,
                should_be: should_be@,
            },
            Error::MissingField(name) => ErrorKind::MissingField(name@),
            Error::IncorrectData(_) => ErrorKind::IncorrectData,
        }
    }

    /// Builds the error for a field whose content is not what `should_be` describes.
    pub fn incorrect_field_data(field_name: &str, should_be: &str) -> (e: Self)
        ensures
            e.kind() == (ErrorKind::IncorrectFieldData {
                field_name: field_name@,
                should_be: should_be@,
            }),
    {
        Error::IncorrectFieldData {
            field_name: String::from_str(field_name),
            should_be: String::from_str(should_be),
        }
    }

    /// The text of the error, as a reader is shown it.
    pub open spec fn text(&self) -> Seq<char> {
        match *self {
            Error::Bounds(text) => text@,
            Error::IncorrectTag(name) => "Incorrect tag: "@ + name@,
            Error::IncorrectFieldData { field_name, should_be } => "Incorrect field '"@
                + field_name@ + "', should be "@ + should_be@,
            Error::MissingField(name) => "Missing field '"@ + name@ + "'"@,
            Error::IncorrectData(text) => text@,
        }
    }

    /// Writes the error out for a reader.
    pub fn message(&self) -> (s: String)
        ensures
            s@ == self.text(),
    {
        match self {
            Error::Bounds(text) => text.clone(),
            Error::IncorrectTag(name) => String::from_str("Incorrect tag: ").concat(name.as_str()),
            Error::IncorrectFieldData { field_name, should_be } => String::from_str(
                "Incorrect field '",
            ).concat(field_name.as_str()).concat("', should be ").concat(should_be.as_str()),
            Error::MissingField(name) => String::from_str("Missing field '").concat(
                name.as_str(),
            ).concat("'"),
            Error::IncorrectData(text) => text.clone(),
        }
    }

    /// Builds the error for a length `wanted` that passes the length `got`
    /// that there is. The text is `what`, then the two numbers.
    pub fn out_of_bounds(what: &str, wanted: usize, got: usize) -> (e: Self)
        ensures
            e.kind() == ErrorKind::Bounds,
            e.text() == what@ + ascii_chars(decimal_digits(wanted as nat)) + " <= "@ + ascii_chars(
                decimal_digits(got as nat),
            ),
    {
        let mut text = String::from_str(what);
        text.append(decimal_string(wanted as u64).as_str());
        text.append(" <= ");
        text.append(decimal_string(got as u64).as_str());
        Error::Bounds(text)
    }
}

/// The decimal form of `n` as a string.
pub fn decimal_string(n: u64) -> (s: String)
    ensures
        s@ == ascii_chars(decimal_digits(n as nat)),
{
    let mut digits: Vec<u8> = Vec::new();
    push_decimal_digits(n, &mut digits);
    proof {
        lemma_decimal_digits_value(n as nat);
        assert(digits@ =~= decimal_digits(n as nat));
    }
    ascii_string(digits.as_slice())
}

} // verus!
