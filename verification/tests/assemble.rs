use sigma::assemble::{find_field, Scalar};
use sigma::error::Error;
use sigma::json::scalar_of;
use sigma::random::{gen_random_auth_serno, serno_from};
use sigma::SigmaRequest;

fn text(name: &str, value: &str) -> (String, Scalar) {
    (name.to_string(), Scalar::Text(value.to_string()))
}

fn number(name: &str, value: u64) -> (String, Scalar) {
    (name.to_string(), Scalar::Unsigned(value))
}

fn other(name: &str) -> (String, Scalar) {
    (name.to_string(), Scalar::Other)
}

fn incorrect(field_name: &str, should_be: &str) -> Error {
    Error::IncorrectFieldData { field_name: field_name.into(), should_be: should_be.into() }
}

fn json(payload: &str) -> serde_json::Value {
    serde_json::from_str(payload).unwrap()
}

#[test]
fn fields_make_a_request() {
    let fields = vec![
        text("SAF", "Y"),
        text("SRC", "M"),
        text("MTI", "0200"),
        number("Serno", 6007040979),
        number("T0000", 2371492071643),
        text("T0001", "C"),
        text("i000", "0100"),
        number("i049", 643),
    ];
    let r = SigmaRequest::from_fields(&fields, 5).unwrap();
    assert_eq!(r.saf, "Y");
    assert_eq!(r.source, "M");
    assert_eq!(r.mti, "0200");
    assert_eq!(r.auth_serno, 6007040979);
    assert_eq!(r.tags.len(), 2);
    assert_eq!(r.tags.get(&0).unwrap(), "2371492071643");
    assert_eq!(r.tags.get(&1).unwrap(), "C");
    assert_eq!(r.iso_fields.len(), 2);
    assert_eq!(r.iso_fields.get(&0).unwrap(), "0100");
    assert_eq!(r.iso_fields.get(&49).unwrap(), "643");
    assert!(r.iso_subfields.is_empty());
}

#[test]
fn numbers_go_into_fields_in_decimal() {
    let fields = vec![
        text("SAF", "Y"),
        text("SRC", "M"),
        text("MTI", "0200"),
        number("T0000", 0),
        number("T0001", 10),
        number("T0002", u64::MAX),
    ];
    let r = SigmaRequest::from_fields(&fields, 1).unwrap();
    assert_eq!(r.tags.get(&0).unwrap(), "0");
    assert_eq!(r.tags.get(&1).unwrap(), "10");
    assert_eq!(r.tags.get(&2).unwrap(), "18446744073709551615");
}

#[test]
fn the_given_serial_number_stands_in_for_a_missing_one() {
    let fields = vec![text("SAF", "Y"), text("SRC", "M"), text("MTI", "0200")];
    assert_eq!(SigmaRequest::from_fields(&fields, 77).unwrap().auth_serno, 77);
    let fields = vec![text("SAF", "Y"), text("SRC", "M"), text("MTI", "0200"), number("Serno", 3)];
    assert_eq!(SigmaRequest::from_fields(&fields, 77).unwrap().auth_serno, 3);
}

#[test]
fn serial_number_as_digits() {
    let fields =
        vec![text("SAF", "Y"), text("SRC", "M"), text("MTI", "0200"), text("Serno", "0600704097")];
    assert_eq!(SigmaRequest::from_fields(&fields, 77).unwrap().auth_serno, 600704097);
    for wrong in ["", "12a", " 12", "-1", "18446744073709551616", "1.5"] {
        let fields =
            vec![text("SAF", "Y"), text("SRC", "M"), text("MTI", "0200"), text("Serno", wrong)];
        assert_eq!(
            SigmaRequest::from_fields(&fields, 77).err(),
            Some(incorrect("Serno", "integer"))
        );
    }
    let fields = vec![text("SAF", "Y"), text("SRC", "M"), text("MTI", "0200"), other("Serno")];
    assert_eq!(
        SigmaRequest::from_fields(&fields, 77).err(),
        Some(incorrect("Serno", "u64 or String with integer"))
    );
}

#[test]
fn a_missing_mandatory_field_is_named() {
    let fields = vec![text("SRC", "M"), text("MTI", "0200")];
    assert_eq!(
        SigmaRequest::from_fields(&fields, 1).err(),
        Some(Error::MissingField("SAF".to_string()))
    );
    let fields = vec![text("SAF", "N"), text("MTI", "0200")];
    assert_eq!(
        SigmaRequest::from_fields(&fields, 1).err(),
        Some(Error::MissingField("SRC".to_string()))
    );
    let fields = vec![text("SAF", "N"), text("SRC", "O")];
    assert_eq!(
        SigmaRequest::from_fields(&fields, 1).err(),
        Some(Error::MissingField("MTI".to_string()))
    );
    assert_eq!(
        SigmaRequest::from_fields(&[], 1).err(),
        Some(Error::MissingField("SAF".to_string()))
    );
}

#[test]
fn a_mandatory_field_that_is_no_string_is_named() {
    let fields = vec![number("SAF", 1234), text("SRC", "M"), text("MTI", "0200")];
    assert_eq!(SigmaRequest::from_fields(&fields, 1).err(), Some(incorrect("SAF", "String")));
    let fields = vec![text("SAF", "N"), number("SRC", 929292), text("MTI", "0200")];
    assert_eq!(SigmaRequest::from_fields(&fields, 1).err(), Some(incorrect("SRC", "String")));
    let fields = vec![text("SAF", "N"), text("SRC", "O"), other("MTI")];
    assert_eq!(SigmaRequest::from_fields(&fields, 1).err(), Some(incorrect("MTI", "String")));
}

#[test]
fn the_first_thing_wrong_is_reported() {
    let fields = vec![number("SAF", 1234), text("MTI", "0200")];
    assert_eq!(SigmaRequest::from_fields(&fields, 1).err(), Some(incorrect("SAF", "String")));
    let fields = vec![text("bogus", "x"), text("SRC", "M"), text("MTI", "0200")];
    assert_eq!(
        SigmaRequest::from_fields(&fields, 1).err(),
        Some(Error::MissingField("SAF".to_string()))
    );
    let fields = vec![
        text("SAF", "Y"),
        text("SRC", "M"),
        text("MTI", "0200"),
        other("T0001"),
        text("bogus", "x"),
    ];
    assert_eq!(
        SigmaRequest::from_fields(&fields, 1).err(),
        Some(incorrect("T0001", "u64 or String with integer"))
    );
    let fields = vec![
        text("SAF", "Y"),
        text("SRC", "M"),
        text("MTI", "0200"),
        text("bogus", "x"),
        other("T0001"),
    ];
    assert_eq!(
        SigmaRequest::from_fields(&fields, 1).err(),
        Some(Error::IncorrectTag("bogus".to_string()))
    );
}

#[test]
fn unknown_names_are_no_tags() {
    for name in ["T001", "i0048", "X0001", "saf", "i048.01", "I048"] {
        let fields = vec![text("SAF", "Y"), text("SRC", "M"), text("MTI", "0200"), text(name, "x")];
        assert_eq!(
            SigmaRequest::from_fields(&fields, 1).err(),
            Some(Error::IncorrectTag(name.to_string()))
        );
    }
}

#[test]
fn of_two_fields_of_one_name_the_later_stays() {
    let fields = vec![
        text("SAF", "N"),
        text("T0001", "first"),
        text("SRC", "M"),
        text("MTI", "0200"),
        text("T0001", "second"),
        text("SAF", "Y"),
        number("Serno", 1),
        number("Serno", 2),
    ];
    let r = SigmaRequest::from_fields(&fields, 9).unwrap();
    assert_eq!(r.saf, "Y");
    assert_eq!(r.auth_serno, 2);
    assert_eq!(r.tags.len(), 1);
    assert_eq!(r.tags.get(&1).unwrap(), "second");
    assert!(matches!(find_field(&fields, "Serno"), Some(Scalar::Unsigned(2))));
    assert!(find_field(&fields, "T0002").is_none());
}

#[test]
fn fields_are_set_by_tag() {
    let mut r = SigmaRequest::new("N", "X", "0100", 0);
    r.set_field(sigma::Tag::Regular(7), "a".to_string());
    r.set_field(sigma::Tag::Iso(7), "b".to_string());
    r.set_field(sigma::Tag::IsoSubfield(7, 1), "c".to_string());
    r.set_field(sigma::Tag::Regular(7), "d".to_string());
    assert_eq!(r.tags.get(&7).unwrap(), "d");
    assert_eq!(r.iso_fields.get(&7).unwrap(), "b");
    assert_eq!(r.iso_subfields.get(&(7, 1)).unwrap(), "c");
    assert_eq!(r.tags.len() + r.iso_fields.len() + r.iso_subfields.len(), 3);
}

#[test]
fn json_values_are_read_as_scalars() {
    assert!(matches!(scalar_of(&json(r#""0100""#)), Scalar::Text(s) if s == "0100"));
    assert!(matches!(scalar_of(&json(r#""""#)), Scalar::Text(s) if s.is_empty()));
    assert!(matches!(scalar_of(&json("643")), Scalar::Unsigned(643)));
    assert!(matches!(scalar_of(&json("18446744073709551615")), Scalar::Unsigned(u64::MAX)));
    assert!(matches!(scalar_of(&json("-1")), Scalar::Other));
    assert!(matches!(scalar_of(&json("1.5")), Scalar::Other));
    assert!(matches!(scalar_of(&json("null")), Scalar::Other));
    assert!(matches!(scalar_of(&json("true")), Scalar::Other));
    assert!(matches!(scalar_of(&json("[1]")), Scalar::Other));
    assert!(matches!(scalar_of(&json(r#"{"a":1}"#)), Scalar::Other));
}

#[test]
fn json_that_is_no_object_is_refused() {
    for payload in ["[]", "null", "12", r#""SAF""#, "true"] {
        assert_eq!(
            SigmaRequest::from_json_value(json(payload)).err(),
            Some(Error::IncorrectData("SigmaRequest JSON should be object".to_string()))
        );
    }
}

#[test]
fn json_members_are_the_named_fields() {
    let r = SigmaRequest::from_json_value(json(
        r#"{"i002": "555544******1111", "T0016": 74707182, "MTI": "0200", "SRC": "M", "SAF": "Y", "Serno": "42"}"#,
    ))
    .unwrap();
    assert_eq!(r.saf, "Y");
    assert_eq!(r.source, "M");
    assert_eq!(r.mti, "0200");
    assert_eq!(r.auth_serno, 42);
    assert_eq!(r.tags.get(&16).unwrap(), "74707182");
    assert_eq!(r.iso_fields.get(&2).unwrap(), "555544******1111");
}

#[test]
fn json_members_of_the_wrong_kind_are_named() {
    let missing = SigmaRequest::from_json_value(json(r#"{"SRC": "M", "MTI": "0200"}"#));
    assert_eq!(missing.err(), Some(Error::MissingField("SAF".to_string())));
    let wrong = SigmaRequest::from_json_value(json(r#"{"SAF": 1234, "SRC": "M", "MTI": "0200"}"#));
    assert_eq!(wrong.err(), Some(incorrect("SAF", "String")));
    let wrong = SigmaRequest::from_json_value(json(
        r#"{"SAF": "Y", "SRC": "M", "MTI": "0200", "T0001": 1.5}"#,
    ));
    assert_eq!(wrong.err(), Some(incorrect("T0001", "u64 or String with integer")));
    let wrong = SigmaRequest::from_json_value(json(
        r#"{"SAF": "Y", "SRC": "M", "MTI": "0200", "Serno": null}"#,
    ));
    assert_eq!(wrong.err(), Some(incorrect("Serno", "u64 or String with integer")));
    let wrong = SigmaRequest::from_json_value(json(
        r#"{"SAF": "Y", "SRC": "M", "MTI": "0200", "Serno": "abc"}"#,
    ));
    assert_eq!(wrong.err(), Some(incorrect("Serno", "integer")));
    let wrong = SigmaRequest::from_json_value(json(
        r#"{"SAF": "Y", "SRC": "M", "MTI": "0200", "field": "x"}"#,
    ));
    assert_eq!(wrong.err(), Some(Error::IncorrectTag("field".to_string())));
}

#[test]
fn drawn_serial_numbers_are_not_zero() {
    for _ in 0..1000 {
        assert!(gen_random_auth_serno() > 0);
    }
    assert_eq!(serno_from(0), 1);
    assert_eq!(serno_from(1), 1);
    assert_eq!(serno_from(7877706965687192023), 7877706965687192023);
    assert_eq!(serno_from(u64::MAX), u64::MAX);
}

#[test]
fn drawn_serial_numbers_differ() {
    let first = gen_random_auth_serno();
    assert!((0..64).any(|_| gen_random_auth_serno() != first));
}

#[test]
fn errors_are_written_out() {
    assert_eq!(Error::Bounds("split_to out of bounds: 7 <= 6".into()).message(), "split_to out of bounds: 7 <= 6");
    assert_eq!(Error::IncorrectTag("bogus".into()).message(), "Incorrect tag: bogus");
    assert_eq!(
        Error::incorrect_field_data("Serno", "u64").message(),
        "Incorrect field 'Serno', should be u64"
    );
    assert_eq!(Error::MissingField("SAF".into()).message(), "Missing field 'SAF'");
    assert_eq!(Error::IncorrectData("no object".into()).message(), "no object");
    assert_eq!(
        Error::out_of_bounds("message too long: ", 99999, 100000).message(),
        "message too long: 99999 <= 100000"
    );
    assert_eq!(
        Error::incorrect_field_data("FeeData.amount", "valid integer"),
        Error::IncorrectFieldData {
            field_name: "FeeData.amount".into(),
            should_be: "valid integer".into()
        }
    );
}
