use bytes::{Bytes, BytesMut};
use sigma::ascii::{format_ascii_digits, parse_ascii_bytes, parse_ascii_digits, trim_ascii};
use sigma::bcd::{decode_bcd_x2, decode_bcd_x4, encode_bcd_x2, encode_bcd_x4};
use sigma::error::Error;
use sigma::field::{bytes_split_to, decode_field, encode_field_to_buf, field_header};
use sigma::frame::{frame, unframe};
use sigma::tag::{decode_tag_header, Tag};
use sigma::text::{bytes_eq, str_eq};

#[test]
fn bcd_packs_four_digits() {
    assert_eq!(encode_bcd_x4(0), [0x00, 0x00]);
    assert_eq!(encode_bcd_x4(7), [0x00, 0x07]);
    assert_eq!(encode_bcd_x4(48), [0x00, 0x48]);
    assert_eq!(encode_bcd_x4(105), [0x01, 0x05]);
    assert_eq!(encode_bcd_x4(1234), [0x12, 0x34]);
    assert_eq!(encode_bcd_x4(9999), [0x99, 0x99]);
    assert_eq!(encode_bcd_x2(0), 0x00);
    assert_eq!(encode_bcd_x2(99), 0x99);
}

#[test]
fn bcd_unpacks_four_digits() {
    assert_eq!(decode_bcd_x4(&[0x00, 0x00]), Ok(0));
    assert_eq!(decode_bcd_x4(&[0x00, 0x31]), Ok(31));
    assert_eq!(decode_bcd_x4(&[0x01, 0x05]), Ok(105));
    assert_eq!(decode_bcd_x4(&[0x99, 0x99]), Ok(9999));
    assert_eq!(decode_bcd_x2(0x42), Ok(42));
}

#[test]
fn bcd_round_trip_of_every_number() {
    for n in 0..=9999u16 {
        assert_eq!(decode_bcd_x4(&encode_bcd_x4(n)), Ok(n));
    }
}

#[test]
fn bcd_rejects_every_pair_with_a_nibble_above_nine() {
    for hi in 0..=255u8 {
        for lo in 0..=255u8 {
            let valid = hi >> 4 <= 9 && hi & 0x0f <= 9 && lo >> 4 <= 9 && lo & 0x0f <= 9;
            match decode_bcd_x4(&[hi, lo]) {
                Ok(n) => {
                    assert!(valid);
                    assert_eq!(encode_bcd_x4(n), [hi, lo]);
                }
                Err(e) => {
                    assert!(!valid);
                    assert!(matches!(e, Error::Bounds(_)));
                }
            }
        }
    }
}

#[test]
fn ascii_digits_are_read() {
    assert_eq!(parse_ascii_digits(b"00024", 99999), Some(24));
    assert_eq!(parse_ascii_digits(b"0", u64::MAX), Some(0));
    assert_eq!(parse_ascii_digits(b"8495", u32::MAX as u64), Some(8495));
    assert_eq!(parse_ascii_digits(b"18446744073709551615", u64::MAX), Some(u64::MAX));
    assert_eq!(parse_ascii_digits(b"65535", u16::MAX as u64), Some(65535));
}

#[test]
fn ascii_digits_are_refused() {
    assert_eq!(parse_ascii_digits(b"", u64::MAX), None);
    assert_eq!(parse_ascii_digits(b"12a", u64::MAX), None);
    assert_eq!(parse_ascii_digits(b"ABCD", u64::MAX), None);
    assert_eq!(parse_ascii_digits(b"+12", u64::MAX), None);
    assert_eq!(parse_ascii_digits(b"-12", u64::MAX), None);
    assert_eq!(parse_ascii_digits(b" 12", u64::MAX), None);
    assert_eq!(parse_ascii_digits(b"12 ", u64::MAX), None);
    assert_eq!(parse_ascii_digits(b"65536", u16::MAX as u64), None);
    assert_eq!(parse_ascii_digits(b"4294967296", u32::MAX as u64), None);
    assert_eq!(parse_ascii_digits(b"18446744073709551616", u64::MAX), None);
    assert_eq!(parse_ascii_digits(b"99999999999999999999999", u64::MAX), None);
    assert_eq!(parse_ascii_digits(b"5", 4), None);
}

#[test]
fn ascii_field_names_what_is_wrong() {
    assert_eq!(parse_ascii_bytes(b"8100", u32::MAX as u64, "reason", "u32"), Ok(8100));
    assert_eq!(
        parse_ascii_bytes(b"81x0", u32::MAX as u64, "reason", "u32"),
        Err(Error::IncorrectFieldData { field_name: "reason".into(), should_be: "u32".into() })
    );
}

#[test]
fn blanks_are_trimmed() {
    assert_eq!(trim_ascii(b"123123    "), b"123123");
    assert_eq!(trim_ascii(b"  \t12 3\r\n"), b"12 3");
    assert_eq!(trim_ascii(b"\x0b\x0c7"), b"7");
    assert_eq!(trim_ascii(b"    "), b"");
    assert_eq!(trim_ascii(b""), b"");
    assert_eq!(trim_ascii(b"0110"), b"0110");
}

#[test]
fn numbers_are_written_in_fields() {
    assert_eq!(format_ascii_digits(24, 5), b"00024");
    assert_eq!(format_ascii_digits(0, 10), b"0000000000");
    assert_eq!(format_ascii_digits(6007040979, 10), b"6007040979");
    assert_eq!(format_ascii_digits(99999, 5), b"99999");
    assert_eq!(format_ascii_digits(7, 1), b"7");
}

#[test]
fn numbers_too_long_keep_their_leading_digits() {
    assert_eq!(format_ascii_digits(7877706965687192023, 10), b"7877706965");
    assert_eq!(format_ascii_digits(10000000000, 10), b"1000000000");
    assert_eq!(format_ascii_digits(u64::MAX, 10), b"1844674407");
    assert_eq!(format_ascii_digits(123456, 5), b"12345");
    assert_eq!(format_ascii_digits(123, 0), b"");
}

#[test]
fn written_numbers_read_back() {
    for n in [0u64, 1, 9, 10, 99, 100, 12345, 99999] {
        let field = format_ascii_digits(n, 5);
        assert_eq!(field.len(), 5);
        assert_eq!(parse_ascii_digits(&field, 99999), Some(n));
    }
    for n in [0u64, 4007040978, 9999999999] {
        assert_eq!(parse_ascii_digits(&format_ascii_digits(n, 10), u64::MAX), Some(n));
    }
}

#[test]
fn tag_names_resolve() {
    assert_eq!(Tag::from_str("T0000"), Ok(Tag::Regular(0)));
    assert_eq!(Tag::from_str("T0022"), Ok(Tag::Regular(22)));
    assert_eq!(Tag::from_str("T9999"), Ok(Tag::Regular(9999)));
    assert_eq!(Tag::from_str("i000"), Ok(Tag::Iso(0)));
    assert_eq!(Tag::from_str("i048"), Ok(Tag::Iso(48)));
    assert_eq!(Tag::from_str("i102"), Ok(Tag::Iso(102)));
    assert_eq!(Tag::from_str("i999"), Ok(Tag::Iso(999)));
}

#[test]
fn unknown_tag_names_are_refused() {
    for name in [
        "", "T", "i", "T001", "T00001", "i01", "i0001", "X0001", "t0001", "I048", "T00a1", "i0x8",
        "T 001", "SAF", "i048.1", "i048:01", "T+001", "\u{442}0001",
    ] {
        assert_eq!(Tag::from_str(name), Err(Error::IncorrectTag(name.to_string())));
    }
}

#[test]
fn tag_headers_are_written() {
    assert_eq!(&Tag::Regular(0).encode(), b"T\x00\x00\x00");
    assert_eq!(&Tag::Regular(10).encode(), b"T\x00\x10\x00");
    assert_eq!(&Tag::Regular(9999).encode(), b"T\x99\x99\x00");
    assert_eq!(&Tag::Iso(102).encode(), b"I\x01\x02\x00");
    assert_eq!(&Tag::IsoSubfield(48, 5).encode(), b"I\x00\x48\x05");
    assert_eq!(&Tag::IsoSubfield(9999, 99).encode(), b"I\x99\x99\x99");
}

#[test]
fn tag_headers_are_read() {
    assert_eq!(Tag::decode(Bytes::from_static(b"T\x00\x31\x00")), Ok(Tag::Regular(31)));
    assert_eq!(Tag::decode(Bytes::from_static(b"I\x01\x02\x00")), Ok(Tag::Iso(102)));
    assert_eq!(Tag::decode(Bytes::from_static(b"I\x00\x48\x05")), Ok(Tag::IsoSubfield(48, 5)));
    assert_eq!(decode_tag_header(b"T\x99\x99\x00"), Ok(Tag::Regular(9999)));
}

#[test]
fn tag_headers_read_back() {
    for tag in [
        Tag::Regular(0),
        Tag::Regular(48),
        Tag::Regular(9999),
        Tag::Iso(0),
        Tag::Iso(9999),
        Tag::IsoSubfield(0, 1),
        Tag::IsoSubfield(48, 99),
    ] {
        assert_eq!(decode_tag_header(&tag.encode()), Ok(tag));
    }
    assert_eq!(decode_tag_header(&Tag::IsoSubfield(48, 0).encode()), Ok(Tag::Iso(48)));
}

#[test]
fn wrong_tag_headers_are_refused() {
    assert!(matches!(decode_tag_header(b"X\x00\x31\x00"), Err(Error::IncorrectTag(_))));
    assert!(matches!(decode_tag_header(b"i\x00\x31\x00"), Err(Error::IncorrectTag(_))));
    assert!(matches!(decode_tag_header(b"T\x00\x31\x01"), Err(Error::IncorrectTag(_))));
    assert!(matches!(decode_tag_header(b"T\x00\x3a\x00"), Err(Error::Bounds(_))));
    assert!(matches!(decode_tag_header(b"I\xa0\x31\x00"), Err(Error::Bounds(_))));
    assert!(matches!(decode_tag_header(b"I\x00\x31\x0a"), Err(Error::Bounds(_))));
    assert!(matches!(decode_tag_header(b"T\x00\x31"), Err(Error::Bounds(_))));
    assert!(matches!(decode_tag_header(b"T\x00\x31\x00\x00"), Err(Error::Bounds(_))));
    assert!(matches!(decode_tag_header(b""), Err(Error::Bounds(_))));
}

#[test]
fn tags_are_ordered_by_kind_then_number() {
    assert!(Tag::Regular(0) < Tag::Regular(1));
    assert!(Tag::Regular(9999) < Tag::Iso(0));
    assert!(Tag::Iso(9999) < Tag::IsoSubfield(0, 0));
    assert!(Tag::IsoSubfield(1, 99) < Tag::IsoSubfield(2, 0));
    assert!(Tag::IsoSubfield(2, 0) < Tag::IsoSubfield(2, 1));
    assert_eq!(Tag::Iso(5), Tag::Iso(5));
    assert_ne!(Tag::Iso(5), Tag::Regular(5));
    assert_ne!(Tag::IsoSubfield(5, 0), Tag::Iso(5));
}

#[test]
fn fields_are_written() {
    let mut buf = BytesMut::new();
    assert_eq!(encode_field_to_buf(Tag::Regular(1), "C", &mut buf), Ok(()));
    assert_eq!(&buf[..], b"T\x00\x01\x00\x00\x01C");
    assert_eq!(encode_field_to_buf(Tag::Iso(43), "IDDQD Bank", &mut buf), Ok(()));
    assert_eq!(&buf[..], b"T\x00\x01\x00\x00\x01CI\x00\x43\x00\x00\x10IDDQD Bank");
    assert_eq!(encode_field_to_buf(Tag::IsoSubfield(48, 2), "", &mut buf), Ok(()));
    assert_eq!(&buf[..], b"T\x00\x01\x00\x00\x01CI\x00\x43\x00\x00\x10IDDQD BankI\x00\x48\x02\x00\x00");
}

#[test]
fn field_length_counts_bytes_not_characters() {
    let mut buf = BytesMut::new();
    assert_eq!(encode_field_to_buf(Tag::Regular(14), "\u{411}\u{430}\u{43d}\u{43a}", &mut buf), Ok(()));
    assert_eq!(&buf[..6], b"T\x00\x14\x00\x00\x08");
    assert_eq!(&buf[6..], "\u{411}\u{430}\u{43d}\u{43a}".as_bytes());
}

#[test]
fn fields_that_do_not_fit_are_refused() {
    let mut buf = BytesMut::new();
    buf.extend_from_slice(b"before");
    let long = "x".repeat(10000);
    assert!(matches!(encode_field_to_buf(Tag::Regular(1), &long, &mut buf), Err(Error::Bounds(_))));
    assert_eq!(&buf[..], b"before");
    assert!(matches!(encode_field_to_buf(Tag::Regular(10000), "C", &mut buf), Err(Error::Bounds(_))));
    assert!(matches!(encode_field_to_buf(Tag::Iso(u16::MAX), "C", &mut buf), Err(Error::Bounds(_))));
    assert!(matches!(
        encode_field_to_buf(Tag::IsoSubfield(1, 100), "C", &mut buf),
        Err(Error::Bounds(_))
    ));
    assert_eq!(&buf[..], b"before");
    let longest = "x".repeat(9999);
    assert_eq!(encode_field_to_buf(Tag::Regular(1), &longest, &mut buf), Ok(()));
    assert_eq!(buf.len(), 6 + 6 + 9999);
    assert_eq!(&buf[6..12], b"T\x00\x01\x00\x99\x99");
}

#[test]
fn fields_are_read() {
    let mut data = Bytes::from_static(b"T\x00\x31\x00\x00\x048495T\x00\x48\x00\x00\x00rest");
    let (tag, value) = decode_field(&mut data).unwrap();
    assert_eq!(tag, Tag::Regular(31));
    assert_eq!(&value[..], b"8495");
    let (tag, value) = decode_field(&mut data).unwrap();
    assert_eq!(tag, Tag::Regular(48));
    assert_eq!(&value[..], b"");
    assert_eq!(&data[..], b"rest");
}

#[test]
fn written_fields_read_back() {
    for (tag, value) in [
        (Tag::Regular(0), "2371492071643"),
        (Tag::Iso(43), "IDDQD Bank.                         GE"),
        (Tag::IsoSubfield(48, 7), "USRDT|2595100250"),
        (Tag::Regular(9999), ""),
    ] {
        let mut buf = BytesMut::new();
        encode_field_to_buf(tag, value, &mut buf).unwrap();
        buf.extend_from_slice(b"more");
        let mut data = buf.freeze();
        let (read_tag, read_value) = decode_field(&mut data).unwrap();
        assert_eq!(read_tag, tag);
        assert_eq!(&read_value[..], value.as_bytes());
        assert_eq!(&data[..], b"more");
    }
}

#[test]
fn short_fields_are_out_of_bounds() {
    for data in [
        &b"T"[..],
        &b"T\x00\x31"[..],
        &b"T\x00\x31\x00"[..],
        &b"T\x00\x31\x00\x00"[..],
        &b"T\x00\x31\x00\x00\x04"[..],
        &b"T\x00\x31\x00\x00\x04849"[..],
        &b"T\x00\x31\x00\x99\x99"[..],
        &b"T\x00\x31\x00\x0a\x00"[..],
    ] {
        let mut left = Bytes::copy_from_slice(data);
        assert!(matches!(decode_field(&mut left), Err(Error::Bounds(_))));
        assert_eq!(&left[..], data);
    }
    let mut data = Bytes::from_static(b"Q\x00\x31\x00\x00\x048495");
    assert!(matches!(decode_field(&mut data), Err(Error::IncorrectTag(_))));
    assert_eq!(&data[..], b"Q\x00\x31\x00\x00\x048495");
}

#[test]
fn field_headers_are_read() {
    assert_eq!(field_header(b"T\x00\x31\x00\x00\x048495"), Ok((Tag::Regular(31), 4)));
    assert_eq!(field_header(b"I\x00\x48\x07\x00\x00"), Ok((Tag::IsoSubfield(48, 7), 0)));
    assert_eq!(field_header(b"T\x00\x48\x00\x01\x05").err().map(|e| e.message()), Some("field value out of bounds: 105 <= 0".to_string()));
    assert_eq!(field_header(b"T\x00").err().map(|e| e.message()), Some("field header out of bounds: 4 <= 2".to_string()));
    assert_eq!(field_header(b"T\x00\x48\x00\x01").err().map(|e| e.message()), Some("field length out of bounds: 6 <= 5".to_string()));
}

#[test]
fn splitting_takes_from_the_front() {
    let mut data = Bytes::from_static(b"hello world");
    let head = bytes_split_to(&mut data, 5).unwrap();
    assert_eq!(&head[..], b"hello");
    assert_eq!(&data[..], b" world");
    let none = bytes_split_to(&mut data, 0).unwrap();
    assert_eq!(&none[..], b"");
    assert_eq!(
        bytes_split_to(&mut data, 7),
        Err(Error::Bounds("split_to out of bounds: 7 <= 6".to_string()))
    );
    assert_eq!(&data[..], b" world");
    let all = bytes_split_to(&mut data, 6).unwrap();
    assert_eq!(&all[..], b" world");
    assert!(data.is_empty());
}

#[test]
fn bodies_are_framed() {
    let mut body = BytesMut::new();
    body.extend_from_slice(b"abc");
    assert_eq!(&frame(body).unwrap()[..], b"00003abc");
    assert_eq!(&frame(BytesMut::new()).unwrap()[..], b"00000");
    let mut longest = BytesMut::new();
    longest.resize(99999, b'x');
    let framed = frame(longest).unwrap();
    assert_eq!(framed.len(), 5 + 99999);
    assert_eq!(&framed[..5], b"99999");
}

#[test]
fn bodies_too_long_are_not_framed() {
    let mut body = BytesMut::new();
    body.resize(100000, b'x');
    assert!(matches!(frame(body), Err(Error::Bounds(_))));
}

#[test]
fn frames_are_opened() {
    assert_eq!(&unframe(Bytes::from_static(b"00003abc")).unwrap()[..], b"abc");
    assert_eq!(&unframe(Bytes::from_static(b"00003abcdef")).unwrap()[..], b"abc");
    assert_eq!(&unframe(Bytes::from_static(b"00000")).unwrap()[..], b"");
    assert_eq!(&unframe(Bytes::from_static(b"    3abc")).unwrap()[..], b"abc");
    assert_eq!(&unframe(Bytes::from_static(b"3    abc")).unwrap()[..], b"abc");
}

#[test]
fn wrong_frames_are_refused() {
    assert!(matches!(unframe(Bytes::from_static(b"")), Err(Error::Bounds(_))));
    assert!(matches!(unframe(Bytes::from_static(b"0000")), Err(Error::Bounds(_))));
    assert!(matches!(unframe(Bytes::from_static(b"00005abc")), Err(Error::Bounds(_))));
    for prefix in [&b"0000x"[..], &b"     "[..], &b"0 0 3"[..], &b"-0003"[..], &b"+0003"[..]] {
        let mut data = prefix.to_vec();
        data.extend_from_slice(b"abcdef");
        assert_eq!(
            unframe(Bytes::from(data)),
            Err(Error::IncorrectFieldData {
                field_name: "message length".into(),
                should_be: "valid integer".into()
            })
        );
    }
}

#[test]
fn framed_bodies_open_again() {
    for len in [0usize, 1, 16, 536, 99999] {
        let mut body = BytesMut::new();
        body.resize(len, b'7');
        let framed = frame(body.clone()).unwrap();
        assert_eq!(unframe(framed).unwrap(), body.freeze());
    }
}

#[test]
fn text_helpers_compare_and_convert() {
    assert!(bytes_eq(b"abc", b"abc"));
    assert!(bytes_eq(b"", b""));
    assert!(!bytes_eq(b"abc", b"abd"));
    assert!(!bytes_eq(b"abc", b"ab"));
    assert!(str_eq("Serno", "Serno"));
    assert!(!str_eq("Serno", "serno"));
    assert!(!str_eq("SAF", "SAFE"));
    assert_eq!(sigma::error::decimal_string(2371492071643), "2371492071643");
    assert_eq!(sigma::error::decimal_string(0), "0");
}
