use vo_table::payload::{decode_unpacked, decode_payload, strip_whitespace, whitespace};
use vo_table::{ArraySize, Cell, Data, DataType, Error, Field};

fn bytes_column() -> Vec<Field> {
    let mut field = Field::default();
    field.datatype = Some(DataType::Byte);
    field.arraysize = Some(ArraySize::Fixed(2));
    vec![field]
}

fn stream_error(result: Result<Data, Error>) -> String {
    match result {
        Err(Error::CannotParse { got, target }) => {
            assert_eq!(target, "BINARY > STREAM");
            got
        }
        other => panic!("expected a stream error, got {:?}", other),
    }
}

#[test]
fn whitespace_is_what_unicode_lists() {
    for c in [' ', '\t', '\n', '\r', '\u{b}', '\u{c}', '\u{85}', '\u{a0}', '\u{1680}', '\u{2000}', '\u{200a}', '\u{2028}', '\u{2029}', '\u{202f}', '\u{205f}', '\u{3000}'] {
        assert!(whitespace(c));
    }
    for c in ['a', '0', '=', '\u{8}', '\u{e}', '\u{200b}', '\u{feff}', '\u{180e}', '\0'] {
        assert!(!whitespace(c));
    }
    for code in 0u32..0x3100 {
        if let Some(c) = char::from_u32(code) {
            assert_eq!(whitespace(c), c.is_whitespace());
        }
    }
}

#[test]
fn whitespace_is_taken_out_everywhere() {
    assert_eq!(strip_whitespace(" AQ ID\n\tBA==\r\n"), "AQIDBA==");
    assert_eq!(strip_whitespace(""), "");
    assert_eq!(strip_whitespace(" \n "), "");
    assert_eq!(strip_whitespace("a\u{2028}é\u{a0}b"), "aéb");
}

#[test]
fn base64_payload_with_whitespace() {
    let data = decode_payload(&bytes_column(), "base64", Some("\n  AQID\n  BA==\n")).unwrap();
    assert_eq!(data.rows.len(), 2);
    match (&data.rows[0].cells[0], &data.rows[1].cells[0]) {
        (Cell::Byte(first), Cell::Byte(second)) => {
            assert_eq!(first, &vec![1u8, 2]);
            assert_eq!(second, &vec![3u8, 4]);
        }
        other => panic!("unexpected cells {:?}", other),
    }
}

#[test]
fn empty_payload_has_no_rows() {
    let data = decode_payload(&bytes_column(), "base64", Some("")).unwrap();
    assert_eq!(data.rows.len(), 0);
    let data = decode_payload(&bytes_column(), "base64", Some(" \n ")).unwrap();
    assert_eq!(data.rows.len(), 0);
}

#[test]
fn malformed_base64_is_an_error() {
    for text in ["AQID!A==", "A", "AQIDB", "====", "AQ=DBA==", "héllo", "AQIDBB=="] {
        let got = stream_error(decode_payload(&bytes_column(), "base64", Some(text)));
        assert!(!got.is_empty());
    }
    assert_eq!(
        stream_error(decode_payload(&bytes_column(), "base64", Some("AQID!A=="))),
        "Invalid byte 33, offset 4."
    );
}

#[test]
fn other_encodings_are_errors() {
    assert_eq!(
        stream_error(decode_payload(&bytes_column(), "gzip", Some("AQID"))),
        "Cannot parse encoding gzip"
    );
    assert_eq!(
        stream_error(decode_payload(&bytes_column(), "", Some("AQID"))),
        "Cannot parse encoding "
    );
    assert_eq!(
        stream_error(decode_payload(&bytes_column(), "Base64", None)),
        "Cannot parse encoding Base64"
    );
}

#[test]
fn a_stream_without_content_is_an_error() {
    assert_eq!(
        stream_error(decode_payload(&bytes_column(), "base64", None)),
        "No input defined in STREAM!"
    );
}

#[test]
fn rows_from_what_the_decoder_returned() {
    let data = decode_unpacked(&bytes_column(), Ok(vec![1, 2, 3, 4, 5])).unwrap();
    assert_eq!(data.rows.len(), 2);
    assert_eq!(
        stream_error(decode_unpacked(&bytes_column(), Err("no good".to_string()))),
        "no good"
    );
}
