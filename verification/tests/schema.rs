use vo_table::text::{read_digits, read_integer, read_natural, same_text};
use vo_table::{
    ArraySize, Attribute, DataType, Error, Field, NullableDataValue, Nullable, Precision, Values,
    XType,
};

fn attribute(name: &str, value: &str) -> Attribute {
    Attribute { name: name.to_string(), value: value.to_string() }
}

fn refused(result: Result<impl std::fmt::Debug, Error>, got: &str, target: &str) {
    match result {
        Err(Error::CannotParse { got: g, target: t }) => {
            assert_eq!(g, got);
            assert_eq!(t, target);
        }
        other => panic!("expected a grammar error, got {:?}", other),
    }
}

#[test]
fn same_text_compares_characters() {
    assert!(same_text("", ""));
    assert!(same_text("FIELD", "FIELD"));
    assert!(!same_text("FIELD", "FIELDS"));
    assert!(!same_text("FIELD", "field"));
    assert!(same_text("é\u{2028}", "é\u{2028}"));
    assert!(!same_text("é", "e"));
}

#[test]
fn digits_are_read_between_two_positions() {
    assert_eq!(read_digits("x120*", 1, 4, 1000), Some(120));
    assert_eq!(read_digits("x120*", 1, 4, 119), None);
    assert_eq!(read_digits("x120*", 1, 4, 120), Some(120));
    assert_eq!(read_digits("x120*", 1, 5, 1000), None);
    assert_eq!(read_digits("x120*", 1, 1, 1000), None);
    assert_eq!(read_digits("007", 0, 3, 7), Some(7));
    assert_eq!(read_digits("18446744073709551615", 0, 20, u64::MAX), Some(u64::MAX));
    assert_eq!(read_digits("18446744073709551616", 0, 20, u64::MAX), None);
    assert_eq!(read_digits("99999999999999999999999", 0, 23, u64::MAX), None);
}

#[test]
fn naturals_may_carry_a_plus() {
    assert_eq!(read_natural("42", 100), Some(42));
    assert_eq!(read_natural("+42", 100), Some(42));
    assert_eq!(read_natural("-42", 100), None);
    assert_eq!(read_natural("+", 100), None);
    assert_eq!(read_natural("", 100), None);
    assert_eq!(read_natural("4 2", 100), None);
    assert_eq!(read_natural("101", 100), None);
}

#[test]
fn integers_may_carry_a_sign() {
    assert_eq!(read_integer("-9999", 0x8000_0000, 0x7fff_ffff), Some(-9999));
    assert_eq!(read_integer("+9999", 0x8000_0000, 0x7fff_ffff), Some(9999));
    assert_eq!(read_integer("-0", 0x8000, 0x7fff), Some(0));
    assert_eq!(read_integer("-32768", 0x8000, 0x7fff), Some(-32768));
    assert_eq!(read_integer("-32769", 0x8000, 0x7fff), None);
    assert_eq!(read_integer("32767", 0x8000, 0x7fff), Some(32767));
    assert_eq!(read_integer("32768", 0x8000, 0x7fff), None);
    assert_eq!(
        read_integer("-9223372036854775808", 0x8000_0000_0000_0000, 0x7fff_ffff_ffff_ffff),
        Some(i64::MIN)
    );
    assert_eq!(
        read_integer("9223372036854775807", 0x8000_0000_0000_0000, 0x7fff_ffff_ffff_ffff),
        Some(i64::MAX)
    );
    assert_eq!(
        read_integer("9223372036854775808", 0x8000_0000_0000_0000, 0x7fff_ffff_ffff_ffff),
        None
    );
    assert_eq!(read_integer("-", 0x8000, 0x7fff), None);
    assert_eq!(read_integer("--1", 0x8000, 0x7fff), None);
    assert_eq!(read_integer("-+1", 0x8000, 0x7fff), None);
    assert_eq!(read_integer("", 0x8000, 0x7fff), None);
}

#[test]
fn every_datatype_literal_is_known() {
    let known = [
        ("boolean", DataType::Logical),
        ("bit", DataType::BitArray),
        ("unsignedByte", DataType::Byte),
        ("short", DataType::Integer16),
        ("int", DataType::Integer32),
        ("long", DataType::Integer64),
        ("char", DataType::Character),
        ("unicodeChar", DataType::UnicodeCharacter),
        ("float", DataType::Float32),
        ("double", DataType::Float64),
        ("floatComplex", DataType::Complex32),
        ("doubleComplex", DataType::Complex64),
    ];
    for (literal, datatype) in known {
        assert_eq!(DataType::from_str(literal).unwrap(), datatype);
    }
}

#[test]
fn unknown_datatype_literal_is_refused() {
    refused(DataType::from_str("integer"), "integer", "datatype");
    refused(DataType::from_str("Int"), "Int", "datatype");
    refused(DataType::from_str(""), "", "datatype");
}

#[test]
fn datatype_names() {
    assert_eq!(DataType::Logical.name(), "Logical");
    assert_eq!(DataType::UnicodeCharacter.name(), "UnicodeCharacter");
    assert_eq!(DataType::Complex64.name(), "Complex64");
}

#[test]
fn arraysize_literals() {
    assert_eq!(ArraySize::from_str("*").unwrap(), ArraySize::Unbounded);
    assert_eq!(ArraySize::from_str("12*").unwrap(), ArraySize::Variable { max: 12 });
    assert_eq!(ArraySize::from_str("0*").unwrap(), ArraySize::Variable { max: 0 });
    assert_eq!(ArraySize::from_str("7").unwrap(), ArraySize::Fixed(7));
    assert_eq!(ArraySize::from_str("0").unwrap(), ArraySize::Fixed(0));
    assert_eq!(ArraySize::from_str("007").unwrap(), ArraySize::Fixed(7));
}

#[test]
fn arraysize_outside_the_grammar_is_refused() {
    for literal in ["", "abc", "1*2*", "**", "*3", "3x", "+5", "-1", " 3", "3 ", "2x3"] {
        refused(ArraySize::from_str(literal), literal, "arraysize");
    }
    refused(
        ArraySize::from_str("99999999999999999999999999"),
        "99999999999999999999999999",
        "arraysize",
    );
}

#[test]
fn precision_literals() {
    assert_eq!(Precision::from_str("E5").unwrap(), Precision::SignificantFigures(5));
    assert_eq!(Precision::from_str("F3").unwrap(), Precision::AfterDecimalPoint(3));
    assert_eq!(Precision::from_str("2").unwrap(), Precision::AfterDecimalPoint(2));
    assert_eq!(Precision::from_str("E0").unwrap(), Precision::SignificantFigures(0));
}

#[test]
fn precision_outside_the_grammar_is_refused() {
    for literal in ["", "E", "F", "Ex", "e5", "E5E6", "FF3", "5E", "+2", "E-1"] {
        refused(Precision::from_str(literal), literal, "precision");
    }
}

#[test]
fn xtype_is_kept_as_it_stands() {
    assert_eq!(XType::from_str("adql:POINT").unwrap().value, "adql:POINT");
    assert_eq!(XType::from_str("").unwrap().value, "");
}

#[test]
fn sentinel_of_each_integer_width() {
    assert_eq!(
        NullableDataValue::parse(DataType::Integer16, "-32768").unwrap(),
        NullableDataValue::Integer16(i16::MIN)
    );
    assert_eq!(
        NullableDataValue::parse(DataType::Integer32, "-9999").unwrap(),
        NullableDataValue::Integer32(-9999)
    );
    assert_eq!(
        NullableDataValue::parse(DataType::Integer32, "+7").unwrap(),
        NullableDataValue::Integer32(7)
    );
    assert_eq!(
        NullableDataValue::parse(DataType::Integer64, "9223372036854775807").unwrap(),
        NullableDataValue::Integer64(i64::MAX)
    );
}

#[test]
fn sentinel_outside_the_range_is_refused() {
    refused(NullableDataValue::parse(DataType::Integer16, "32768"), "32768", "null");
    refused(NullableDataValue::parse(DataType::Integer32, "2147483648"), "2147483648", "null");
    refused(NullableDataValue::parse(DataType::Integer32, "NaN"), "NaN", "null");
    refused(NullableDataValue::parse(DataType::Integer64, ""), "", "null");
}

#[test]
fn sentinel_of_another_datatype_is_refused() {
    refused(NullableDataValue::parse(DataType::Float32, "1"), "1 as Float32", "null");
    refused(NullableDataValue::parse(DataType::Character, "x"), "x as Character", "null");
    refused(NullableDataValue::parse(DataType::Byte, "255"), "255 as Byte", "null");
}

#[test]
fn to_nullable_keeps_the_width() {
    assert_eq!(5i16.to_nullable(), NullableDataValue::Integer16(5));
    assert_eq!((-5i32).to_nullable(), NullableDataValue::Integer32(-5));
    assert_eq!(5i64.to_nullable(), NullableDataValue::Integer64(5));
}

#[test]
fn values_take_the_last_null() {
    let attributes = vec![attribute("null", "-1"), attribute("ref", "x"), attribute("null", "-2")];
    let values = Values::from_attributes(DataType::Integer32, &attributes).unwrap();
    assert_eq!(values.null, Some(NullableDataValue::Integer32(-2)));
    assert!(values.is_null(-2i32));
    assert!(!values.is_null(-1i32));
    assert!(!values.is_null(-2i64));
    let none = Values::from_attributes(DataType::Integer32, &vec![attribute("ref", "x")]).unwrap();
    assert_eq!(none.null, None);
    assert!(!none.is_null(0i32));
}

#[test]
fn values_fail_on_the_first_bad_null() {
    let attributes = vec![attribute("null", "x"), attribute("null", "-2")];
    refused(Values::from_attributes(DataType::Integer32, &attributes), "x", "null");
    refused(
        Values::from_attributes(DataType::Float64, &vec![attribute("null", "0")]),
        "0 as Float64",
        "null",
    );
}

#[test]
fn field_from_its_attributes() {
    let attributes = vec![
        attribute("ID", "col1"),
        attribute("name", "first"),
        attribute("datatype", "int"),
        attribute("arraysize", "3"),
        attribute("width", "10"),
        attribute("precision", "E4"),
        attribute("xtype", "special"),
        attribute("unit", "deg"),
        attribute("ucd", "pos.eq.ra"),
        attribute("utype", "ignored"),
        attribute("name", "second"),
    ];
    let field = Field::from_attributes(&attributes).unwrap();
    assert_eq!(field.id.as_deref(), Some("col1"));
    assert_eq!(field.name.as_deref(), Some("second"));
    assert_eq!(field.datatype, Some(DataType::Integer32));
    assert_eq!(field.arraysize, Some(ArraySize::Fixed(3)));
    assert_eq!(field.width, Some(10));
    assert_eq!(field.precision, Some(Precision::SignificantFigures(4)));
    assert_eq!(field.xtype.as_ref().map(|x| x.value.as_str()), Some("special"));
    assert_eq!(field.unit.as_deref(), Some("deg"));
    assert_eq!(field.ucd.as_deref(), Some("pos.eq.ra"));
    assert!(field.description.is_none());
    assert!(field.values.is_none());
    assert_eq!(field.len(), Some(3));
}

#[test]
fn field_fails_on_its_first_bad_attribute() {
    let attributes = vec![attribute("datatype", "int"), attribute("arraysize", "x"), attribute("datatype", "y")];
    refused(Field::from_attributes(&attributes), "x", "arraysize");
    match Field::from_attributes(&vec![attribute("width", "wide")]) {
        Err(Error::CannotParseIntAttribute { got, attribute }) => {
            assert_eq!(got, "wide");
            assert_eq!(attribute, "width");
        }
        other => panic!("expected an integer error, got {:?}", other),
    }
    let plus = Field::from_attributes(&vec![attribute("width", "+8")]).unwrap();
    assert_eq!(plus.width, Some(8));
}

#[test]
fn field_len_by_arraysize() {
    let mut field = Field::default();
    assert_eq!(field.len(), Some(1));
    field.arraysize = Some(ArraySize::Fixed(0));
    assert_eq!(field.len(), Some(0));
    field.arraysize = Some(ArraySize::Fixed(4));
    assert_eq!(field.len(), Some(4));
    field.arraysize = Some(ArraySize::Unbounded);
    assert_eq!(field.len(), None);
    field.arraysize = Some(ArraySize::Variable { max: 9 });
    assert_eq!(field.len(), None);
}

#[test]
fn field_is_null_by_its_values() {
    let mut field = Field::default();
    assert!(!field.is_null(-9999i32));
    field.values = Some(Values { null: Some(NullableDataValue::Integer32(-9999)) });
    assert!(field.is_null(-9999i32));
    assert!(!field.is_null(9999i32));
    assert!(!field.is_null(-9999i64));
    field.values = Some(Values { null: None });
    assert!(!field.is_null(-9999i32));
}
