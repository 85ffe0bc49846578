use vo_table::data::{read_cell_at, read_row};
use vo_table::wire::{find_text_end, i16_at, i32_at, i64_at, u32_at, u64_at};
use vo_table::{ArraySize, Cell, Data, DataType, Error, Field, NullableDataValue, Values};

fn column(datatype: DataType, arraysize: Option<ArraySize>) -> Field {
    let mut field = Field::default();
    field.datatype = Some(datatype);
    field.arraysize = arraysize;
    field
}

fn stream_error(result: Result<Data, Error>, got: &str) {
    match result {
        Err(Error::CannotParse { got: g, target }) => {
            assert_eq!(g, got);
            assert_eq!(target, "BINARY > STREAM");
        }
        other => panic!("expected a stream error, got {:?}", other),
    }
}

#[test]
fn big_endian_integers_at_a_position() {
    let bytes = [0xffu8, 0x80, 0x00, 0x01, 0x02, 0x03, 0x04, 0x05, 0x06, 0x07];
    assert_eq!(i16_at(&bytes, 0), -128);
    assert_eq!(i16_at(&bytes, 1), i16::MIN);
    assert_eq!(i16_at(&bytes, 3), 0x0102);
    assert_eq!(i32_at(&bytes, 0), -8388607);
    assert_eq!(i32_at(&bytes, 2), 0x0001_0203);
    assert_eq!(u32_at(&bytes, 0), 0xff80_0001);
    assert_eq!(i64_at(&bytes, 0), -36028792690244603);
    assert_eq!(u64_at(&bytes, 2), 0x0001_0203_0405_0607);
    assert_eq!(u64_at(&bytes, 0), 0xff80_0001_0203_0405);
}

#[test]
fn text_ends_at_its_first_zero_byte() {
    let bytes = b"ab\0cd\0";
    assert_eq!(find_text_end(bytes, 0, 6), 2);
    assert_eq!(find_text_end(bytes, 2, 4), 0);
    assert_eq!(find_text_end(bytes, 3, 2), 2);
    assert_eq!(find_text_end(bytes, 3, 3), 2);
    assert_eq!(find_text_end(bytes, 0, 0), 0);
}

#[test]
fn fixed_doubles_come_back_bit_for_bit() {
    let values = [1.5f64, -2.25, 0.0, -0.0, f64::MAX, f64::MIN_POSITIVE, f64::INFINITY, f64::from_bits(0x7ff8_0000_0000_1234)];
    let mut bytes = Vec::new();
    for value in values {
        bytes.extend_from_slice(&value.to_be_bytes());
    }
    let fields = vec![column(DataType::Float64, Some(ArraySize::Fixed(values.len())))];
    let data = Data::decode(&fields, &bytes).unwrap();
    assert_eq!(data.rows.len(), 1);
    assert_eq!(data.rows[0].cells.len(), 1);
    match &data.rows[0].cells[0] {
        Cell::Float64(bits) => {
            assert_eq!(bits.len(), values.len());
            for (got, expected) in bits.iter().zip(values) {
                assert_eq!(*got, expected.to_bits());
                assert_eq!(f64::from_bits(*got).to_bits(), expected.to_bits());
            }
        }
        other => panic!("unexpected cell {:?}", other),
    }
}

#[test]
fn scalar_floats_make_a_row_each() {
    let mut bytes = Vec::new();
    for value in [3.5f32, -1.0, 0.25] {
        bytes.extend_from_slice(&value.to_be_bytes());
    }
    let fields = vec![column(DataType::Float32, None)];
    let data = Data::decode(&fields, &bytes).unwrap();
    assert_eq!(data.rows.len(), 3);
    let expected = [3.5f32, -1.0, 0.25];
    for (row, value) in data.rows.iter().zip(expected) {
        match &row.cells[0] {
            Cell::Float32(bits) => assert_eq!(bits, &vec![value.to_bits()]),
            other => panic!("unexpected cell {:?}", other),
        }
    }
}

#[test]
fn sentinel_becomes_a_missing_element() {
    let mut field = column(DataType::Integer32, Some(ArraySize::Fixed(4)));
    field.values = Some(Values {
        null: Some(NullableDataValue::parse(DataType::Integer32, "-9999").unwrap()),
    });
    let mut bytes = Vec::new();
    for value in [-9999i32, 9999, 0, i32::MIN] {
        bytes.extend_from_slice(&value.to_be_bytes());
    }
    let data = Data::decode(&vec![field], &bytes).unwrap();
    assert_eq!(data.rows.len(), 1);
    match &data.rows[0].cells[0] {
        Cell::Integer32(items) => {
            assert_eq!(items, &vec![None, Some(9999), Some(0), Some(i32::MIN)])
        }
        other => panic!("unexpected cell {:?}", other),
    }
}

#[test]
fn integers_without_a_sentinel_are_all_present() {
    let field = column(DataType::Integer32, Some(ArraySize::Fixed(2)));
    let mut bytes = Vec::new();
    for value in [-9999i32, 7] {
        bytes.extend_from_slice(&value.to_be_bytes());
    }
    let data = Data::decode(&vec![field], &bytes).unwrap();
    match &data.rows[0].cells[0] {
        Cell::Integer32(items) => assert_eq!(items, &vec![Some(-9999), Some(7)]),
        other => panic!("unexpected cell {:?}", other),
    }
}

#[test]
fn short_and_long_integers() {
    let mut short = column(DataType::Integer16, Some(ArraySize::Fixed(3)));
    short.values = Some(Values { null: Some(NullableDataValue::Integer16(-1)) });
    let mut long = column(DataType::Integer64, Some(ArraySize::Fixed(2)));
    long.values = Some(Values { null: Some(NullableDataValue::Integer64(i64::MIN)) });
    let mut bytes = Vec::new();
    for value in [-1i16, 258, i16::MIN] {
        bytes.extend_from_slice(&value.to_be_bytes());
    }
    for value in [i64::MIN, -2] {
        bytes.extend_from_slice(&value.to_be_bytes());
    }
    let data = Data::decode(&vec![short, long], &bytes).unwrap();
    assert_eq!(data.rows.len(), 1);
    match &data.rows[0].cells[0] {
        Cell::Integer16(items) => assert_eq!(items, &vec![None, Some(258), Some(i16::MIN)]),
        other => panic!("unexpected cell {:?}", other),
    }
    match &data.rows[0].cells[1] {
        Cell::Integer64(items) => assert_eq!(items, &vec![None, Some(-2)]),
        other => panic!("unexpected cell {:?}", other),
    }
}

#[test]
fn sentinel_of_another_width_is_never_met() {
    let mut field = column(DataType::Integer32, None);
    field.values = Some(Values { null: Some(NullableDataValue::Integer16(5)) });
    let data = Data::decode(&vec![field], &5i32.to_be_bytes()).unwrap();
    match &data.rows[0].cells[0] {
        Cell::Integer32(items) => assert_eq!(items, &vec![Some(5)]),
        other => panic!("unexpected cell {:?}", other),
    }
}

#[test]
fn variable_cells_take_their_count_from_the_stream() {
    let field = column(DataType::Integer16, Some(ArraySize::Unbounded));
    let mut bytes = Vec::new();
    bytes.extend_from_slice(&2i32.to_be_bytes());
    bytes.extend_from_slice(&10i16.to_be_bytes());
    bytes.extend_from_slice(&11i16.to_be_bytes());
    bytes.extend_from_slice(&0i32.to_be_bytes());
    bytes.extend_from_slice(&1i32.to_be_bytes());
    bytes.extend_from_slice(&12i16.to_be_bytes());
    let data = Data::decode(&vec![field], &bytes).unwrap();
    assert_eq!(data.rows.len(), 3);
    let expected: [Vec<Option<i16>>; 3] = [vec![Some(10), Some(11)], vec![], vec![Some(12)]];
    for (row, items) in data.rows.iter().zip(expected) {
        match &row.cells[0] {
            Cell::Integer16(got) => assert_eq!(got, &items),
            other => panic!("unexpected cell {:?}", other),
        }
    }
}

#[test]
fn capped_variable_cells_are_prefixed_too() {
    let field = column(DataType::Byte, Some(ArraySize::Variable { max: 3 }));
    let mut bytes = Vec::new();
    bytes.extend_from_slice(&2i32.to_be_bytes());
    bytes.extend_from_slice(&[7, 8]);
    let data = Data::decode(&vec![field], &bytes).unwrap();
    assert_eq!(data.rows.len(), 1);
    match &data.rows[0].cells[0] {
        Cell::Byte(items) => assert_eq!(items, &vec![7u8, 8]),
        other => panic!("unexpected cell {:?}", other),
    }
}

#[test]
fn a_count_beyond_the_bytes_ends_the_stream() {
    let field = column(DataType::Integer32, Some(ArraySize::Unbounded));
    let mut bytes = Vec::new();
    bytes.extend_from_slice(&1i32.to_be_bytes());
    bytes.extend_from_slice(&100i32.to_be_bytes());
    bytes.extend_from_slice(&3i32.to_be_bytes());
    bytes.extend_from_slice(&1i32.to_be_bytes());
    bytes.extend_from_slice(&2i32.to_be_bytes());
    let fields = vec![field];
    let data = Data::decode(&fields, &bytes).unwrap();
    assert_eq!(data.rows.len(), 1);
    match &data.rows[0].cells[0] {
        Cell::Integer32(items) => assert_eq!(items, &vec![Some(100)]),
        other => panic!("unexpected cell {:?}", other),
    }
    assert!(read_cell_at(&fields[0], &bytes, 8).unwrap().is_none());
    match read_cell_at(&fields[0], &bytes, 0).unwrap() {
        Some((Cell::Integer32(items), next)) => {
            assert_eq!(items, vec![Some(100)]);
            assert_eq!(next, 8);
        }
        other => panic!("unexpected reading {:?}", other),
    }
}

#[test]
fn a_cell_takes_no_more_than_its_count() {
    let field = column(DataType::Byte, Some(ArraySize::Unbounded));
    let mut bytes = Vec::new();
    bytes.extend_from_slice(&2i32.to_be_bytes());
    bytes.extend_from_slice(&[1, 2, 3, 4, 5, 6, 7]);
    match read_cell_at(&field, &bytes, 0).unwrap() {
        Some((Cell::Byte(items), next)) => {
            assert_eq!(items, vec![1u8, 2]);
            assert_eq!(next, 6);
        }
        other => panic!("unexpected reading {:?}", other),
    }
}

#[test]
fn a_broken_count_ends_the_stream() {
    let field = column(DataType::Byte, Some(ArraySize::Unbounded));
    let mut bytes = Vec::new();
    bytes.extend_from_slice(&1i32.to_be_bytes());
    bytes.push(9);
    bytes.extend_from_slice(&[0, 0, 0]);
    let data = Data::decode(&vec![field], &bytes).unwrap();
    assert_eq!(data.rows.len(), 1);
}

#[test]
fn a_row_that_breaks_off_is_dropped() {
    let fields = vec![
        column(DataType::Integer16, None),
        column(DataType::Character, Some(ArraySize::Unbounded)),
    ];
    let mut bytes = Vec::new();
    bytes.extend_from_slice(&1i16.to_be_bytes());
    bytes.extend_from_slice(&2i32.to_be_bytes());
    bytes.extend_from_slice(b"ab");
    bytes.extend_from_slice(&2i16.to_be_bytes());
    let data = Data::decode(&fields, &bytes).unwrap();
    assert_eq!(data.rows.len(), 1);
    assert_eq!(data.rows[0].cells.len(), 2);
    match &data.rows[0].cells[1] {
        Cell::Character(text) => assert_eq!(text, "ab"),
        other => panic!("unexpected cell {:?}", other),
    }
    assert!(read_row(&fields, &bytes, 8).unwrap().is_none());
}

#[test]
fn a_negative_count_is_an_error() {
    let field = column(DataType::Byte, Some(ArraySize::Unbounded));
    let bytes = (-1i32).to_be_bytes();
    stream_error(Data::decode(&vec![field], &bytes), "Length must be positive");
}

#[test]
fn a_column_without_datatype_is_an_error() {
    let mut field = Field::default();
    field.name = Some("flux".to_string());
    stream_error(
        Data::decode(&vec![field], &[1, 2, 3]),
        "Cannot parse field flux. Missing datatype",
    );
    stream_error(
        Data::decode(&vec![Field::default()], &[1, 2, 3]),
        "Cannot parse field. Missing datatype",
    );
    let mut prefixed = Field::default();
    prefixed.arraysize = Some(ArraySize::Unbounded);
    assert_eq!(Data::decode(&vec![prefixed], &[1, 2, 3]).unwrap().rows.len(), 0);
}

#[test]
fn datatypes_without_a_layout_are_errors() {
    for (datatype, name) in [
        (DataType::Logical, "Logical"),
        (DataType::BitArray, "BitArray"),
        (DataType::UnicodeCharacter, "UnicodeCharacter"),
        (DataType::Complex32, "Complex32"),
        (DataType::Complex64, "Complex64"),
    ] {
        stream_error(Data::decode(&vec![column(datatype, None)], &[0; 16]), name);
    }
}

#[test]
fn characters_are_one_text() {
    let field = column(DataType::Character, Some(ArraySize::Fixed(6)));
    let data = Data::decode(&vec![field], b"abc\0defull\0\0\0").unwrap();
    assert_eq!(data.rows.len(), 2);
    match (&data.rows[0].cells[0], &data.rows[1].cells[0]) {
        (Cell::Character(first), Cell::Character(second)) => {
            assert_eq!(first, "abc");
            assert_eq!(second, "full");
        }
        other => panic!("unexpected cells {:?}", other),
    }
}

#[test]
fn characters_that_are_not_utf8_are_replaced() {
    let field = column(DataType::Character, Some(ArraySize::Fixed(4)));
    let data = Data::decode(&vec![field], &[b'a', 0xff, b'b', 0xc3]).unwrap();
    match &data.rows[0].cells[0] {
        Cell::Character(text) => assert_eq!(text, "a\u{fffd}b\u{fffd}"),
        other => panic!("unexpected cell {:?}", other),
    }
    let accented = column(DataType::Character, Some(ArraySize::Fixed(3)));
    let data = Data::decode(&vec![accented], "é!".as_bytes()).unwrap();
    match &data.rows[0].cells[0] {
        Cell::Character(text) => assert_eq!(text, "é!"),
        other => panic!("unexpected cell {:?}", other),
    }
}

#[test]
fn rows_that_take_no_bytes_are_not_counted() {
    assert_eq!(Data::decode(&vec![], &[1, 2, 3]).unwrap().rows.len(), 0);
    assert_eq!(Data::decode(&vec![], &[]).unwrap().rows.len(), 0);
    let empty = column(DataType::Integer32, Some(ArraySize::Fixed(0)));
    assert_eq!(Data::decode(&vec![empty], &[1, 2, 3, 4]).unwrap().rows.len(), 0);
}

#[test]
fn no_bytes_no_rows() {
    let field = column(DataType::Float64, Some(ArraySize::Fixed(2)));
    assert_eq!(Data::decode(&vec![field], &[]).unwrap().rows.len(), 0);
    let prefixed = column(DataType::Float64, Some(ArraySize::Unbounded));
    assert_eq!(Data::decode(&vec![prefixed], &[]).unwrap().rows.len(), 0);
}

#[test]
fn rows_of_several_columns() {
    let fields = vec![
        column(DataType::Character, Some(ArraySize::Unbounded)),
        column(DataType::Float64, None),
        column(DataType::Byte, Some(ArraySize::Fixed(2))),
    ];
    let mut bytes = Vec::new();
    for (text, value, pair) in [("one", 1.0f64, [1u8, 2]), ("three", 3.0, [3, 4])] {
        bytes.extend_from_slice(&(text.len() as i32).to_be_bytes());
        bytes.extend_from_slice(text.as_bytes());
        bytes.extend_from_slice(&value.to_be_bytes());
        bytes.extend_from_slice(&pair);
    }
    let data = Data::decode(&fields, &bytes).unwrap();
    assert_eq!(data.rows.len(), 2);
    match &data.rows[1].cells[..] {
        [Cell::Character(text), Cell::Float64(bits), Cell::Byte(pair)] => {
            assert_eq!(text, "three");
            assert_eq!(bits, &vec![3.0f64.to_bits()]);
            assert_eq!(pair, &vec![3u8, 4]);
        }
        other => panic!("unexpected row {:?}", other),
    }
}

#[test]
fn doubles_among_other_columns_in_every_row() {
    let fields = vec![
        column(DataType::Character, Some(ArraySize::Unbounded)),
        column(DataType::Float64, Some(ArraySize::Fixed(3))),
        column(DataType::Integer16, None),
    ];
    let rows = [
        ("a", [1.5f64, -0.0, f64::from_bits(0x7ff8_0000_0000_beef)], 1i16),
        ("", [f64::MIN, f64::EPSILON, f64::NEG_INFINITY], -2),
        ("three", [0.0, f64::from_bits(0xfff0_0000_0000_0001), 1e300], 3),
    ];
    let mut bytes = Vec::new();
    for (text, doubles, short) in rows {
        bytes.extend_from_slice(&(text.len() as i32).to_be_bytes());
        bytes.extend_from_slice(text.as_bytes());
        for double in doubles {
            bytes.extend_from_slice(&double.to_be_bytes());
        }
        bytes.extend_from_slice(&short.to_be_bytes());
    }
    let data = Data::decode(&fields, &bytes).unwrap();
    assert_eq!(data.rows.len(), rows.len());
    for (row, (text, doubles, short)) in data.rows.iter().zip(rows) {
        assert_eq!(row.cells.len(), 3);
        match &row.cells[..] {
            [Cell::Character(got), Cell::Float64(bits), Cell::Integer16(items)] => {
                assert_eq!(got, text);
                assert_eq!(bits.len(), 3);
                for (got, expected) in bits.iter().zip(doubles) {
                    assert_eq!(*got, expected.to_bits());
                }
                assert_eq!(items, &vec![Some(short)]);
            }
            other => panic!("unexpected row {:?}", other),
        }
    }
}

#[test]
fn sentinel_among_other_columns_in_every_row() {
    let mut numbers = column(DataType::Integer32, Some(ArraySize::Unbounded));
    numbers.values = Some(Values { null: Some(NullableDataValue::Integer32(-9999)) });
    let fields = vec![column(DataType::Byte, Some(ArraySize::Fixed(1))), numbers];
    let rows: [(u8, Vec<i32>); 4] =
        [(1, vec![-9999, 5, -9999]), (2, vec![]), (3, vec![9999, -9998]), (4, vec![-9999])];
    let mut bytes = Vec::new();
    for (byte, numbers) in &rows {
        bytes.push(*byte);
        bytes.extend_from_slice(&(numbers.len() as i32).to_be_bytes());
        for number in numbers {
            bytes.extend_from_slice(&number.to_be_bytes());
        }
    }
    assert_eq!(&bytes[5..9], &[0xff, 0xff, 0xd8, 0xf1]);
    let data = Data::decode(&fields, &bytes).unwrap();
    assert_eq!(data.rows.len(), rows.len());
    for (row, (byte, numbers)) in data.rows.iter().zip(rows) {
        match &row.cells[..] {
            [Cell::Byte(bytes), Cell::Integer32(items)] => {
                assert_eq!(bytes, &vec![byte]);
                let expected: Vec<Option<i32>> =
                    numbers.iter().map(|n| if *n == -9999 { None } else { Some(*n) }).collect();
                assert_eq!(items, &expected);
            }
            other => panic!("unexpected row {:?}", other),
        }
    }
}
