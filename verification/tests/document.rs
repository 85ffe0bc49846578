use vo_table::{
    parse, ArraySize, Attribute, Cell, DataType, Error, Events, NullableDataValue, Token, VOTable,
};

fn document(fields: &str, payload: &str) -> Vec<u8> {
    format!(
        "<?xml version=\"1.0\"?><VOTABLE><RESOURCE><TABLE>{}<DATA><BINARY><STREAM encoding=\"base64\">{}</STREAM></BINARY></DATA></TABLE></RESOURCE></VOTABLE>",
        fields, payload
    )
    .into_bytes()
}

fn two_links() -> String {
    let mut bytes = Vec::new();
    for text in ["http1", "http2"] {
        bytes.extend_from_slice(&5i32.to_be_bytes());
        bytes.extend_from_slice(text.as_bytes());
    }
    base64::encode(&bytes)
}

fn start(name: &str, attributes: &[(&str, &str)]) -> Token {
    Token::Start {
        name: name.to_string(),
        attributes: attributes
            .iter()
            .map(|(name, value)| Attribute { name: name.to_string(), value: value.to_string() })
            .collect(),
    }
}

fn text(content: &str) -> Token {
    Token::Characters(content.to_string())
}

fn grammar_error(result: Result<VOTable, Error>, got: &str, target: &str) {
    match result {
        Err(Error::CannotParse { got: g, target: t }) => {
            assert_eq!(g, got);
            assert_eq!(t, target);
        }
        other => panic!("expected a grammar error, got {:?}", other),
    }
}

#[test]
fn access_reference_of_two_rows() {
    let input = document(
        "<FIELD ucd=\"VOX:Image_AccessReference\" datatype=\"char\" arraysize=\"*\"/>",
        &two_links(),
    );
    let votable = parse(&input).unwrap();
    assert_eq!(votable.resources().len(), 1);
    let tables = votable.resources()[0].tables();
    assert_eq!(tables.len(), 1);
    let rows = tables[0].rows().unwrap();
    assert_eq!(rows.len(), 2);
    match rows[0].get_by_ucd("VOX:Image_AccessReference") {
        Some(Cell::Character(text)) => assert_eq!(text, "http1"),
        other => panic!("unexpected cell {:?}", other),
    }
    match rows[1].get_by_ucd("VOX:Image_AccessReference") {
        Some(Cell::Character(text)) => assert_eq!(text, "http2"),
        other => panic!("unexpected cell {:?}", other),
    }
    assert!(rows[0].get_by_ucd("VOX:Image_accessreference").is_none());
    assert!(rows[0].get_by_ucd("VOX:Image").is_none());
}

#[test]
fn parse_on_the_type_is_the_same() {
    let input = document("<FIELD datatype=\"char\" arraysize=\"*\"/>", &two_links());
    let votable = VOTable::parse(&input).unwrap();
    assert_eq!(votable.tables().len(), 1);
    assert_eq!(votable.tables()[0].rows().unwrap().len(), 2);
}

#[test]
fn payload_may_be_broken_over_lines() {
    let payload = two_links();
    let (head, tail) = payload.split_at(7);
    let input = document(
        "<FIELD name=\"link\" datatype=\"char\" arraysize=\"*\"/>",
        &format!("\n   {}\n   {}\n", head, tail),
    );
    let votable = parse(&input).unwrap();
    let rows = votable.resources()[0].tables()[0].rows().unwrap();
    assert_eq!(rows.len(), 2);
    match rows[1].get_by_name("link") {
        Some(Cell::Character(text)) => assert_eq!(text, "http2"),
        other => panic!("unexpected cell {:?}", other),
    }
}

#[test]
fn payload_may_stand_in_cdata() {
    let input = document(
        "<FIELD ID=\"link\" datatype=\"char\" arraysize=\"*\"/>",
        &format!("<![CDATA[{}]]>", two_links()),
    );
    let votable = parse(&input).unwrap();
    let rows = votable.resources()[0].tables()[0].rows().unwrap();
    assert_eq!(rows.len(), 2);
    match rows[0].get_by_id("link") {
        Some(Cell::Character(text)) => assert_eq!(text, "http1"),
        other => panic!("unexpected cell {:?}", other),
    }
}

#[test]
fn unknown_block_is_skipped_at_any_depth() {
    let input = b"<VOTABLE><RESOURCE>\
        <GROUP><PARAM name=\"a\"><LINK/><GROUP><GROUP><COOSYS/></GROUP>text</GROUP></PARAM><PARAM/></GROUP>\
        <TABLE><FIELD name=\"x\" datatype=\"int\"/></TABLE>\
        <COOSYS ID=\"c\"/>\
        <TABLE><FIELD name=\"y\" datatype=\"double\"/><FIELD name=\"z\"/></TABLE>\
        </RESOURCE></VOTABLE>";
    let votable = parse(input).unwrap();
    assert_eq!(votable.resources().len(), 1);
    let tables = votable.resources()[0].tables();
    assert_eq!(tables.len(), 2);
    assert_eq!(tables[0].fields.len(), 1);
    assert_eq!(tables[0].fields[0].name.as_deref(), Some("x"));
    assert_eq!(tables[0].fields[0].datatype, Some(DataType::Integer32));
    assert_eq!(tables[1].fields.len(), 2);
    assert_eq!(tables[1].fields[1].name.as_deref(), Some("z"));
    assert!(tables[0].rows().is_none());
}

#[test]
fn unknown_blocks_are_skipped_in_tables_and_fields() {
    let input = b"<VOTABLE><RESOURCE><TABLE>\
        <PARAM><VALUES><OPTION/></VALUES></PARAM>\
        <FIELD name=\"x\" datatype=\"int\"><LINK><X/></LINK><DESCRIPTION>the x</DESCRIPTION></FIELD>\
        <GROUP><FIELDref/></GROUP>\
        <FIELD name=\"y\"/>\
        </TABLE></RESOURCE></VOTABLE>";
    let votable = parse(input).unwrap();
    let table = &votable.resources()[0].tables()[0];
    assert_eq!(table.fields.len(), 2);
    assert_eq!(
        table.fields[0].description.as_ref().map(|d| d.content.as_str()),
        Some("the x")
    );
    assert_eq!(table.fields[1].name.as_deref(), Some("y"));
}

#[test]
fn a_known_element_inside_an_unknown_one_is_read() {
    let input = b"<VOTABLE><RESOURCE><GROUP><TABLE><FIELD name=\"in\"/></TABLE></GROUP>\
        <TABLE><FIELD name=\"out\"/></TABLE></RESOURCE></VOTABLE>";
    let votable = parse(input).unwrap();
    let tables = votable.resources()[0].tables();
    assert_eq!(tables.len(), 2);
    assert_eq!(tables[0].fields[0].name.as_deref(), Some("in"));
    assert_eq!(tables[1].fields[0].name.as_deref(), Some("out"));
}

#[test]
fn resources_nest() {
    let input = b"<VOTABLE><DESCRIPTION>first</DESCRIPTION><DESCRIPTION>second</DESCRIPTION>\
        <RESOURCE><DESCRIPTION>outer</DESCRIPTION><INFO name=\"a\" value=\"b\"><X/>text</INFO><INFO/>\
          <TABLE><FIELD name=\"t1\"/></TABLE>\
          <RESOURCE><TABLE><FIELD name=\"t2\"/></TABLE>\
            <RESOURCE><TABLE><FIELD name=\"t3\"/></TABLE></RESOURCE>\
          </RESOURCE>\
          <RESOURCE><TABLE><FIELD name=\"t4\"/></TABLE><TABLE><FIELD name=\"t5\"/></TABLE></RESOURCE>\
          <TABLE><FIELD name=\"t6\"/></TABLE>\
        </RESOURCE>\
        <RESOURCE><TABLE><FIELD name=\"t7\"/></TABLE></RESOURCE>\
        </VOTABLE>";
    let votable = parse(input).unwrap();
    assert_eq!(votable.description.as_ref().map(|d| d.content.as_str()), Some("first"));
    assert_eq!(votable.resources().len(), 2);
    let outer = &votable.resources()[0];
    assert_eq!(outer.description.as_ref().map(|d| d.content.as_str()), Some("outer"));
    assert_eq!(outer.infos.len(), 2);
    assert_eq!(outer.tables().len(), 2);
    assert_eq!(outer.children().len(), 2);
    assert_eq!(outer.children()[0].children().len(), 1);
    assert_eq!(outer.children()[0].children()[0].tables().len(), 1);
    assert_eq!(outer.children()[1].tables().len(), 2);
    let names: Vec<&str> = votable
        .tables()
        .iter()
        .map(|table| table.fields[0].name.as_deref().unwrap())
        .collect();
    assert_eq!(names, vec!["t1", "t6", "t2", "t4", "t5", "t7"]);
    let copy = votable.clone();
    assert_eq!(copy.resources()[0].children()[1].tables().len(), 2);
}

#[test]
fn a_document_without_resources() {
    let votable = parse(b"<VOTABLE/>").unwrap();
    assert!(votable.description.is_none());
    assert_eq!(votable.resources().len(), 0);
    assert_eq!(votable.tables().len(), 0);
}

#[test]
fn an_empty_description_is_an_error() {
    for input in [
        &b"<VOTABLE><DESCRIPTION></DESCRIPTION></VOTABLE>"[..],
        &b"<VOTABLE><DESCRIPTION/><RESOURCE/></VOTABLE>"[..],
        &b"<VOTABLE><RESOURCE><DESCRIPTION/></RESOURCE></VOTABLE>"[..],
        &b"<VOTABLE><RESOURCE><TABLE><FIELD><DESCRIPTION/></FIELD></TABLE></RESOURCE></VOTABLE>"[..],
    ] {
        match parse(input) {
            Err(Error::ContentNotFound { tag }) => assert_eq!(tag, "DESCRIPTION"),
            other => panic!("expected a missing content, got {:?}", other),
        }
    }
}

#[test]
fn what_is_not_xml_is_an_error() {
    for input in [
        &b"<VOTABLE><RESOURCE></VOTABLE>"[..],
        &b"<VOTABLE><RESOURCE>"[..],
        &b"not xml at all"[..],
        &b""[..],
        &b"<VOTABLE><RESOURCE><TABLE><FIELD name=\"a\" name=\"b\"/></TABLE></RESOURCE></VOTABLE>"[..],
    ] {
        match parse(input) {
            Err(Error::XmlReaderError(message)) => assert!(!message.is_empty()),
            other => panic!("expected a tokenizer error, got {:?}", other),
        }
    }
}

#[test]
fn an_error_of_the_walk_comes_before_a_later_one_of_the_tokenizer() {
    let input = b"<VOTABLE><RESOURCE><TABLE><FIELD datatype=\"quux\"/></TABLE></RESOURCE><BROKEN";
    grammar_error(parse(input), "quux", "datatype");
}

#[test]
fn other_serializations_are_refused() {
    for name in ["TABLEDATA", "FITS", "BINARY2"] {
        let input = format!(
            "<VOTABLE><RESOURCE><TABLE><FIELD datatype=\"int\"/><DATA><{0}></{0}></DATA></TABLE></RESOURCE></VOTABLE>",
            name
        );
        grammar_error(parse(input.as_bytes()), name, "DATA");
    }
}

#[test]
fn a_stream_must_name_its_encoding() {
    let input = b"<VOTABLE><RESOURCE><TABLE><FIELD datatype=\"int\"/><DATA><BINARY>\
        <STREAM>AAAA</STREAM></BINARY></DATA></TABLE></RESOURCE></VOTABLE>";
    grammar_error(parse(input), "encoding is missing", "BINARY > STREAM");
    let input = b"<VOTABLE><RESOURCE><TABLE><FIELD datatype=\"int\"/><DATA><BINARY>\
        <STREAM encoding=\"gzip\">AAAA</STREAM></BINARY></DATA></TABLE></RESOURCE></VOTABLE>";
    grammar_error(parse(input), "Cannot parse encoding gzip", "BINARY > STREAM");
    let input = b"<VOTABLE><RESOURCE><TABLE><FIELD datatype=\"int\"/><DATA><BINARY>\
        <STREAM encoding=\"base64\"/></BINARY></DATA></TABLE></RESOURCE></VOTABLE>";
    grammar_error(parse(input), "No input defined in STREAM!", "BINARY > STREAM");
}

#[test]
fn malformed_base64_in_a_document_is_an_error() {
    let input = document("<FIELD datatype=\"int\"/>", "AAA*AAAA");
    match parse(&input) {
        Err(Error::CannotParse { got, target }) => {
            assert_eq!(target, "BINARY > STREAM");
            assert_eq!(got, "Invalid byte 42, offset 3.");
        }
        other => panic!("expected a stream error, got {:?}", other),
    }
}

#[test]
fn a_field_with_values() {
    let mut bytes = Vec::new();
    for value in [-9999i32, 1, -9998] {
        bytes.extend_from_slice(&value.to_be_bytes());
    }
    let input = document(
        "<FIELD name=\"n\" datatype=\"int\" arraysize=\"3\"><DESCRIPTION>three</DESCRIPTION>\
         <VALUES null=\"-9999\"><MIN value=\"0\"/><MAX value=\"9\"/></VALUES></FIELD>",
        &base64::encode(&bytes),
    );
    let votable = parse(&input).unwrap();
    let table = &votable.resources()[0].tables()[0];
    let field = &table.fields[0];
    assert_eq!(field.arraysize, Some(ArraySize::Fixed(3)));
    assert_eq!(field.values.unwrap().null, Some(NullableDataValue::Integer32(-9999)));
    assert_eq!(field.description.as_ref().map(|d| d.content.as_str()), Some("three"));
    let rows = table.rows().unwrap();
    assert_eq!(rows.len(), 1);
    match rows[0].get_by_name("n") {
        Some(Cell::Integer32(items)) => assert_eq!(items, &vec![None, Some(1), Some(-9998)]),
        other => panic!("unexpected cell {:?}", other),
    }
}

#[test]
fn a_null_for_a_datatype_without_one_is_an_error() {
    let input = b"<VOTABLE><RESOURCE><TABLE><FIELD datatype=\"float\"><VALUES null=\"0\"/></FIELD>\
        </TABLE></RESOURCE></VOTABLE>";
    grammar_error(parse(input), "0 as Float32", "null");
}

#[test]
fn values_of_a_field_without_datatype_are_closed() {
    let input = b"<VOTABLE><RESOURCE><TABLE><FIELD name=\"a\"><VALUES null=\"1\"><MIN value=\"0\"/></VALUES>\
        <DESCRIPTION>the a</DESCRIPTION></FIELD>\
        <FIELD name=\"b\"/></TABLE><TABLE><FIELD name=\"c\"/></TABLE></RESOURCE></VOTABLE>";
    let votable = parse(input).unwrap();
    let tables = votable.resources()[0].tables();
    assert_eq!(tables.len(), 2);
    assert_eq!(tables[0].fields.len(), 2);
    assert_eq!(tables[0].fields[0].name.as_deref(), Some("a"));
    assert!(tables[0].fields[0].datatype.is_none());
    assert!(tables[0].fields[0].values.is_none());
    assert_eq!(
        tables[0].fields[0].description.as_ref().map(|d| d.content.as_str()),
        Some("the a")
    );
    assert_eq!(tables[0].fields[1].name.as_deref(), Some("b"));
    assert_eq!(tables[1].fields.len(), 1);
    assert_eq!(tables[1].fields[0].name.as_deref(), Some("c"));
}

#[test]
fn a_field_without_datatype_keeps_what_follows_it() {
    let events = Events {
        tokens: vec![start("VALUES", &[]), Token::End, Token::End, start("FIELD", &[]), Token::End],
        failure: None,
    };
    let attributes = vec![Attribute { name: "name".to_string(), value: "a".to_string() }];
    let (field, next) = vo_table::Field::parse(&attributes, &events, 0).unwrap();
    assert_eq!(field.name.as_deref(), Some("a"));
    assert!(field.datatype.is_none());
    assert!(field.values.is_none());
    assert_eq!(next, 3);
    let input = b"<VOTABLE><RESOURCE><TABLE><FIELD name=\"a\"><VALUES null=\"1\"/></FIELD>\
        <FIELD name=\"b\" datatype=\"unsignedByte\"/><DATA><BINARY>\
        <STREAM encoding=\"base64\">Bw==</STREAM></BINARY></DATA></TABLE></RESOURCE></VOTABLE>";
    match parse(input) {
        Err(Error::CannotParse { got, target }) => {
            assert_eq!(got, "Cannot parse field a. Missing datatype");
            assert_eq!(target, "BINARY > STREAM");
        }
        other => panic!("expected a stream error, got {:?}", other),
    }
}

#[test]
fn data_is_decoded_for_the_fields_before_it() {
    let input = document("", &base64::encode([0u8, 0, 0, 1]));
    let votable = parse(&input).unwrap();
    let table = &votable.resources()[0].tables()[0];
    assert_eq!(table.fields.len(), 0);
    assert_eq!(table.rows().unwrap().len(), 0);
}

#[test]
fn a_table_without_data_has_no_rows() {
    let votable =
        parse(b"<VOTABLE><RESOURCE><TABLE><FIELD name=\"x\"/></TABLE></RESOURCE></VOTABLE>").unwrap();
    assert!(votable.resources()[0].tables()[0].rows().is_none());
    assert!(votable.resources()[0].tables()[0].data.is_none());
}

#[test]
fn a_document_from_its_events() {
    let events = Events {
        tokens: vec![
            Token::Other,
            start("VOTABLE", &[]),
            start("RESOURCE", &[]),
            start("TABLE", &[]),
            start("FIELD", &[("name", "x"), ("datatype", "short")]),
            Token::End,
            Token::End,
            Token::End,
            Token::End,
            Token::Other,
        ],
        failure: None,
    };
    let votable = VOTable::from_events(&events).unwrap();
    assert_eq!(votable.resources().len(), 1);
    let table = &votable.resources()[0].tables()[0];
    assert_eq!(table.fields[0].datatype, Some(DataType::Integer16));
}

#[test]
fn events_that_run_out_close_what_is_open() {
    let events = Events {
        tokens: vec![
            start("VOTABLE", &[]),
            start("RESOURCE", &[]),
            start("TABLE", &[]),
            start("FIELD", &[("name", "x")]),
        ],
        failure: None,
    };
    let votable = VOTable::from_events(&events).unwrap();
    assert_eq!(votable.resources()[0].tables()[0].fields[0].name.as_deref(), Some("x"));
}

#[test]
fn events_that_end_in_a_failure_give_it() {
    let events = Events {
        tokens: vec![start("VOTABLE", &[]), start("RESOURCE", &[]), start("TABLE", &[])],
        failure: Some("1:20 Unexpected end of stream".to_string()),
    };
    match VOTable::from_events(&events) {
        Err(Error::XmlReaderError(message)) => assert_eq!(message, "1:20 Unexpected end of stream"),
        other => panic!("expected a tokenizer error, got {:?}", other),
    }
}

#[test]
fn a_description_is_its_last_text_before_its_end_tag() {
    let events = Events {
        tokens: vec![
            start("VOTABLE", &[]),
            start("DESCRIPTION", &[]),
            text("one"),
            start("B", &[]),
            text("two"),
            Token::End,
            text("three"),
            Token::End,
            start("RESOURCE", &[]),
            Token::End,
            Token::End,
        ],
        failure: None,
    };
    let votable = VOTable::from_events(&events).unwrap();
    assert_eq!(votable.description.as_ref().map(|d| d.content.as_str()), Some("three"));
    assert_eq!(votable.resources().len(), 1);
}

#[test]
fn a_description_that_holds_elements_ends_at_its_own_end_tag() {
    let input = b"<VOTABLE><RESOURCE><DESCRIPTION>about <b>the</b> resource<br/></DESCRIPTION>\
        <TABLE><FIELD name=\"x\"><DESCRIPTION><i>x</i></DESCRIPTION></FIELD><FIELD name=\"y\"/>\
        </TABLE><TABLE><FIELD name=\"z\"/></TABLE></RESOURCE><RESOURCE/></VOTABLE>";
    let votable = parse(input).unwrap();
    assert_eq!(votable.resources().len(), 2);
    let resource = &votable.resources()[0];
    assert_eq!(resource.description.as_ref().map(|d| d.content.as_str()), Some(" resource"));
    assert_eq!(resource.tables().len(), 2);
    assert_eq!(resource.tables()[0].fields.len(), 2);
    assert_eq!(
        resource.tables()[0].fields[0].description.as_ref().map(|d| d.content.as_str()),
        Some("x")
    );
    assert_eq!(resource.tables()[1].fields[0].name.as_deref(), Some("z"));
    match parse(b"<VOTABLE><RESOURCE><DESCRIPTION><b/></DESCRIPTION></RESOURCE></VOTABLE>") {
        Err(Error::ContentNotFound { tag }) => assert_eq!(tag, "DESCRIPTION"),
        other => panic!("expected a missing content, got {:?}", other),
    }
}

#[test]
fn a_stream_is_its_last_text() {
    let payload = base64::encode([7u8]);
    let events = Events {
        tokens: vec![
            start("RESOURCE", &[]),
            start("TABLE", &[]),
            start("FIELD", &[("datatype", "unsignedByte")]),
            Token::End,
            start("DATA", &[]),
            start("BINARY", &[]),
            start("STREAM", &[("type", "x"), ("encoding", "base64"), ("encoding", "gzip")]),
            text("!!!"),
            start("X", &[]),
            text(&payload),
            Token::End,
            Token::End,
            Token::End,
            Token::End,
            Token::End,
            Token::End,
        ],
        failure: None,
    };
    let votable = VOTable::from_events(&events).unwrap();
    let rows = votable.resources()[0].tables()[0].rows().unwrap();
    assert_eq!(rows.len(), 1);
    match &rows[0].row.cells[0] {
        Cell::Byte(items) => assert_eq!(items, &vec![7u8]),
        other => panic!("unexpected cell {:?}", other),
    }
}
