//! The walk over the events of a document that builds the document tree.

use vstd::prelude::*;
use crate::data::Data;
use crate::error::{outcome, Error, ErrorView};
use crate::payload::decode_payload;
use crate::schema::{DataType, Description, Field, Values};
use crate::text::same_text;
use crate::token::{read_events, xml_events, Attribute, Events, Token};
use crate::tree::{Info, Resource, ResourceView, Table, TableView, VOTable};
use crate::walk::{
    at_end, attribute_value, binary_from, close_from, data_from, described, description_from,
    document_of, field_from, field_parsed, resource_from, stream_from, stream_parsed, table_from,
    values_parsed, votable_from, within,
};

verus! {

/// What a step of the walk gave, by its content: what it built and where it
/// left off, or its error.
pub open spec fn walked<T: DeepView>(r: Result<(T, usize), Error>) -> Result<(T::V, int), ErrorView> {
    match r {
        Ok((built, next)) => Ok((built.deep_view(), next as int)),
        Err(e) => Err(e@),
    }
}

/// Whether a step of the walk that began at `pos` left off at or behind
/// `pos` and within the events.
pub open spec fn advanced<T>(r: Result<(T, usize), Error>, events: &Events, pos: usize) -> bool {
    match r {
        Ok((_, next)) => pos <= next <= events.tokens@.len(),
        Err(_) => true,
    }
}

/// Ends a container at the end of the events.
fn run_out<T: DeepView>(events: &Events, built: T, pos: usize) -> (r: Result<(T, usize), Error>)
    requires
        pos <= events.tokens@.len(),
    ensures
        walked(r) == at_end(events.deep_view(), built.deep_view(), pos as int),
        advanced(r, events, pos),
{
    match &events.failure {
        Some(text) => Err(Error::XmlReaderError(text.clone())),
        None => Ok((built, pos)),
    }
}

/// Skips an element of which nothing is read.
fn skip_element(events: &Events, pos: usize) -> (r: Result<usize, Error>)
    requires
        pos <= events.tokens@.len(),
    ensures
        match r {
            Ok(next) => close_from(events.deep_view(), pos as int, 0) == Ok::<
                ((), int),
                ErrorView,
            >(((), next as int)) && pos <= next <= events.tokens@.len(),
            Err(e) => close_from(events.deep_view(), pos as int, 0) == Err::<((), int), ErrorView>(
                e@,
            ),
        },
{
    let mut depth: usize = 0;
    let mut at: usize = pos;
    while at < events.tokens.len()
        invariant
            pos <= at <= events.tokens@.len(),
            depth <= at - pos,
            close_from(events.deep_view(), pos as int, 0) == close_from(
                events.deep_view(),
                at as int,
                depth as nat,
            ),
        decreases events.tokens@.len() - at,
    {
        match &events.tokens[at] {
            Token::Start { .. } => {
                depth = depth + 1;
            },
            Token::End => {
                if depth == 0 {
                    return Ok(at + 1);
                }
                depth = depth - 1;
            },
            _ => {},
        }
        at = at + 1;
    }
    match &events.failure {
        Some(text) => Err(Error::XmlReaderError(text.clone())),
        None => Ok(at),
    }
}

/// Ends a `DESCRIPTION` element at `next` with `found` as its last character
/// content.
fn finish_description(found: Option<&String>, next: usize) -> (r: Result<
    (Description, usize),
    Error,
>)
    ensures
        walked(r) == described(found.deep_view(), next as int),
{
    match found {
        Some(content) => Ok((Description { content: content.clone() }, next)),
        None => Err(Error::ContentNotFound { tag: "DESCRIPTION" }),
    }
}

impl Description {
    /// Reads a `DESCRIPTION` element from behind its start tag.
    pub fn parse(events: &Events, pos: usize) -> (r: Result<(Description, usize), Error>)
        requires
            pos <= events.tokens@.len(),
        ensures
            walked(r) == description_from(events.deep_view(), pos as int, 0, None),
            advanced(r, events, pos),
    {
        let mut found: Option<&String> = None;
        let mut depth: usize = 0;
        let mut at: usize = pos;
        while at < events.tokens.len()
            invariant
                pos <= at <= events.tokens@.len(),
                depth <= at - pos,
                description_from(events.deep_view(), pos as int, 0, None) == description_from(
                    events.deep_view(),
                    at as int,
                    depth as nat,
                    found.deep_view(),
                ),
            decreases events.tokens@.len() - at,
        {
            assert(events.deep_view().tokens[at as int] == events.tokens[at as int].deep_view());
            match &events.tokens[at] {
                Token::Characters(content) => {
                    found = Some(content);
                },
                Token::Start { .. } => {
                    depth = depth + 1;
                },
                Token::End => {
                    if depth == 0 {
                        return finish_description(found, at + 1);
                    }
                    depth = depth - 1;
                },
                _ => {},
            }
            at = at + 1;
        }
        match &events.failure {
            Some(text) => Err(Error::XmlReaderError(text.clone())),
            None => finish_description(found, at),
        }
    }
}

impl Info {
    /// Reads an `INFO` element from behind its start tag.
    pub fn parse(events: &Events, pos: usize) -> (r: Result<(Info, usize), Error>)
        requires
            pos <= events.tokens@.len(),
        ensures
            match r {
                Ok((_, next)) => close_from(events.deep_view(), pos as int, 0) == Ok::<
                    ((), int),
                    ErrorView,
                >(((), next as int)),
                Err(e) => close_from(events.deep_view(), pos as int, 0) == Err::<
                    ((), int),
                    ErrorView,
                >(e@),
            },
            advanced(r, events, pos),
    {
        match skip_element(events, pos) {
            Ok(next) => Ok((Info {  }, next)),
            Err(e) => Err(e),
        }
    }
}

impl Values {
    /// Reads a `VALUES` element of a column of `datatype` from behind its
    /// start tag, of which `attributes` are the attributes.
    pub fn parse(datatype: DataType, attributes: &Vec<Attribute>, events: &Events, pos: usize) -> (r:
        Result<(Values, usize), Error>)
        requires
            pos <= events.tokens@.len(),
        ensures
            walked(r) == values_parsed(
                datatype,
                attributes.deep_view(),
                events.deep_view(),
                pos as int,
            ),
            advanced(r, events, pos),
    {
        let values = match Values::from_attributes(datatype, attributes) {
            Ok(values) => values,
            Err(e) => {
                return Err(e);
            },
        };
        match skip_element(events, pos) {
            Ok(next) => Ok((values, next)),
            Err(e) => Err(e),
        }
    }
}

impl Field {
    /// Reads a `FIELD` element from behind its start tag, of which
    /// `attributes` are the attributes.
    pub fn parse(attributes: &Vec<Attribute>, events: &Events, pos: usize) -> (r: Result<
        (Field, usize),
        Error,
    >)
        requires
            pos <= events.tokens@.len(),
        ensures
            walked(r) == field_parsed(attributes.deep_view(), events.deep_view(), pos as int),
            advanced(r, events, pos),
    {
        let mut field = match Field::from_attributes(attributes) {
            Ok(field) => field,
            Err(e) => {
                return Err(e);
            },
        };
        let mut depth: usize = 0;
        let mut at: usize = pos;
        while at < events.tokens.len()
            invariant
                pos <= at <= events.tokens@.len(),
                depth <= at - pos,
                field_parsed(attributes.deep_view(), events.deep_view(), pos as int) == field_from(
                    events.deep_view(),
                    at as int,
                    depth as nat,
                    field.deep_view(),
                ),
            decreases events.tokens@.len() - at,
        {
            match &events.tokens[at] {
                Token::Start { name, attributes: own } => {
                    if same_text(name.as_str(), "DESCRIPTION") {
                        match Description::parse(events, at + 1) {
                            Err(e) => {
                                return Err(e);
                            },
                            Ok((description, next)) => {
                                field.description = Some(description);
                                at = next;
                            },
                        }
                    } else if same_text(name.as_str(), "VALUES") {
                        match field.datatype {
                            Some(datatype) => match Values::parse(datatype, own, events, at + 1) {
                                Err(e) => {
                                    return Err(e);
                                },
                                Ok((values, next)) => {
                                    field.values = Some(values);
                                    at = next;
                                },
                            },
                            None => match skip_element(events, at + 1) {
                                Err(e) => {
                                    return Err(e);
                                },
                                Ok(next) => {
                                    at = next;
                                },
                            },
                        }
                    } else {
                        depth = depth + 1;
                        at = at + 1;
                    }
                },
                Token::End => {
                    if depth == 0 {
                        return Ok((field, at + 1));
                    }
                    depth = depth - 1;
                    at = at + 1;
                },
                _ => {
                    at = at + 1;
                },
            }
        }
        run_out(events, field, at)
    }
}

/// The value of the first attribute called `name`.
fn find_attribute<'a>(attributes: &'a Vec<Attribute>, name: &str) -> (r: Option<&'a String>)
    ensures
        r.deep_view() == attribute_value(attributes.deep_view(), name@, 0),
{
    let mut i: usize = 0;
    while i < attributes.len()
        invariant
            i <= attributes.len(),
            attribute_value(attributes.deep_view(), name@, 0) == attribute_value(
                attributes.deep_view(),
                name@,
                i as int,
            ),
        decreases attributes.len() - i,
    {
        if same_text(attributes[i].name.as_str(), name) {
            return Some(&attributes[i].value);
        }
        i = i + 1;
    }
    None
}

/// Reads the character content of a `STREAM` element from behind its start
/// tag.
fn read_stream<'a>(events: &'a Events, pos: usize) -> (r: Result<(Option<&'a String>, usize), Error>)
    requires
        pos <= events.tokens@.len(),
    ensures
        walked(r) == stream_from(events.deep_view(), pos as int, 0, None),
        advanced(r, events, pos),
{
    let mut input: Option<&String> = None;
    let mut depth: usize = 0;
    let mut at: usize = pos;
    while at < events.tokens.len()
        invariant
            pos <= at <= events.tokens@.len(),
            depth <= at - pos,
            stream_from(events.deep_view(), pos as int, 0, None) == stream_from(
                events.deep_view(),
                at as int,
                depth as nat,
                input.deep_view(),
            ),
        decreases events.tokens@.len() - at,
    {
        match &events.tokens[at] {
            Token::Characters(content) => {
                input = Some(content);
            },
            Token::Start { .. } => {
                depth = depth + 1;
            },
            Token::End => {
                if depth == 0 {
                    return Ok((input, at + 1));
                }
                depth = depth - 1;
            },
            _ => {},
        }
        at = at + 1;
    }
    run_out(events, input, at)
}

impl Data {
    /// Reads a `STREAM` element from behind its start tag, of which
    /// `attributes` are the attributes, and decodes its rows for the columns
    /// `fields`.
    pub fn parse_binary_stream(
        fields: &Vec<Field>,
        attributes: &Vec<Attribute>,
        events: &Events,
        pos: usize,
    ) -> (r: Result<(Data, usize), Error>)
        requires
            pos <= events.tokens@.len(),
        ensures
            walked(r) == stream_parsed(
                fields.deep_view(),
                attributes.deep_view(),
                events.deep_view(),
                pos as int,
            ),
            advanced(r, events, pos),
    {
        let encoding = match find_attribute(attributes, "encoding") {
            Some(encoding) => encoding,
            None => {
                return Err(
                    Error::CannotParse {
                        got: "encoding is missing".to_owned(),
                        target: "BINARY > STREAM",
                    },
                );
            },
        };
        let (input, next) = match read_stream(events, pos) {
            Ok(read) => read,
            Err(e) => {
                return Err(e);
            },
        };
        let text = match input {
            Some(content) => Some(content.as_str()),
            None => None,
        };
        match decode_payload(fields, encoding.as_str(), text) {
            Ok(data) => Ok((data, next)),
            Err(e) => Err(e),
        }
    }

    /// Reads a `BINARY` element from behind its start tag.
    pub fn parse_binary(fields: &Vec<Field>, events: &Events, pos: usize) -> (r: Result<
        (Data, usize),
        Error,
    >)
        requires
            pos <= events.tokens@.len(),
        ensures
            walked(r) == binary_from(
                fields.deep_view(),
                events.deep_view(),
                pos as int,
                0,
                Seq::empty(),
            ),
            advanced(r, events, pos),
    {
        let mut data = Data { rows: Vec::new() };
        let mut depth: usize = 0;
        let mut at: usize = pos;
        assert(data.deep_view() =~= Seq::empty());
        while at < events.tokens.len()
            invariant
                pos <= at <= events.tokens@.len(),
                depth <= at - pos,
                binary_from(fields.deep_view(), events.deep_view(), pos as int, 0, Seq::empty())
                    == binary_from(
                    fields.deep_view(),
                    events.deep_view(),
                    at as int,
                    depth as nat,
                    data.deep_view(),
                ),
            decreases events.tokens@.len() - at,
        {
            match &events.tokens[at] {
                Token::Start { name, attributes } => {
                    if same_text(name.as_str(), "STREAM") {
                        match Data::parse_binary_stream(fields, attributes, events, at + 1) {
                            Err(e) => {
                                return Err(e);
                            },
                            Ok((decoded, next)) => {
                                data = decoded;
                                at = next;
                            },
                        }
                    } else {
                        depth = depth + 1;
                        at = at + 1;
                    }
                },
                Token::End => {
                    if depth == 0 {
                        return Ok((data, at + 1));
                    }
                    depth = depth - 1;
                    at = at + 1;
                },
                _ => {
                    at = at + 1;
                },
            }
        }
        run_out(events, data, at)
    }

    /// Reads a `DATA` element from behind its start tag.
    pub fn parse(fields: &Vec<Field>, events: &Events, pos: usize) -> (r: Result<
        (Data, usize),
        Error,
    >)
        requires
            pos <= events.tokens@.len(),
        ensures
            walked(r) == data_from(
                fields.deep_view(),
                events.deep_view(),
                pos as int,
                0,
                Seq::empty(),
            ),
            advanced(r, events, pos),
    {
        let mut data = Data { rows: Vec::new() };
        let mut depth: usize = 0;
        let mut at: usize = pos;
        assert(data.deep_view() =~= Seq::empty());
        while at < events.tokens.len()
            invariant
                pos <= at <= events.tokens@.len(),
                depth <= at - pos,
                data_from(fields.deep_view(), events.deep_view(), pos as int, 0, Seq::empty())
                    == data_from(
                    fields.deep_view(),
                    events.deep_view(),
                    at as int,
                    depth as nat,
                    data.deep_view(),
                ),
            decreases events.tokens@.len() - at,
        {
            match &events.tokens[at] {
                Token::Start { name, .. } => {
                    let tag = name.as_str();
                    if same_text(tag, "TABLEDATA") || same_text(tag, "FITS") || same_text(
                        tag,
                        "BINARY2",
                    ) {
                        return Err(Error::CannotParse { got: name.clone(), target: "DATA" });
                    } else if same_text(tag, "BINARY") {
                        match Data::parse_binary(fields, events, at + 1) {
                            Err(e) => {
                                return Err(e);
                            },
                            Ok((decoded, next)) => {
                                data = decoded;
                                at = next;
                            },
                        }
                    } else {
                        depth = depth + 1;
                        at = at + 1;
                    }
                },
                Token::End => {
                    if depth == 0 {
                        return Ok((data, at + 1));
                    }
                    depth = depth - 1;
                    at = at + 1;
                },
                _ => {
                    at = at + 1;
                },
            }
        }
        run_out(events, data, at)
    }
}

impl Table {
    /// Reads a `TABLE` element from behind its start tag.
    pub fn parse(events: &Events, pos: usize) -> (r: Result<(Table, usize), Error>)
        requires
            pos <= events.tokens@.len(),
        ensures
            walked(r) == table_from(
                events.deep_view(),
                pos as int,
                0,
                TableView::blank(),
            ),
            advanced(r, events, pos),
    {
        let mut table = Table::default();
        let mut depth: usize = 0;
        let mut at: usize = pos;
        while at < events.tokens.len()
            invariant
                pos <= at <= events.tokens@.len(),
                depth <= at - pos,
                table_from(events.deep_view(), pos as int, 0, TableView::blank())
                    == table_from(events.deep_view(), at as int, depth as nat, table.deep_view()),
            decreases events.tokens@.len() - at,
        {
            match &events.tokens[at] {
                Token::Start { name, attributes } => {
                    if same_text(name.as_str(), "FIELD") {
                        match Field::parse(attributes, events, at + 1) {
                            Err(e) => {
                                return Err(e);
                            },
                            Ok((field, next)) => {
                                let ghost before = table.fields.deep_view();
                                table.fields.push(field);
                                assert(table.fields.deep_view() =~= before.push(field.deep_view()));
                                at = next;
                            },
                        }
                    } else if same_text(name.as_str(), "DATA") {
                        match Data::parse(&table.fields, events, at + 1) {
                            Err(e) => {
                                return Err(e);
                            },
                            Ok((data, next)) => {
                                table.data = Some(data);
                                at = next;
                            },
                        }
                    } else {
                        depth = depth + 1;
                        at = at + 1;
                    }
                },
                Token::End => {
                    if depth == 0 {
                        return Ok((table, at + 1));
                    }
                    depth = depth - 1;
                    at = at + 1;
                },
                _ => {
                    at = at + 1;
                },
            }
        }
        run_out(events, table, at)
    }
}

impl Resource {
    /// Reads a `RESOURCE` element from behind its start tag.
    pub fn parse(events: &Events, pos: usize) -> (r: Result<(Resource, usize), Error>)
        requires
            pos <= events.tokens@.len(),
        ensures
            walked(r) == resource_from(
                events.deep_view(),
                pos as int,
                0,
                ResourceView::blank(),
            ),
            advanced(r, events, pos),
        decreases events.tokens@.len() - pos,
    {
        let mut resource = Resource::default();
        let mut depth: usize = 0;
        let mut at: usize = pos;
        while at < events.tokens.len()
            invariant
                pos <= at <= events.tokens@.len(),
                depth <= at - pos,
                resource_from(events.deep_view(), pos as int, 0, ResourceView::blank())
                    == resource_from(
                    events.deep_view(),
                    at as int,
                    depth as nat,
                    resource.deep_view(),
                ),
            decreases events.tokens@.len() - at,
        {
            match &events.tokens[at] {
                Token::Start { name, .. } => {
                    let tag = name.as_str();
                    if same_text(tag, "DESCRIPTION") {
                        match Description::parse(events, at + 1) {
                            Err(e) => {
                                return Err(e);
                            },
                            Ok((description, next)) => {
                                resource.description = Some(description);
                                at = next;
                            },
                        }
                    } else if same_text(tag, "INFO") {
                        match Info::parse(events, at + 1) {
                            Err(e) => {
                                return Err(e);
                            },
                            Ok((info, next)) => {
                                resource.infos.push(info);
                                at = next;
                            },
                        }
                    } else if same_text(tag, "TABLE") {
                        match Table::parse(events, at + 1) {
                            Err(e) => {
                                return Err(e);
                            },
                            Ok((table, next)) => {
                                let ghost before = resource.tables.deep_view();
                                resource.tables.push(table);
                                assert(resource.tables.deep_view() =~= before.push(
                                    table.deep_view(),
                                ));
                                at = next;
                            },
                        }
                    } else if same_text(tag, "RESOURCE") {
                        match Resource::parse(events, at + 1) {
                            Err(e) => {
                                return Err(e);
                            },
                            Ok((child, next)) => {
                                let ghost before = resource.child_resources.deep_view();
                                proof {
                                    resource.lemma_children();
                                }
                                resource.child_resources.push(child);
                                proof {
                                    resource.lemma_children();
                                    assert(resource.child_resources.deep_view() =~= before.push(
                                        child.deep_view(),
                                    ));
                                }
                                at = next;
                            },
                        }
                    } else {
                        depth = depth + 1;
                        at = at + 1;
                    }
                },
                Token::End => {
                    if depth == 0 {
                        return Ok((resource, at + 1));
                    }
                    depth = depth - 1;
                    at = at + 1;
                },
                _ => {
                    at = at + 1;
                },
            }
        }
        run_out(events, resource, at)
    }
}

impl VOTable {
    /// Builds the document from its events.
    pub fn from_events(events: &Events) -> (r: Result<VOTable, Error>)
        ensures
            outcome(r) == document_of(events.deep_view()),
    {
        let mut document = VOTable::default();
        let mut at: usize = 0;
        while at < events.tokens.len()
            invariant
                at <= events.tokens@.len(),
                document_of(events.deep_view()) == votable_from(
                    events.deep_view(),
                    at as int,
                    document.deep_view(),
                ),
            decreases events.tokens@.len() - at,
        {
            match &events.tokens[at] {
                Token::Start { name, .. } => {
                    let tag = name.as_str();
                    if same_text(tag, "DESCRIPTION") && document.description.is_none() {
                        match Description::parse(events, at + 1) {
                            Err(e) => {
                                return Err(e);
                            },
                            Ok((description, next)) => {
                                document.description = Some(description);
                                at = next;
                            },
                        }
                    } else if same_text(tag, "RESOURCE") {
                        match Resource::parse(events, at + 1) {
                            Err(e) => {
                                return Err(e);
                            },
                            Ok((resource, next)) => {
                                let ghost before = document.resources.deep_view();
                                document.resources.push(resource);
                                assert(document.resources.deep_view() =~= before.push(
                                    resource.deep_view(),
                                ));
                                at = next;
                            },
                        }
                    } else {
                        at = at + 1;
                    }
                },
                _ => {
                    at = at + 1;
                },
            }
        }
        match &events.failure {
            Some(text) => Err(Error::XmlReaderError(text.clone())),
            None => Ok(document),
        }
    }

    /// Reads the document that the bytes `input` hold.
    pub fn parse(input: &[u8]) -> (r: Result<VOTable, Error>)
        ensures
            outcome(r) == document_of(xml_events(input@)),
    {
        let events = read_events(input);
        VOTable::from_events(&events)
    }
}

/// Reads the document that the bytes `input` hold.
pub fn parse(input: &[u8]) -> (r: Result<VOTable, Error>)
    ensures
        outcome(r) == document_of(xml_events(input@)),
{
    VOTable::parse(input)
}

} // verus!
