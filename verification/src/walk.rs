//! What the walk over the events of a document builds, stated as functions
//! of the events. Each function starts behind the start tag of its element
//! and gives what it built with the position behind the element's end tag.
//!
//! Every container skips what it does not know: a start tag it has no use
//! for raises its depth by one, an end tag lowers it, and the end tag met at
//! depth zero is the container's own.

use vstd::prelude::*;
use crate::data::CellView;
use crate::error::{cannot_parse, ErrorView};
use crate::payload::payload_outcome;
use crate::schema::{field_of, values_of, DataType, FieldView, Values};
use crate::token::{AttributeView, EventsView, TokenView};
use crate::tree::{ResourceView, TableView, VOTableView};

verus! {

/// Where the walk goes on behind a child whose start tag stood at `start`
/// and that ended at `end`. A child always ends behind its start tag and
/// within the events, so this is `end`; it is written so that the walk is
/// seen to move forward.
pub open spec fn resume(events: EventsView, start: int, end: int) -> int {
    if start < end <= events.tokens.len() {
        end
    } else {
        start + 1
    }
}

/// What a container gives when the events run out while it is open: the
/// tokenizer's objection if it made one, and else what was built.
pub open spec fn at_end<T>(events: EventsView, built: T, pos: int) -> Result<(T, int), ErrorView> {
    match events.failure {
        Some(text) => Err(ErrorView::XmlReaderError(text)),
        None => Ok((built, pos)),
    }
}

/// Whether `pos` is the place of an event.
pub open spec fn within(events: EventsView, pos: int) -> bool {
    0 <= pos < events.tokens.len()
}

/// The text of a `DESCRIPTION` element that is left at `next` with `found`
/// as its last character content.
pub open spec fn described(found: Option<Seq<char>>, next: int) -> Result<
    (Seq<char>, int),
    ErrorView,
> {
    match found {
        Some(content) => Ok((content, next)),
        None => Err(ErrorView::ContentNotFound { tag: "DESCRIPTION"@ }),
    }
}

/// The text of a `DESCRIPTION` element, seen from `pos` inside it at
/// `depth`: its last character content before its end tag, whatever
/// elements it holds. An element without character content is an error.
pub open spec fn description_from(
    events: EventsView,
    pos: int,
    depth: nat,
    found: Option<Seq<char>>,
) -> Result<(Seq<char>, int), ErrorView>
    decreases events.tokens.len() - pos,
{
    if !within(events, pos) {
        match events.failure {
            Some(text) => Err(ErrorView::XmlReaderError(text)),
            None => described(found, pos),
        }
    } else {
        match events.tokens[pos] {
            TokenView::Characters(content) => description_from(
                events,
                pos + 1,
                depth,
                Some(content),
            ),
            TokenView::Start { .. } => description_from(events, pos + 1, depth + 1, found),
            TokenView::End => if depth == 0 {
                described(found, pos + 1)
            } else {
                description_from(events, pos + 1, (depth - 1) as nat, found)
            },
            _ => description_from(events, pos + 1, depth, found),
        }
    }
}

/// Where an element of which nothing is read ends, seen from `pos` inside it
/// at `depth`.
pub open spec fn close_from(events: EventsView, pos: int, depth: nat) -> Result<
    ((), int),
    ErrorView,
>
    decreases events.tokens.len() - pos,
{
    if !within(events, pos) {
        at_end(events, (), pos)
    } else {
        match events.tokens[pos] {
            TokenView::Start { .. } => close_from(events, pos + 1, depth + 1),
            TokenView::End => if depth == 0 {
                Ok(((), pos + 1))
            } else {
                close_from(events, pos + 1, (depth - 1) as nat)
            },
            _ => close_from(events, pos + 1, depth),
        }
    }
}

/// What a `VALUES` element declares for a column of `datatype`: what its
/// attributes say, once the element is closed.
pub open spec fn values_parsed(
    datatype: DataType,
    attributes: Seq<AttributeView>,
    events: EventsView,
    pos: int,
) -> Result<(Values, int), ErrorView> {
    match values_of(datatype, attributes, attributes.len() as int) {
        Err(e) => Err(e),
        Ok(values) => match close_from(events, pos, 0) {
            Err(e) => Err(e),
            Ok((_, next)) => Ok((values, next)),
        },
    }
}

/// Whether a column has a use for an element called `name`.
pub open spec fn field_knows(name: Seq<char>) -> bool {
    name == "DESCRIPTION"@ || name == "VALUES"@
}

/// The column `field` after the children of its `FIELD` element from `pos`
/// on. A `DESCRIPTION` gives its text, and a `VALUES` its declaration where
/// the datatype is known; where it is not, the `VALUES` element is closed as
/// one of which nothing is read.
pub open spec fn field_from(events: EventsView, pos: int, depth: nat, field: FieldView) -> Result<
    (FieldView, int),
    ErrorView,
>
    decreases events.tokens.len() - pos,
{
    if !within(events, pos) {
        at_end(events, field, pos)
    } else {
        match events.tokens[pos] {
            TokenView::Start { name, attributes } => if name == "DESCRIPTION"@ {
                match description_from(events, pos + 1, 0, None) {
                    Err(e) => Err(e),
                    Ok((text, next)) => field_from(
                        events,
                        resume(events, pos, next),
                        depth,
                        FieldView { description: Some(text), ..field },
                    ),
                }
            } else if name == "VALUES"@ {
                match field.datatype {
                    Some(datatype) => match values_parsed(datatype, attributes, events, pos + 1) {
                        Err(e) => Err(e),
                        Ok((values, next)) => field_from(
                            events,
                            resume(events, pos, next),
                            depth,
                            FieldView { values: Some(values), ..field },
                        ),
                    },
                    None => match close_from(events, pos + 1, 0) {
                        Err(e) => Err(e),
                        Ok((_, next)) => field_from(
                            events,
                            resume(events, pos, next),
                            depth,
                            field,
                        ),
                    },
                }
            } else {
                field_from(events, pos + 1, depth + 1, field)
            },
            TokenView::End => if depth == 0 {
                Ok((field, pos + 1))
            } else {
                field_from(events, pos + 1, (depth - 1) as nat, field)
            },
            _ => field_from(events, pos + 1, depth, field),
        }
    }
}

/// The column that a `FIELD` element declares: its attributes first, then
/// its children.
pub open spec fn field_parsed(attributes: Seq<AttributeView>, events: EventsView, pos: int)
    -> Result<(FieldView, int), ErrorView> {
    match field_of(attributes, attributes.len() as int) {
        Err(e) => Err(e),
        Ok(field) => field_from(events, pos, 0, field),
    }
}

/// The value of the first attribute called `name` among `attributes` from
/// `from` on.
pub open spec fn attribute_value(attributes: Seq<AttributeView>, name: Seq<char>, from: int)
    -> Option<Seq<char>>
    decreases attributes.len() - from,
{
    if from < 0 || from >= attributes.len() {
        None
    } else if attributes[from].name == name {
        Some(attributes[from].value)
    } else {
        attribute_value(attributes, name, from + 1)
    }
}

/// The character content of a `STREAM` element: the last run of characters
/// before it closes, at whatever depth, after `input`.
pub open spec fn stream_from(events: EventsView, pos: int, depth: nat, input: Option<Seq<char>>)
    -> Result<(Option<Seq<char>>, int), ErrorView>
    decreases events.tokens.len() - pos,
{
    if !within(events, pos) {
        at_end(events, input, pos)
    } else {
        match events.tokens[pos] {
            TokenView::Characters(content) => stream_from(events, pos + 1, depth, Some(content)),
            TokenView::Start { .. } => stream_from(events, pos + 1, depth + 1, input),
            TokenView::End => if depth == 0 {
                Ok((input, pos + 1))
            } else {
                stream_from(events, pos + 1, (depth - 1) as nat, input)
            },
            _ => stream_from(events, pos + 1, depth, input),
        }
    }
}

/// The rows of a `STREAM` element for the columns `fields`. The element must
/// name its encoding; its content is read to its end tag first and decoded
/// then.
pub open spec fn stream_parsed(
    fields: Seq<FieldView>,
    attributes: Seq<AttributeView>,
    events: EventsView,
    pos: int,
) -> Result<(Seq<Seq<CellView>>, int), ErrorView> {
    match attribute_value(attributes, "encoding"@, 0) {
        None => Err(cannot_parse("encoding is missing"@, "BINARY > STREAM")),
        Some(encoding) => match stream_from(events, pos, 0, None) {
            Err(e) => Err(e),
            Ok((input, next)) => match payload_outcome(fields, encoding, input) {
                Err(e) => Err(e),
                Ok(rows) => Ok((rows, next)),
            },
        },
    }
}

/// Whether a `BINARY` element has a use for an element called `name`.
pub open spec fn binary_knows(name: Seq<char>) -> bool {
    name == "STREAM"@
}

/// The rows of a `BINARY` element from `pos` on, after `rows`: those of its
/// last `STREAM`.
pub open spec fn binary_from(
    fields: Seq<FieldView>,
    events: EventsView,
    pos: int,
    depth: nat,
    rows: Seq<Seq<CellView>>,
) -> Result<(Seq<Seq<CellView>>, int), ErrorView>
    decreases events.tokens.len() - pos,
{
    if !within(events, pos) {
        at_end(events, rows, pos)
    } else {
        match events.tokens[pos] {
            TokenView::Start { name, attributes } => if name == "STREAM"@ {
                match stream_parsed(fields, attributes, events, pos + 1) {
                    Err(e) => Err(e),
                    Ok((decoded, next)) => binary_from(
                        fields,
                        events,
                        resume(events, pos, next),
                        depth,
                        decoded,
                    ),
                }
            } else {
                binary_from(fields, events, pos + 1, depth + 1, rows)
            },
            TokenView::End => if depth == 0 {
                Ok((rows, pos + 1))
            } else {
                binary_from(fields, events, pos + 1, (depth - 1) as nat, rows)
            },
            _ => binary_from(fields, events, pos + 1, depth, rows),
        }
    }
}

/// Whether `name` is a serialization of rows that is not read here.
pub open spec fn unread_serialization(name: Seq<char>) -> bool {
    name == "TABLEDATA"@ || name == "FITS"@ || name == "BINARY2"@
}

/// Whether a `DATA` element has a use for an element called `name`, be it
/// only to refuse it.
pub open spec fn data_knows(name: Seq<char>) -> bool {
    unread_serialization(name) || name == "BINARY"@
}

/// The rows of a `DATA` element from `pos` on, after `rows`: those of its
/// last `BINARY`. The other serializations are refused by name.
pub open spec fn data_from(
    fields: Seq<FieldView>,
    events: EventsView,
    pos: int,
    depth: nat,
    rows: Seq<Seq<CellView>>,
) -> Result<(Seq<Seq<CellView>>, int), ErrorView>
    decreases events.tokens.len() - pos,
{
    if !within(events, pos) {
        at_end(events, rows, pos)
    } else {
        match events.tokens[pos] {
            TokenView::Start { name, attributes } => if unread_serialization(name) {
                Err(cannot_parse(name, "DATA"))
            } else if name == "BINARY"@ {
                match binary_from(fields, events, pos + 1, 0, Seq::empty()) {
                    Err(e) => Err(e),
                    Ok((decoded, next)) => data_from(
                        fields,
                        events,
                        resume(events, pos, next),
                        depth,
                        decoded,
                    ),
                }
            } else {
                data_from(fields, events, pos + 1, depth + 1, rows)
            },
            TokenView::End => if depth == 0 {
                Ok((rows, pos + 1))
            } else {
                data_from(fields, events, pos + 1, (depth - 1) as nat, rows)
            },
            _ => data_from(fields, events, pos + 1, depth, rows),
        }
    }
}

/// Whether a table has a use for an element called `name`.
pub open spec fn table_knows(name: Seq<char>) -> bool {
    name == "FIELD"@ || name == "DATA"@
}

/// The table `table` after the children of its `TABLE` element from `pos`
/// on: each `FIELD` adds a column, and a `DATA` gives the rows, decoded for
/// the columns declared before it.
pub open spec fn table_from(events: EventsView, pos: int, depth: nat, table: TableView) -> Result<
    (TableView, int),
    ErrorView,
>
    decreases events.tokens.len() - pos,
{
    if !within(events, pos) {
        at_end(events, table, pos)
    } else {
        match events.tokens[pos] {
            TokenView::Start { name, attributes } => if name == "FIELD"@ {
                match field_parsed(attributes, events, pos + 1) {
                    Err(e) => Err(e),
                    Ok((field, next)) => table_from(
                        events,
                        resume(events, pos, next),
                        depth,
                        TableView { fields: table.fields.push(field), ..table },
                    ),
                }
            } else if name == "DATA"@ {
                match data_from(table.fields, events, pos + 1, 0, Seq::empty()) {
                    Err(e) => Err(e),
                    Ok((rows, next)) => table_from(
                        events,
                        resume(events, pos, next),
                        depth,
                        TableView { data: Some(rows), ..table },
                    ),
                }
            } else {
                table_from(events, pos + 1, depth + 1, table)
            },
            TokenView::End => if depth == 0 {
                Ok((table, pos + 1))
            } else {
                table_from(events, pos + 1, (depth - 1) as nat, table)
            },
            _ => table_from(events, pos + 1, depth, table),
        }
    }
}

/// Whether a resource has a use for an element called `name`.
pub open spec fn resource_knows(name: Seq<char>) -> bool {
    name == "DESCRIPTION"@ || name == "INFO"@ || name == "TABLE"@ || name == "RESOURCE"@
}

/// The resource `resource` after the children of its `RESOURCE` element from
/// `pos` on: a `DESCRIPTION` gives its text, an `INFO` is counted, a `TABLE`
/// and a `RESOURCE` are added in their order.
pub open spec fn resource_from(events: EventsView, pos: int, depth: nat, resource: ResourceView)
    -> Result<(ResourceView, int), ErrorView>
    decreases events.tokens.len() - pos,
{
    if !within(events, pos) {
        at_end(events, resource, pos)
    } else {
        match events.tokens[pos] {
            TokenView::Start { name, attributes } => if name == "DESCRIPTION"@ {
                match description_from(events, pos + 1, 0, None) {
                    Err(e) => Err(e),
                    Ok((text, next)) => resource_from(
                        events,
                        resume(events, pos, next),
                        depth,
                        ResourceView { description: Some(text), ..resource },
                    ),
                }
            } else if name == "INFO"@ {
                match close_from(events, pos + 1, 0) {
                    Err(e) => Err(e),
                    Ok((_, next)) => resource_from(
                        events,
                        resume(events, pos, next),
                        depth,
                        ResourceView { infos: resource.infos + 1, ..resource },
                    ),
                }
            } else if name == "TABLE"@ {
                match table_from(events, pos + 1, 0, TableView::blank()) {
                    Err(e) => Err(e),
                    Ok((table, next)) => resource_from(
                        events,
                        resume(events, pos, next),
                        depth,
                        ResourceView { tables: resource.tables.push(table), ..resource },
                    ),
                }
            } else if name == "RESOURCE"@ {
                match resource_from(events, pos + 1, 0, ResourceView::blank()) {
                    Err(e) => Err(e),
                    Ok((child, next)) => resource_from(
                        events,
                        resume(events, pos, next),
                        depth,
                        ResourceView { children: resource.children.push(child), ..resource },
                    ),
                }
            } else {
                resource_from(events, pos + 1, depth + 1, resource)
            },
            TokenView::End => if depth == 0 {
                Ok((resource, pos + 1))
            } else {
                resource_from(events, pos + 1, (depth - 1) as nat, resource)
            },
            _ => resource_from(events, pos + 1, depth, resource),
        }
    }
}

/// The document `document` after the events from `pos` on. Wherever it
/// stands, the first `DESCRIPTION` gives the document's text and every
/// `RESOURCE` is added; the walk ends with the events.
pub open spec fn votable_from(events: EventsView, pos: int, document: VOTableView) -> Result<
    VOTableView,
    ErrorView,
>
    decreases events.tokens.len() - pos,
{
    if !within(events, pos) {
        match events.failure {
            Some(text) => Err(ErrorView::XmlReaderError(text)),
            None => Ok(document),
        }
    } else {
        match events.tokens[pos] {
            TokenView::Start { name, attributes } => if name == "DESCRIPTION"@
                && document.description.is_none() {
                match description_from(events, pos + 1, 0, None) {
                    Err(e) => Err(e),
                    Ok((text, next)) => votable_from(
                        events,
                        resume(events, pos, next),
                        VOTableView { description: Some(text), ..document },
                    ),
                }
            } else if name == "RESOURCE"@ {
                match resource_from(events, pos + 1, 0, ResourceView::blank()) {
                    Err(e) => Err(e),
                    Ok((resource, next)) => votable_from(
                        events,
                        resume(events, pos, next),
                        VOTableView {
                            resources: document.resources.push(resource),
                            ..document
                        },
                    ),
                }
            } else {
                votable_from(events, pos + 1, document)
            },
            _ => votable_from(events, pos + 1, document),
        }
    }
}

/// The document that the events hold.
pub open spec fn document_of(events: EventsView) -> Result<VOTableView, ErrorView> {
    votable_from(events, 0, VOTableView::blank())
}

/// Whether a step that began at `pos` left off at or behind `pos` and
/// within the events.
pub open spec fn advances<T>(events: EventsView, pos: int, r: Result<(T, int), ErrorView>) -> bool {
    match r {
        Ok((_, next)) => pos <= next <= events.tokens.len(),
        Err(_) => true,
    }
}

/// A `DESCRIPTION` element ends at or behind where it began.
pub proof fn lemma_description_advances(
    events: EventsView,
    pos: int,
    depth: nat,
    found: Option<Seq<char>>,
)
    requires
        0 <= pos <= events.tokens.len(),
    ensures
        advances(events, pos, description_from(events, pos, depth, found)),
    decreases events.tokens.len() - pos,
{
    if within(events, pos) {
        match events.tokens[pos] {
            TokenView::Characters(content) => lemma_description_advances(
                events,
                pos + 1,
                depth,
                Some(content),
            ),
            TokenView::Start { .. } => lemma_description_advances(
                events,
                pos + 1,
                depth + 1,
                found,
            ),
            TokenView::End => if depth > 0 {
                lemma_description_advances(events, pos + 1, (depth - 1) as nat, found)
            },
            _ => lemma_description_advances(events, pos + 1, depth, found),
        }
    }
}

/// A skipped element ends at or behind where it began.
pub proof fn lemma_close_advances(events: EventsView, pos: int, depth: nat)
    requires
        0 <= pos <= events.tokens.len(),
    ensures
        advances(events, pos, close_from(events, pos, depth)),
    decreases events.tokens.len() - pos,
{
    if within(events, pos) {
        match events.tokens[pos] {
            TokenView::Start { .. } => lemma_close_advances(events, pos + 1, depth + 1),
            TokenView::End => if depth > 0 {
                lemma_close_advances(events, pos + 1, (depth - 1) as nat)
            },
            _ => lemma_close_advances(events, pos + 1, depth),
        }
    }
}

/// A `FIELD` element ends at or behind where it began.
pub proof fn lemma_field_advances(events: EventsView, pos: int, depth: nat, field: FieldView)
    requires
        0 <= pos <= events.tokens.len(),
    ensures
        advances(events, pos, field_from(events, pos, depth, field)),
    decreases events.tokens.len() - pos,
{
    if within(events, pos) {
        match events.tokens[pos] {
            TokenView::Start { name, attributes } => if name == "DESCRIPTION"@ {
                lemma_description_advances(events, pos + 1, 0, None);
                match description_from(events, pos + 1, 0, None) {
                    Err(e) => {},
                    Ok((text, next)) => lemma_field_advances(
                        events,
                        next,
                        depth,
                        FieldView { description: Some(text), ..field },
                    ),
                }
            } else if name == "VALUES"@ {
                match field.datatype {
                    Some(datatype) => {
                        lemma_close_advances(events, pos + 1, 0);
                        match values_parsed(datatype, attributes, events, pos + 1) {
                            Err(e) => {},
                            Ok((values, next)) => lemma_field_advances(
                                events,
                                next,
                                depth,
                                FieldView { values: Some(values), ..field },
                            ),
                        }
                    },
                    None => {
                        lemma_close_advances(events, pos + 1, 0);
                        match close_from(events, pos + 1, 0) {
                            Err(e) => {},
                            Ok((_, next)) => lemma_field_advances(events, next, depth, field),
                        }
                    },
                }
            } else {
                lemma_field_advances(events, pos + 1, depth + 1, field)
            },
            TokenView::End => if depth > 0 {
                lemma_field_advances(events, pos + 1, (depth - 1) as nat, field)
            },
            _ => lemma_field_advances(events, pos + 1, depth, field),
        }
    }
}

/// The content of a `STREAM` element ends at or behind where it began.
pub proof fn lemma_stream_advances(
    events: EventsView,
    pos: int,
    depth: nat,
    input: Option<Seq<char>>,
)
    requires
        0 <= pos <= events.tokens.len(),
    ensures
        advances(events, pos, stream_from(events, pos, depth, input)),
    decreases events.tokens.len() - pos,
{
    if within(events, pos) {
        match events.tokens[pos] {
            TokenView::Characters(content) => lemma_stream_advances(
                events,
                pos + 1,
                depth,
                Some(content),
            ),
            TokenView::Start { .. } => lemma_stream_advances(events, pos + 1, depth + 1, input),
            TokenView::End => if depth > 0 {
                lemma_stream_advances(events, pos + 1, (depth - 1) as nat, input)
            },
            _ => lemma_stream_advances(events, pos + 1, depth, input),
        }
    }
}

/// A `BINARY` element ends at or behind where it began.
pub proof fn lemma_binary_advances(
    fields: Seq<FieldView>,
    events: EventsView,
    pos: int,
    depth: nat,
    rows: Seq<Seq<CellView>>,
)
    requires
        0 <= pos <= events.tokens.len(),
    ensures
        advances(events, pos, binary_from(fields, events, pos, depth, rows)),
    decreases events.tokens.len() - pos,
{
    if within(events, pos) {
        match events.tokens[pos] {
            TokenView::Start { name, attributes } => if name == "STREAM"@ {
                lemma_stream_advances(events, pos + 1, 0, None);
                match stream_parsed(fields, attributes, events, pos + 1) {
                    Err(e) => {},
                    Ok((decoded, next)) => lemma_binary_advances(
                        fields,
                        events,
                        next,
                        depth,
                        decoded,
                    ),
                }
            } else {
                lemma_binary_advances(fields, events, pos + 1, depth + 1, rows)
            },
            TokenView::End => if depth > 0 {
                lemma_binary_advances(fields, events, pos + 1, (depth - 1) as nat, rows)
            },
            _ => lemma_binary_advances(fields, events, pos + 1, depth, rows),
        }
    }
}

/// A `DATA` element ends at or behind where it began.
pub proof fn lemma_data_advances(
    fields: Seq<FieldView>,
    events: EventsView,
    pos: int,
    depth: nat,
    rows: Seq<Seq<CellView>>,
)
    requires
        0 <= pos <= events.tokens.len(),
    ensures
        advances(events, pos, data_from(fields, events, pos, depth, rows)),
    decreases events.tokens.len() - pos,
{
    if within(events, pos) {
        match events.tokens[pos] {
            TokenView::Start { name, attributes } => if name == "BINARY"@ {
                lemma_binary_advances(fields, events, pos + 1, 0, Seq::empty());
                match binary_from(fields, events, pos + 1, 0, Seq::empty()) {
                    Err(e) => {},
                    Ok((decoded, next)) => lemma_data_advances(
                        fields,
                        events,
                        next,
                        depth,
                        decoded,
                    ),
                }
            } else if !unread_serialization(name) {
                lemma_data_advances(fields, events, pos + 1, depth + 1, rows)
            },
            TokenView::End => if depth > 0 {
                lemma_data_advances(fields, events, pos + 1, (depth - 1) as nat, rows)
            },
            _ => lemma_data_advances(fields, events, pos + 1, depth, rows),
        }
    }
}

/// A `TABLE` element ends at or behind where it began.
pub proof fn lemma_table_advances(events: EventsView, pos: int, depth: nat, table: TableView)
    requires
        0 <= pos <= events.tokens.len(),
    ensures
        advances(events, pos, table_from(events, pos, depth, table)),
    decreases events.tokens.len() - pos,
{
    if within(events, pos) {
        match events.tokens[pos] {
            TokenView::Start { name, attributes } => if name == "FIELD"@ {
                match field_of(attributes, attributes.len() as int) {
                    Err(e) => {},
                    Ok(field) => lemma_field_advances(events, pos + 1, 0, field),
                }
                match field_parsed(attributes, events, pos + 1) {
                    Err(e) => {},
                    Ok((field, next)) => lemma_table_advances(
                        events,
                        next,
                        depth,
                        TableView { fields: table.fields.push(field), ..table },
                    ),
                }
            } else if name == "DATA"@ {
                lemma_data_advances(table.fields, events, pos + 1, 0, Seq::empty());
                match data_from(table.fields, events, pos + 1, 0, Seq::empty()) {
                    Err(e) => {},
                    Ok((rows, next)) => lemma_table_advances(
                        events,
                        next,
                        depth,
                        TableView { data: Some(rows), ..table },
                    ),
                }
            } else {
                lemma_table_advances(events, pos + 1, depth + 1, table)
            },
            TokenView::End => if depth > 0 {
                lemma_table_advances(events, pos + 1, (depth - 1) as nat, table)
            },
            _ => lemma_table_advances(events, pos + 1, depth, table),
        }
    }
}

/// A `RESOURCE` element ends at or behind where it began.
pub proof fn lemma_resource_advances(
    events: EventsView,
    pos: int,
    depth: nat,
    resource: ResourceView,
)
    requires
        0 <= pos <= events.tokens.len(),
    ensures
        advances(events, pos, resource_from(events, pos, depth, resource)),
    decreases events.tokens.len() - pos,
{
    if within(events, pos) {
        match events.tokens[pos] {
            TokenView::Start { name, attributes } => if name == "DESCRIPTION"@ {
                lemma_description_advances(events, pos + 1, 0, None);
                match description_from(events, pos + 1, 0, None) {
                    Err(e) => {},
                    Ok((text, next)) => lemma_resource_advances(
                        events,
                        next,
                        depth,
                        ResourceView { description: Some(text), ..resource },
                    ),
                }
            } else if name == "INFO"@ {
                lemma_close_advances(events, pos + 1, 0);
                match close_from(events, pos + 1, 0) {
                    Err(e) => {},
                    Ok((_, next)) => lemma_resource_advances(
                        events,
                        next,
                        depth,
                        ResourceView { infos: resource.infos + 1, ..resource },
                    ),
                }
            } else if name == "TABLE"@ {
                lemma_table_advances(events, pos + 1, 0, TableView::blank());
                match table_from(events, pos + 1, 0, TableView::blank()) {
                    Err(e) => {},
                    Ok((table, next)) => lemma_resource_advances(
                        events,
                        next,
                        depth,
                        ResourceView { tables: resource.tables.push(table), ..resource },
                    ),
                }
            } else if name == "RESOURCE"@ {
                lemma_resource_advances(events, pos + 1, 0, ResourceView::blank());
                match resource_from(events, pos + 1, 0, ResourceView::blank()) {
                    Err(e) => {},
                    Ok((child, next)) => lemma_resource_advances(
                        events,
                        next,
                        depth,
                        ResourceView { children: resource.children.push(child), ..resource },
                    ),
                }
            } else {
                lemma_resource_advances(events, pos + 1, depth + 1, resource)
            },
            TokenView::End => if depth > 0 {
                lemma_resource_advances(events, pos + 1, (depth - 1) as nat, resource)
            },
            _ => lemma_resource_advances(events, pos + 1, depth, resource),
        }
    }
}

} // verus!
