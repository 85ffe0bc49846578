//! Every element that the walk reads ends at its own end tag: behind it the
//! walk stands where it would stand had it read nothing of the element, so
//! that no element takes what follows it from the one that holds it.

use vstd::prelude::*;
use crate::data::CellView;
use crate::error::ErrorView;
use crate::schema::{field_of, FieldView};
use crate::token::{EventsView, TokenView};
use crate::tree::{ResourceView, TableView};
use crate::walk::{
    binary_from, close_from, data_from, description_from, field_from, field_parsed,
    lemma_binary_advances, lemma_close_advances, lemma_data_advances, lemma_description_advances,
    lemma_field_advances, lemma_resource_advances, lemma_stream_advances, lemma_table_advances,
    resource_from, stream_from, stream_parsed, table_from, unread_serialization, values_parsed,
    within,
};

verus! {

/// Whether a step of the walk that began at `pos` inside an element at
/// `depth` left off behind the end tag of that element.
pub open spec fn ends_at_end_tag<T>(
    events: EventsView,
    pos: int,
    depth: nat,
    r: Result<(T, int), ErrorView>,
) -> bool {
    match r {
        Ok((_, next)) => closes_at(events, pos, depth, next),
        Err(_) => true,
    }
}

/// Whether the element in which `pos` lies at `depth` closes, and `end` is
/// the place behind its end tag.
pub open spec fn closes_at(events: EventsView, pos: int, depth: nat, end: int) -> bool {
    close_from(events, pos, depth) matches Ok((_, next)) && next == end
}

/// Behind an element that closes at `end`, the element that holds it is as
/// deep as it was before.
pub proof fn lemma_close_deeper(events: EventsView, pos: int, depth: nat, more: nat)
    requires
        0 <= pos <= events.tokens.len(),
        close_from(events, pos, depth) is Ok,
    ensures
        close_from(events, pos, depth + more + 1) == close_from(
            events,
            close_from(events, pos, depth)->Ok_0.1,
            more,
        ),
    decreases events.tokens.len() - pos,
{
    if within(events, pos) {
        match events.tokens[pos] {
            TokenView::Start { .. } => lemma_close_deeper(events, pos + 1, depth + 1, more),
            TokenView::End => if depth > 0 {
                lemma_close_deeper(events, pos + 1, (depth - 1) as nat, more)
            },
            _ => lemma_close_deeper(events, pos + 1, depth, more),
        }
    }
}

/// A child that closes at `end` leaves the element that holds it where it
/// would be had the child been skipped.
pub proof fn lemma_behind_child(events: EventsView, pos: int, depth: nat, end: int)
    requires
        within(events, pos),
        events.tokens[pos] is Start,
        closes_at(events, pos + 1, 0, end),
    ensures
        close_from(events, pos, depth) == close_from(events, end, depth),
{
    lemma_close_deeper(events, pos + 1, 0, depth);
}

/// A `DESCRIPTION` ends at its own end tag, whatever elements it holds.
pub proof fn lemma_description_closes(
    events: EventsView,
    pos: int,
    depth: nat,
    found: Option<Seq<char>>,
)
    requires
        0 <= pos <= events.tokens.len(),
    ensures
        ends_at_end_tag(events, pos, depth, description_from(events, pos, depth, found)),
    decreases events.tokens.len() - pos,
{
    if within(events, pos) {
        match events.tokens[pos] {
            TokenView::Characters(content) => lemma_description_closes(
                events,
                pos + 1,
                depth,
                Some(content),
            ),
            TokenView::Start { .. } => lemma_description_closes(events, pos + 1, depth + 1, found),
            TokenView::End => if depth > 0 {
                lemma_description_closes(events, pos + 1, (depth - 1) as nat, found)
            },
            _ => lemma_description_closes(events, pos + 1, depth, found),
        }
    }
}

/// A column ends at the end tag of its `FIELD` element, whether or not it
/// has a datatype for the `VALUES` that it holds.
pub proof fn lemma_field_closes(events: EventsView, pos: int, depth: nat, field: FieldView)
    requires
        0 <= pos <= events.tokens.len(),
    ensures
        ends_at_end_tag(events, pos, depth, field_from(events, pos, depth, field)),
    decreases events.tokens.len() - pos,
{
    if within(events, pos) {
        match events.tokens[pos] {
            TokenView::Start { name, attributes } => if name == "DESCRIPTION"@ {
                lemma_description_advances(events, pos + 1, 0, None);
                lemma_description_closes(events, pos + 1, 0, None);
                match description_from(events, pos + 1, 0, None) {
                    Err(e) => {},
                    Ok((text, next)) => {
                        lemma_behind_child(events, pos, depth, next);
                        lemma_field_closes(
                            events,
                            next,
                            depth,
                            FieldView { description: Some(text), ..field },
                        );
                    },
                }
            } else if name == "VALUES"@ {
                lemma_close_advances(events, pos + 1, 0);
                match close_from(events, pos + 1, 0) {
                    Err(e) => {},
                    Ok((_, next)) => {
                        lemma_behind_child(events, pos, depth, next);
                        match field.datatype {
                            Some(datatype) => match values_parsed(
                                datatype,
                                attributes,
                                events,
                                pos + 1,
                            ) {
                                Err(e) => {},
                                Ok((values, _)) => lemma_field_closes(
                                    events,
                                    next,
                                    depth,
                                    FieldView { values: Some(values), ..field },
                                ),
                            },
                            None => lemma_field_closes(events, next, depth, field),
                        }
                    },
                }
            } else {
                lemma_field_closes(events, pos + 1, depth + 1, field)
            },
            TokenView::End => if depth > 0 {
                lemma_field_closes(events, pos + 1, (depth - 1) as nat, field)
            },
            _ => lemma_field_closes(events, pos + 1, depth, field),
        }
    }
}

/// The content of a `STREAM` element ends at the element's end tag.
pub proof fn lemma_stream_closes(
    events: EventsView,
    pos: int,
    depth: nat,
    input: Option<Seq<char>>,
)
    requires
        0 <= pos <= events.tokens.len(),
    ensures
        ends_at_end_tag(events, pos, depth, stream_from(events, pos, depth, input)),
    decreases events.tokens.len() - pos,
{
    if within(events, pos) {
        match events.tokens[pos] {
            TokenView::Characters(content) => lemma_stream_closes(
                events,
                pos + 1,
                depth,
                Some(content),
            ),
            TokenView::Start { .. } => lemma_stream_closes(events, pos + 1, depth + 1, input),
            TokenView::End => if depth > 0 {
                lemma_stream_closes(events, pos + 1, (depth - 1) as nat, input)
            },
            _ => lemma_stream_closes(events, pos + 1, depth, input),
        }
    }
}

/// A `BINARY` element ends at its own end tag.
pub proof fn lemma_binary_closes(
    fields: Seq<FieldView>,
    events: EventsView,
    pos: int,
    depth: nat,
    rows: Seq<Seq<CellView>>,
)
    requires
        0 <= pos <= events.tokens.len(),
    ensures
        ends_at_end_tag(events, pos, depth, binary_from(fields, events, pos, depth, rows)),
    decreases events.tokens.len() - pos,
{
    if within(events, pos) {
        match events.tokens[pos] {
            TokenView::Start { name, attributes } => if name == "STREAM"@ {
                lemma_stream_advances(events, pos + 1, 0, None);
                lemma_stream_closes(events, pos + 1, 0, None);
                match stream_parsed(fields, attributes, events, pos + 1) {
                    Err(e) => {},
                    Ok((decoded, next)) => {
                        lemma_behind_child(events, pos, depth, next);
                        lemma_binary_closes(fields, events, next, depth, decoded);
                    },
                }
            } else {
                lemma_binary_closes(fields, events, pos + 1, depth + 1, rows)
            },
            TokenView::End => if depth > 0 {
                lemma_binary_closes(fields, events, pos + 1, (depth - 1) as nat, rows)
            },
            _ => lemma_binary_closes(fields, events, pos + 1, depth, rows),
        }
    }
}

/// A `DATA` element ends at its own end tag.
pub proof fn lemma_data_closes(
    fields: Seq<FieldView>,
    events: EventsView,
    pos: int,
    depth: nat,
    rows: Seq<Seq<CellView>>,
)
    requires
        0 <= pos <= events.tokens.len(),
    ensures
        ends_at_end_tag(events, pos, depth, data_from(fields, events, pos, depth, rows)),
    decreases events.tokens.len() - pos,
{
    if within(events, pos) {
        match events.tokens[pos] {
            TokenView::Start { name, attributes } => if name == "BINARY"@ {
                lemma_binary_advances(fields, events, pos + 1, 0, Seq::empty());
                lemma_binary_closes(fields, events, pos + 1, 0, Seq::empty());
                match binary_from(fields, events, pos + 1, 0, Seq::empty()) {
                    Err(e) => {},
                    Ok((decoded, next)) => {
                        lemma_behind_child(events, pos, depth, next);
                        lemma_data_closes(fields, events, next, depth, decoded);
                    },
                }
            } else if !unread_serialization(name) {
                lemma_data_closes(fields, events, pos + 1, depth + 1, rows)
            },
            TokenView::End => if depth > 0 {
                lemma_data_closes(fields, events, pos + 1, (depth - 1) as nat, rows)
            },
            _ => lemma_data_closes(fields, events, pos + 1, depth, rows),
        }
    }
}

/// A table ends at the end tag of its `TABLE` element, whatever columns and
/// data it holds.
pub proof fn lemma_table_closes(events: EventsView, pos: int, depth: nat, table: TableView)
    requires
        0 <= pos <= events.tokens.len(),
    ensures
        ends_at_end_tag(events, pos, depth, table_from(events, pos, depth, table)),
    decreases events.tokens.len() - pos,
{
    if within(events, pos) {
        match events.tokens[pos] {
            TokenView::Start { name, attributes } => if name == "FIELD"@ {
                match field_of(attributes, attributes.len() as int) {
                    Err(e) => {},
                    Ok(field) => {
                        lemma_field_advances(events, pos + 1, 0, field);
                        lemma_field_closes(events, pos + 1, 0, field);
                    },
                }
                match field_parsed(attributes, events, pos + 1) {
                    Err(e) => {},
                    Ok((field, next)) => {
                        lemma_behind_child(events, pos, depth, next);
                        lemma_table_closes(
                            events,
                            next,
                            depth,
                            TableView { fields: table.fields.push(field), ..table },
                        );
                    },
                }
            } else if name == "DATA"@ {
                lemma_data_advances(table.fields, events, pos + 1, 0, Seq::empty());
                lemma_data_closes(table.fields, events, pos + 1, 0, Seq::empty());
                match data_from(table.fields, events, pos + 1, 0, Seq::empty()) {
                    Err(e) => {},
                    Ok((rows, next)) => {
                        lemma_behind_child(events, pos, depth, next);
                        lemma_table_closes(
                            events,
                            next,
                            depth,
                            TableView { data: Some(rows), ..table },
                        );
                    },
                }
            } else {
                lemma_table_closes(events, pos + 1, depth + 1, table)
            },
            TokenView::End => if depth > 0 {
                lemma_table_closes(events, pos + 1, (depth - 1) as nat, table)
            },
            _ => lemma_table_closes(events, pos + 1, depth, table),
        }
    }
}

/// A resource ends at the end tag of its `RESOURCE` element, whatever it
/// holds.
pub proof fn lemma_resource_closes(
    events: EventsView,
    pos: int,
    depth: nat,
    resource: ResourceView,
)
    requires
        0 <= pos <= events.tokens.len(),
    ensures
        ends_at_end_tag(events, pos, depth, resource_from(events, pos, depth, resource)),
    decreases events.tokens.len() - pos,
{
    if within(events, pos) {
        match events.tokens[pos] {
            TokenView::Start { name, attributes } => if name == "DESCRIPTION"@ {
                lemma_description_advances(events, pos + 1, 0, None);
                lemma_description_closes(events, pos + 1, 0, None);
                match description_from(events, pos + 1, 0, None) {
                    Err(e) => {},
                    Ok((text, next)) => {
                        lemma_behind_child(events, pos, depth, next);
                        lemma_resource_closes(
                            events,
                            next,
                            depth,
                            ResourceView { description: Some(text), ..resource },
                        );
                    },
                }
            } else if name == "INFO"@ {
                lemma_close_advances(events, pos + 1, 0);
                match close_from(events, pos + 1, 0) {
                    Err(e) => {},
                    Ok((_, next)) => {
                        lemma_behind_child(events, pos, depth, next);
                        lemma_resource_closes(
                            events,
                            next,
                            depth,
                            ResourceView { infos: resource.infos + 1, ..resource },
                        );
                    },
                }
            } else if name == "TABLE"@ {
                lemma_table_advances(events, pos + 1, 0, TableView::blank());
                lemma_table_closes(events, pos + 1, 0, TableView::blank());
                match table_from(events, pos + 1, 0, TableView::blank()) {
                    Err(e) => {},
                    Ok((table, next)) => {
                        lemma_behind_child(events, pos, depth, next);
                        lemma_resource_closes(
                            events,
                            next,
                            depth,
                            ResourceView { tables: resource.tables.push(table), ..resource },
                        );
                    },
                }
            } else if name == "RESOURCE"@ {
                lemma_resource_advances(events, pos + 1, 0, ResourceView::blank());
                lemma_resource_closes(events, pos + 1, 0, ResourceView::blank());
                match resource_from(events, pos + 1, 0, ResourceView::blank()) {
                    Err(e) => {},
                    Ok((child, next)) => {
                        lemma_behind_child(events, pos, depth, next);
                        lemma_resource_closes(
                            events,
                            next,
                            depth,
                            ResourceView { children: resource.children.push(child), ..resource },
                        );
                    },
                }
            } else {
                lemma_resource_closes(events, pos + 1, depth + 1, resource)
            },
            TokenView::End => if depth > 0 {
                lemma_resource_closes(events, pos + 1, (depth - 1) as nat, resource)
            },
            _ => lemma_resource_closes(events, pos + 1, depth, resource),
        }
    }
}

/// A table keeps the columns that it had and adds to them in the order of
/// the document: what was read before stays first, as it was.
pub proof fn lemma_table_keeps_fields(events: EventsView, pos: int, depth: nat, table: TableView)
    requires
        0 <= pos <= events.tokens.len(),
    ensures
        table_from(events, pos, depth, table) matches Ok((whole, _)) ==> {
            &&& table.fields.len() <= whole.fields.len()
            &&& whole.fields.take(table.fields.len() as int) == table.fields
        },
    decreases events.tokens.len() - pos,
{
    assert(table.fields.take(table.fields.len() as int) =~= table.fields);
    if within(events, pos) {
        match events.tokens[pos] {
            TokenView::Start { name, attributes } => if name == "FIELD"@ {
                match field_of(attributes, attributes.len() as int) {
                    Err(e) => {},
                    Ok(field) => lemma_field_advances(events, pos + 1, 0, field),
                }
                match field_parsed(attributes, events, pos + 1) {
                    Err(e) => {},
                    Ok((field, next)) => {
                        let longer = TableView { fields: table.fields.push(field), ..table };
                        lemma_table_keeps_fields(events, next, depth, longer);
                        match table_from(events, next, depth, longer) {
                            Ok((whole, _)) => {
                                assert(whole.fields.take(table.fields.len() as int)
                                    =~= whole.fields.take(longer.fields.len() as int).take(
                                    table.fields.len() as int,
                                ));
                                assert(longer.fields.take(table.fields.len() as int)
                                    =~= table.fields);
                            },
                            Err(_) => {},
                        }
                    },
                }
            } else if name == "DATA"@ {
                lemma_data_advances(table.fields, events, pos + 1, 0, Seq::empty());
                match data_from(table.fields, events, pos + 1, 0, Seq::empty()) {
                    Err(e) => {},
                    Ok((rows, next)) => lemma_table_keeps_fields(
                        events,
                        next,
                        depth,
                        TableView { data: Some(rows), ..table },
                    ),
                }
            } else {
                lemma_table_keeps_fields(events, pos + 1, depth + 1, table)
            },
            TokenView::End => if depth > 0 {
                lemma_table_keeps_fields(events, pos + 1, (depth - 1) as nat, table)
            },
            _ => lemma_table_keeps_fields(events, pos + 1, depth, table),
        }
    }
}

} // verus!
