//! The events of an XML document, as the document walk reads them.

use vstd::prelude::*;

verus! {

/// One attribute of an element: its local name and its value.
#[derive(Debug, Clone)]
pub struct Attribute {
    pub name: String,
    pub value: String,
}

/// The mathematical content of an [`Attribute`].
pub struct AttributeView {
    pub name: Seq<char>,
    pub value: Seq<char>,
}

impl DeepView for Attribute {
    type V = AttributeView;

    open spec fn deep_view(&self) -> AttributeView {
        AttributeView { name: self.name@, value: self.value@ }
    }
}

/// One event of the XML stream. The walk tells elements apart by their local
/// name alone and reads nothing of an end tag but that it is one.
#[derive(Debug, Clone)]
pub enum Token {
    /// The start tag of an element.
    Start { name: String, attributes: Vec<Attribute> },
    /// The end tag of an element.
    End,
    /// Character content, CDATA sections included.
    Characters(String),
    /// Anything else: the document's start and end, processing instructions,
    /// comments and runs of whitespace.
    Other,
}

/// The mathematical content of a [`Token`].
pub enum TokenView {
    Start { name: Seq<char>, attributes: Seq<AttributeView> },
    End,
    Characters(Seq<char>),
    Other,
}

impl DeepView for Token {
    type V = TokenView;

    open spec fn deep_view(&self) -> TokenView {
        match self {
            Token::Start { name, attributes } => TokenView::Start {
                name: name@,
                attributes: attributes.deep_view(),
            },
            Token::End => TokenView::End,
            Token::Characters(text) => TokenView::Characters(text@),
            Token::Other => TokenView::Other,
        }
    }
}

/// The events of a document, as far as the tokenizer got: all of them for a
/// well-formed document, and else those before its objection, with what it
/// objected.
#[derive(Debug, Clone)]
pub struct Events {
    pub tokens: Vec<Token>,
    pub failure: Option<String>,
}

/// The mathematical content of [`Events`].
pub struct EventsView {
    pub tokens: Seq<TokenView>,
    pub failure: Option<Seq<char>>,
}

impl DeepView for Events {
    type V = EventsView;

    open spec fn deep_view(&self) -> EventsView {
        EventsView { tokens: self.tokens.deep_view(), failure: self.failure.deep_view() }
    }
}

/// The events that the tokenizer makes of the bytes of a document.
pub uninterp spec fn xml_events(input: Seq<u8>) -> EventsView;

/// The events of `input`, from `xml::reader::EventReader` with CDATA sections
/// turned to character content and every other setting at its default. The
/// reader's events are taken in its order until it ends or objects; its
/// message is kept as text. The result is named, not spelled out.
#[verifier::external_body]
pub(crate) fn read_events(input: &[u8]) -> (events: Events)
    ensures
        events.deep_view() == xml_events(input@),
{
    let config = xml::ParserConfig::new().cdata_to_characters(true);
    let mut tokens = Vec::new();
    for event in config.create_reader(input) {
        tokens.push(match event {
            Err(e) => return Events { tokens, failure: Some(e.to_string()) },
            Ok(xml::reader::XmlEvent::StartElement { name, attributes, .. }) => Token::Start {
                name: name.local_name,
                attributes: attributes.into_iter().map(|a| Attribute { name: a.name.local_name, value: a.value }).collect(),
            },
            Ok(xml::reader::XmlEvent::EndElement { .. }) => Token::End,
            Ok(xml::reader::XmlEvent::Characters(text)) => Token::Characters(text),
            Ok(_) => Token::Other,
        });
    }
    Events { tokens, failure: None }
}

} // verus!
