//! The errors that reading a VOTable document can end in.

use vstd::prelude::*;

verus! {

/// Why a document could not be read.
#[derive(Debug, Clone)]
pub enum Error {
    /// The XML tokenizer rejected the input; the text is its own message.
    XmlReaderError(String),
    /// An element that must hold character content held none.
    ContentNotFound { tag: &'static str },
    /// An attribute that holds a plain number did not parse as one.
    CannotParseIntAttribute { got: String, attribute: &'static str },
    /// A value did not follow the grammar of what it was read for.
    CannotParse { got: String, target: &'static str },
}

/// The mathematical content of an [`Error`].
pub enum ErrorView {
    XmlReaderError(Seq<char>),
    ContentNotFound { tag: Seq<char> },
    CannotParseIntAttribute { got: Seq<char>, attribute: Seq<char> },
    CannotParse { got: Seq<char>, target: Seq<char> },
}

impl View for Error {
    type V = ErrorView;

    open spec fn view(&self) -> ErrorView {
        match self {
            Error::XmlReaderError(text) => ErrorView::XmlReaderError(text@),
            Error::ContentNotFound { tag } => ErrorView::ContentNotFound { tag: tag@ },
            Error::CannotParseIntAttribute { got, attribute } => ErrorView::CannotParseIntAttribute {
                got: got@,
                attribute: attribute@,
            },
            Error::CannotParse { got, target } => ErrorView::CannotParse {
                got: got@,
                target: target@,
            },
        }
    }
}

/// What a fallible step yielded, with the value and the error by their content.
pub open spec fn outcome<T: DeepView>(r: Result<T, Error>) -> Result<T::V, ErrorView> {
    match r {
        Ok(value) => Ok(value.deep_view()),
        Err(e) => Err(e@),
    }
}

/// The error of a value `got` that does not follow the grammar of `target`.
pub open spec fn cannot_parse(got: Seq<char>, target: &str) -> ErrorView {
    ErrorView::CannotParse { got, target: target@ }
}

/// Builds the error of a value that does not follow the grammar of `target`.
pub fn grammar_error(got: &str, target: &'static str) -> (e: Error)
    ensures
        e@ == cannot_parse(got@, target),
{
    Error::CannotParse { got: got.to_owned(), target }
}

} // verus!
