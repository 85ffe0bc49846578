//! The payload of a `STREAM` element: base64 text, in which whitespace may
//! stand anywhere, that holds the rows of a table.

use vstd::prelude::*;
use crate::data::{rows_of, CellView, Data};
use crate::error::{cannot_parse, outcome, Error, ErrorView};
use crate::schema::{Field, FieldView};
use crate::text::same_text;

verus! {

/// Whether `c` is whitespace, as Unicode lists it under `White_Space`.
pub open spec fn is_whitespace(c: char) -> bool {
    let code = c as u32;
    (0x09 <= code <= 0x0d) || code == 0x20 || code == 0x85 || code == 0xa0 || code == 0x1680 || (
    0x2000 <= code <= 0x200a) || code == 0x2028 || code == 0x2029 || code == 0x202f || code
        == 0x205f || code == 0x3000
}

/// Whether `c` is whitespace.
pub fn whitespace(c: char) -> (r: bool)
    ensures
        r == is_whitespace(c),
{
    let code = c as u32;
    (0x09 <= code && code <= 0x0d) || code == 0x20 || code == 0x85 || code == 0xa0 || code
        == 0x1680 || (0x2000 <= code && code <= 0x200a) || code == 0x2028 || code == 0x2029
        || code == 0x202f || code == 0x205f || code == 0x3000
}

/// The text `s` without its whitespace.
pub open spec fn without_whitespace(s: Seq<char>) -> Seq<char>
    decreases s.len(),
{
    if s.len() == 0 {
        s
    } else if is_whitespace(s.last()) {
        without_whitespace(s.drop_last())
    } else {
        without_whitespace(s.drop_last()).push(s.last())
    }
}

/// `String::push`: the string with `c` appended.
pub assume_specification[ String::push ](s: &mut String, c: char)
    ensures
        final(s)@ == old(s)@.push(c),
;

/// Copies `text` without its whitespace.
pub fn strip_whitespace(text: &str) -> (r: String)
    ensures
        r@ == without_whitespace(text@),
{
    let mut kept = String::new();
    for c in it: text.chars()
        invariant
            it.seq() == text@,
            kept@ == without_whitespace(text@.take(it.index() as int)),
    {
        proof {
            let i = it.index() as int;
            assert(text@.take(i + 1).drop_last() =~= text@.take(i));
        }
        if !whitespace(c) {
            kept.push(c);
        }
    }
    proof {
        assert(text@.take(text@.len() as int) =~= text@);
    }
    kept
}

/// What base64 text decodes to: the bytes, or the decoder's words on why the
/// text is not base64.
pub uninterp spec fn base64_decoded(text: Seq<char>) -> Result<Seq<u8>, Seq<char>>;

/// `base64::decode`: the bytes that `text` encodes in the standard alphabet
/// with padding, or the crate's message for text that is not base64. The
/// result is named, not spelled out.
#[verifier::external_body]
fn decode_base64(text: &str) -> (r: Result<Vec<u8>, String>)
    ensures
        match r {
            Ok(bytes) => base64_decoded(text@) == Ok::<Seq<u8>, Seq<char>>(bytes@),
            Err(message) => base64_decoded(text@) == Err::<Seq<u8>, Seq<char>>(message@),
        },
{
    match base64::decode(text) {
        Ok(bytes) => Ok(bytes),
        Err(e) => Err(e.to_string()),
    }
}

/// The rows that decoded bytes hold, or the error of text that did not
/// decode.
pub open spec fn unpacked_outcome(fields: Seq<FieldView>, unpacked: Result<Seq<u8>, Seq<char>>)
    -> Result<Seq<Seq<CellView>>, ErrorView> {
    match unpacked {
        Ok(bytes) => rows_of(fields, bytes),
        Err(message) => Err(cannot_parse(message, "BINARY > STREAM")),
    }
}

/// The rows of a stream whose `encoding` attribute and character content are
/// given. Only `base64` is an encoding; a stream without content fails, and
/// so does content that is not base64 once its whitespace is taken out.
pub open spec fn payload_outcome(
    fields: Seq<FieldView>,
    encoding: Seq<char>,
    input: Option<Seq<char>>,
) -> Result<Seq<Seq<CellView>>, ErrorView> {
    if encoding == "base64"@ {
        match input {
            Some(text) => unpacked_outcome(fields, base64_decoded(without_whitespace(text))),
            None => Err(cannot_parse("No input defined in STREAM!"@, "BINARY > STREAM")),
        }
    } else {
        Err(cannot_parse("Cannot parse encoding "@ + encoding, "BINARY > STREAM"))
    }
}

/// Decodes the rows from what the base64 decoder returned.
pub fn decode_unpacked(fields: &Vec<Field>, unpacked: Result<Vec<u8>, String>) -> (r: Result<
    Data,
    Error,
>)
    ensures
        outcome(r) == unpacked_outcome(
            fields.deep_view(),
            match unpacked {
                Ok(bytes) => Ok(bytes@),
                Err(message) => Err(message@),
            },
        ),
{
    match unpacked {
        Ok(bytes) => Data::decode(fields, bytes.as_slice()),
        Err(message) => Err(Error::CannotParse { got: message, target: "BINARY > STREAM" }),
    }
}

/// Decodes the rows of a stream from its `encoding` attribute and its
/// character content.
pub fn decode_payload(fields: &Vec<Field>, encoding: &str, input: Option<&str>) -> (r: Result<
    Data,
    Error,
>)
    ensures
        outcome(r) == payload_outcome(
            fields.deep_view(),
            encoding@,
            match input {
                Some(text) => Some(text@),
                None => None,
            },
        ),
{
    if same_text(encoding, "base64") {
        match input {
            Some(text) => {
                let stripped = strip_whitespace(text);
                decode_unpacked(fields, decode_base64(stripped.as_str()))
            },
            None => Err(
                Error::CannotParse {
                    got: "No input defined in STREAM!".to_owned(),
                    target: "BINARY > STREAM",
                },
            ),
        }
    } else {
        let mut got = "Cannot parse encoding ".to_owned();
        got.append(encoding);
        Err(Error::CannotParse { got, target: "BINARY > STREAM" })
    }
}

} // verus!
