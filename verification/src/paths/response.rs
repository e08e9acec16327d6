//! The response of an operation.

use crate::components::schemas::{parse_type_chars, spec_parse_type, TypeModel, TypeNode};
use crate::text::{is_text, to_chars};
use vstd::prelude::*;

verus! {

/// What travels in a body: its media type and the type of its content.
#[derive(Debug, PartialEq, Eq)]
pub struct MediaContent {
    pub media_type: String,
    pub schema: TypeNode,
}

/// The response of an operation: its description and, where it has a body,
/// its content.
#[derive(Debug, PartialEq, Eq)]
pub struct Response {
    pub description: String,
    pub content: Option<MediaContent>,
}

/// The mathematical value of a content: the media type and the type.
pub open spec fn content_model(c: Option<MediaContent>) -> Option<(Seq<char>, TypeModel)> {
    match c {
        Some(m) => Some((m.media_type@, m.schema@)),
        None => None,
    }
}

/// The type expression that stands for no content.
pub open spec fn no_content() -> Seq<char> {
    "<<>>"@
}

/// The content of a response: none where the operation produces no media
/// type or its schema cell stands for no content; else what it produces,
/// with the type of the schema cell.
pub open spec fn response_content(raw_schema: Seq<char>, produces: Option<Seq<char>>) -> Option<
    (Seq<char>, TypeModel),
> {
    match produces {
        Some(media_type) => if raw_schema == no_content() {
            None
        } else {
            Some((media_type, spec_parse_type(raw_schema)))
        },
        None => None,
    }
}

/// The response of an operation, from the description and the schema cell of
/// its first response row and the first media type that it produces.
pub fn parse(description: &str, raw_schema: &str, produces: Option<&str>) -> (r: Response)
    ensures
        r.description@ == description@,
        content_model(r.content) == response_content(
            raw_schema@,
            match produces {
                Some(p) => Some(p@),
                None => None,
            },
        ),
{
    let schema_chars = to_chars(raw_schema);
    let content = match produces {
        Some(media_type) => if is_text(schema_chars.as_slice(), "<<>>") {
            None
        } else {
            Some(
                MediaContent {
                    media_type: media_type.to_owned(),
                    schema: parse_type_chars(schema_chars.as_slice()),
                },
            )
        },
        None => None,
    };
    Response { description: description.to_owned(), content }
}

} // verus!
