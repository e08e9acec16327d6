//! The request body of an operation.

use crate::components::schemas::{parse_type_chars, spec_parse_type, TypeModel};
use crate::paths::parameters::ParameterRow;
use crate::paths::response::MediaContent;
use crate::text::{is_text, to_chars, views};
use vstd::prelude::*;

verus! {

/// The body of a request: its description, whether it must be sent, and its
/// content.
#[derive(Debug, PartialEq, Eq)]
pub struct RequestBody {
    pub description: Option<String>,
    pub required: bool,
    pub content: MediaContent,
}

/// The mathematical value of a request body.
pub struct RequestBodyModel {
    pub description: Option<Seq<char>>,
    pub required: bool,
    pub media_type: Seq<char>,
    pub schema: TypeModel,
}

impl View for RequestBody {
    type V = RequestBodyModel;

    open spec fn view(&self) -> RequestBodyModel {
        RequestBodyModel {
            description: match self.description {
                Some(d) => Some(d@),
                None => None,
            },
            required: self.required,
            media_type: self.content.media_type@,
            schema: self.content.schema@,
        }
    }
}

/// The position of the first row whose place is `Body`, from `from` on; the
/// number of rows where there is none.
pub open spec fn body_row(rows: Seq<ParameterRow>, from: int) -> int
    decreases rows.len() - from,
{
    if from >= rows.len() {
        rows.len() as int
    } else if from >= 0 && rows[from].location@ == "Body"@ {
        from
    } else {
        body_row(rows, from + 1)
    }
}

/// The media type of a request body: plain text where the operation
/// consumes it, and JSON otherwise.
pub open spec fn body_media_type(consumes: Seq<Seq<char>>) -> Seq<char> {
    if consumes.contains("text/plain"@) {
        "text/plain"@
    } else {
        "application/json"@
    }
}

/// The request body that the rows of a parameter table declare for an
/// operation that consumes the given media types: none where no row has the
/// place `Body`; else that of the first such row, with its description, its
/// obligation and the type of its schema cell.
pub open spec fn request_body_of(rows: Seq<ParameterRow>, consumes: Seq<Seq<char>>) -> Option<
    RequestBodyModel,
> {
    let k = body_row(rows, 0);
    if k < rows.len() {
        Some(
            RequestBodyModel {
                description: match rows[k].description {
                    Some(d) => Some(d@),
                    None => None,
                },
                required: rows[k].required,
                media_type: body_media_type(consumes),
                schema: spec_parse_type(rows[k].raw_schema@),
            },
        )
    } else {
        None
    }
}

/// The model of an optional request body.
pub open spec fn body_model(r: Option<RequestBody>) -> Option<RequestBodyModel> {
    match r {
        Some(b) => Some(b@),
        None => None,
    }
}

/// Whether the operation consumes plain text.
fn consumes_text(consumes: &Vec<String>) -> (b: bool)
    ensures
        b == views(consumes@).contains("text/plain"@),
{
    let mut i: usize = 0;
    while i < consumes.len()
        invariant
            i <= consumes.len(),
            forall|k: int| 0 <= k < i ==> views(consumes@)[k] != "text/plain"@,
        decreases consumes.len() - i,
    {
        assert(views(consumes@)[i as int] == consumes@[i as int]@);
        let chars = to_chars(consumes[i].as_str());
        if is_text(chars.as_slice(), "text/plain") {
            return true;
        }
        i += 1;
    }
    false
}

/// The request body of an operation, from the rows of its parameter table
/// and the media types that it consumes.
pub fn parse(rows: &Vec<ParameterRow>, consumes: &Vec<String>) -> (r: Option<RequestBody>)
    ensures
        body_model(r) == request_body_of(rows@, views(consumes@)),
{
    let mut k: usize = 0;
    while k < rows.len()
        invariant
            k <= rows.len(),
            body_row(rows@, 0) == body_row(rows@, k as int),
        decreases rows.len() - k,
    {
        let location = to_chars(rows[k].location.as_str());
        if is_text(location.as_slice(), "Body") {
            let row = &rows[k];
            let media_type = if consumes_text(consumes) {
                "text/plain".to_owned()
            } else {
                "application/json".to_owned()
            };
            let schema_chars = to_chars(row.raw_schema.as_str());
            let description = match &row.description {
                Some(d) => Some(d.clone()),
                None => None,
            };
            return Some(
                RequestBody {
                    description,
                    required: row.required,
                    content: MediaContent {
                        media_type,
                        schema: parse_type_chars(schema_chars.as_slice()),
                    },
                },
            );
        }
        k += 1;
    }
    None
}

} // verus!
