//! The errors with which a transformation ends.

use crate::text::{from_chars, join, join_chars, split, split_on, to_chars, trim, trimmed};
use vstd::prelude::*;
use vstd::string::StringExecFns;

verus! {

/// Why a document could not be transformed.
#[derive(Debug, PartialEq, Eq)]
pub enum TransformError {
    /// Nothing in the document matches the selector.
    NoFindErr(String),
    /// The verb of an operation is none of the supported HTTP methods.
    UnsupportedVerb(String),
    /// A row of the path parameters of `verb` `path` names a parameter for
    /// which the path has no placeholder.
    UnmatchedPathParameter { verb: String, path: String, name: String },
}

/// The text that describes an error to a reader.
pub open spec fn error_message(e: TransformError) -> Seq<char> {
    match e {
        TransformError::NoFindErr(selector) => "Could not find element by "@ + selector@,
        TransformError::UnsupportedVerb(verb) => "Unexpected HTTP verb: "@ + verb@,
        TransformError::UnmatchedPathParameter { verb, path, name } => "No placeholder for path parameter "@
            + name@ + " of "@ + verb@ + " "@ + path@,
    }
}

impl TransformError {
    /// The text that describes the error to a reader.
    pub fn message(&self) -> (r: String)
        ensures
            r@ == error_message(*self),
    {
        match self {
            TransformError::NoFindErr(selector) => {
                String::from_str("Could not find element by ").concat(selector.as_str())
            },
            TransformError::UnsupportedVerb(verb) => {
                String::from_str("Unexpected HTTP verb: ").concat(verb.as_str())
            },
            TransformError::UnmatchedPathParameter { verb, path, name } => {
                String::from_str("No placeholder for path parameter ").concat(
                    name.as_str(),
                ).concat(" of ").concat(verb.as_str()).concat(" ").concat(path.as_str())
            },
        }
    }
}

/// What was looked for in a document, by its selector, and the text that
/// was found, if any was.
#[derive(Debug, PartialEq, Eq)]
pub struct Extract {
    pub selector: String,
    pub text: Option<String>,
}

/// The title, the description and the version of the documented interface.
#[derive(Debug, PartialEq, Eq)]
pub struct Info {
    pub title: String,
    pub description: Option<String>,
    pub version: String,
}

/// What an extract gives: its text without the white space around it; the
/// error that carries the selector where nothing was found.
pub open spec fn extracted(found: Extract, r: Result<String, TransformError>) -> bool {
    match found.text {
        Some(text) => r matches Ok(t) && t@ == trim(text@),
        None => r matches Err(TransformError::NoFindErr(selector)) && selector@
            == found.selector@,
    }
}

/// The version number of a version line: the line without the words that
/// introduce it.
pub open spec fn version_number(line: Seq<char>) -> Seq<char> {
    join(split(line, "Version: "@), Seq::empty())
}

/// What the three extracts of a document give. The first of the title, the
/// description and the version that was not found decides the error; else
/// the information holds the trimmed title and description and the version
/// number.
pub open spec fn info_of(
    title: Extract,
    description: Extract,
    version: Extract,
    r: Result<Info, TransformError>,
) -> bool {
    if title.text is None {
        r matches Err(TransformError::NoFindErr(selector)) && selector@ == title.selector@
    } else if description.text is None {
        r matches Err(TransformError::NoFindErr(selector)) && selector@ == description.selector@
    } else if version.text is None {
        r matches Err(TransformError::NoFindErr(selector)) && selector@ == version.selector@
    } else {
        r matches Ok(info) && info.title@ == trim(title.text->0@) && (info.description matches Some(
            d,
        ) && d@ == trim(description.text->0@)) && info.version@ == version_number(
            trim(version.text->0@),
        )
    }
}

/// The trimmed text of an extract.
pub fn extract_string(found: &Extract) -> (r: Result<String, TransformError>)
    ensures
        extracted(*found, r),
{
    match &found.text {
        Some(text) => {
            let chars = to_chars(text.as_str());
            Ok(from_chars(trimmed(chars.as_slice())))
        },
        None => Err(TransformError::NoFindErr(found.selector.clone())),
    }
}

/// The information on the documented interface, from what was found for its
/// title, its description and its version line.
pub fn parse(title: &Extract, description: &Extract, version: &Extract) -> (r: Result<
    Info,
    TransformError,
>)
    ensures
        info_of(*title, *description, *version, r),
{
    let title_text = match extract_string(title) {
        Ok(t) => t,
        Err(e) => {
            return Err(e);
        },
    };
    let description_text = match extract_string(description) {
        Ok(t) => t,
        Err(e) => {
            return Err(e);
        },
    };
    let version_line = match extract_string(version) {
        Ok(t) => t,
        Err(e) => {
            return Err(e);
        },
    };
    let line = to_chars(version_line.as_str());
    let intro = to_chars("Version: ");
    proof {
        reveal_strlit("Version: ");
    }
    let pieces = split_on(line.as_slice(), intro.as_slice());
    let nothing: Vec<char> = Vec::new();
    let number = join_chars(&pieces, nothing.as_slice());
    Ok(
        Info {
            title: title_text,
            description: Some(description_text),
            version: from_chars(number.as_slice()),
        },
    )
}

} // verus!
