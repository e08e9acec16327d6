//! What an operation says of itself: its description and the status code of
//! its response.

use crate::paths::parameters::{
    models, parse_query_params, query_parameters, ParameterRow, ParameterSpec,
};
use crate::paths::request_body::{body_model, request_body_of, RequestBody};
use crate::paths::response::{content_model, response_content, Response};
use crate::text::{from_chars, to_chars, trim, trimmed, views};
use vstd::prelude::*;

verus! {

/// The status of a response: a code, or a range of codes by its first digit.
#[derive(Clone, Copy, Debug, PartialEq, Eq, Structural)]
pub enum StatusCode {
    Code(u16),
    Range(u16),
}

/// Whether a character is a decimal digit.
pub open spec fn is_digit(c: char) -> bool {
    '0' <= c && c <= '9'
}

/// The value of a decimal digit.
pub open spec fn digit_value(c: char) -> nat {
    (c as u32 - '0' as u32) as nat
}

/// The number that a text of decimal digits denotes; `None` where the text
/// is empty or holds anything else.
pub open spec fn digits_value(s: Seq<char>) -> Option<nat>
    decreases s.len(),
{
    if s.len() == 0 || !is_digit(s.last()) {
        None
    } else if s.len() == 1 {
        Some(digit_value(s.last()))
    } else {
        match digits_value(s.drop_last()) {
            Some(v) => Some(v * 10 + digit_value(s.last())),
            None => None,
        }
    }
}

/// The number that a text denotes as an unsigned number of sixteen bits:
/// decimal digits, after a plus sign or without one, whose value fits.
pub open spec fn number_of(s: Seq<char>) -> Option<u16> {
    let digits = if s.len() > 0 && s[0] == '+' {
        s.drop_first()
    } else {
        s
    };
    match digits_value(digits) {
        Some(v) => if v <= u16::MAX {
            Some(v as u16)
        } else {
            None
        },
        None => None,
    }
}

/// The status code that a text denotes: a number from 100 to 599.
pub open spec fn status_code_of(s: Seq<char>) -> Option<StatusCode> {
    match number_of(s) {
        Some(n) => if 100 <= n <= 599 {
            Some(StatusCode::Code(n))
        } else {
            None
        },
        None => None,
    }
}

/// The status of the response of an operation: the code that the text of
/// its status cell denotes, white space aside; and the range of success
/// where there is no such cell or its text is no status code.
pub open spec fn status_of(text: Option<Seq<char>>) -> StatusCode {
    match text {
        Some(t) => match status_code_of(trim(t)) {
            Some(code) => code,
            None => StatusCode::Range(2),
        },
        None => StatusCode::Range(2),
    }
}

/// The description of an operation: the text of its summary, white space
/// aside; and a note that it is missing where there is none.
pub open spec fn description_of(text: Option<Seq<char>>) -> Seq<char> {
    match text {
        Some(t) => trim(t),
        None => "Missing description"@,
    }
}

/// The number that the characters denote.
fn parse_number(s: &[char]) -> (r: Option<u16>)
    ensures
        r == number_of(s@),
{
    let start: usize = if s.len() > 0 && s[0] == '+' {
        1
    } else {
        0
    };
    let ghost digits = s@.skip(start as int);
    proof {
        if start == 1 {
            assert(digits == s@.drop_first());
        } else {
            assert(digits == s@);
        }
    }
    if start == s.len() {
        return None;
    }
    let mut acc: u32 = 0;
    let mut i: usize = start;
    while i < s.len()
        invariant
            start <= i <= s.len(),
            digits == s@.skip(start as int),
            digits == if s@.len() > 0 && s@[0] == '+' {
                s@.drop_first()
            } else {
                s@
            },
            i > start ==> (digits_value(digits.take(i - start)) matches Some(v) && (if v
                <= u16::MAX {
                acc == v
            } else {
                acc == 65536
            })),
            i == start ==> acc == 0,
            acc <= 65536,
        decreases s.len() - i,
    {
        let c = s[i];
        let ghost next = digits.take(i + 1 - start);
        proof {
            assert(next.drop_last() == digits.take(i - start));
            assert(next.last() == c);
        }
        if !('0' <= c && c <= '9') {
            proof {
                assert(digits_value(next) is None);
                lemma_not_digits(digits, i + 1 - start);
            }
            return None;
        }
        let d: u32 = c as u32 - '0' as u32;
        proof {
            assert(is_digit(c));
            assert(d == digit_value(c));
            assert(d <= 9);
            if i == start {
                assert(next.len() == 1);
                assert(digits_value(next) == Some(d as nat));
            } else {
                assert(next.len() > 1);
                let v = digits_value(digits.take(i - start))->0;
                assert(digits_value(next) == Some(v * 10 + d as nat));
            }
        }
        acc = acc * 10 + d;
        if acc > 65535 {
            acc = 65536;
        }
        i += 1;
    }
    assert(digits.take(s.len() - start) == digits);
    if acc <= 65535 {
        Some(acc as u16)
    } else {
        None
    }
}

/// A text is no number where one of its beginnings is none.
proof fn lemma_not_digits(s: Seq<char>, n: int)
    requires
        0 < n <= s.len(),
        digits_value(s.take(n)) is None,
    ensures
        digits_value(s) is None,
    decreases s.len() - n,
{
    if n < s.len() {
        assert(s.take(n + 1).drop_last() == s.take(n));
        lemma_not_digits(s, n + 1);
    } else {
        assert(s.take(n) == s);
    }
}

/// The status code that a text denotes, if it denotes one.
pub fn parse_status_code(status_code_str: &str) -> (r: Option<StatusCode>)
    ensures
        r == status_code_of(status_code_str@),
{
    let chars = to_chars(status_code_str);
    match parse_number(chars.as_slice()) {
        Some(n) => if 100 <= n && n <= 599 {
            Some(StatusCode::Code(n))
        } else {
            None
        },
        None => None,
    }
}

/// The status of the response of an operation, from the text of its status
/// cell.
pub fn status_code(text: Option<&str>) -> (r: StatusCode)
    ensures
        r == status_of(
            match text {
                Some(t) => Some(t@),
                None => None,
            },
        ),
{
    match text {
        Some(t) => {
            let chars = to_chars(t);
            let inner = from_chars(trimmed(chars.as_slice()));
            match parse_status_code(inner.as_str()) {
                Some(code) => code,
                None => StatusCode::Range(2),
            }
        },
        None => StatusCode::Range(2),
    }
}

/// The description of an operation, from the text of its summary.
pub fn description(text: Option<&str>) -> (r: String)
    ensures
        r@ == description_of(
            match text {
                Some(t) => Some(t@),
                None => None,
            },
        ),
{
    match text {
        Some(t) => {
            let chars = to_chars(t);
            from_chars(trimmed(chars.as_slice()))
        },
        None => "Missing description".to_owned(),
    }
}

/// What was read from the section of an operation: the texts of its
/// summary and of its status cell, where it has them; the description and
/// the schema cell of its first response row; the first media type that it
/// produces; the media types that it consumes; and the rows of its parameter
/// table.
#[derive(Debug, PartialEq, Eq)]
pub struct OperationSource {
    pub summary: Option<String>,
    pub status: Option<String>,
    pub response_description: String,
    pub response_schema: String,
    pub produces: Option<String>,
    pub consumes: Vec<String>,
    pub rows: Vec<ParameterRow>,
}

/// An operation: its description, the status and the content of its
/// response, its query parameters and its request body.
#[derive(Debug, PartialEq, Eq)]
pub struct Operation {
    pub description: String,
    pub status: StatusCode,
    pub response: Response,
    pub parameters: Vec<ParameterSpec>,
    pub request_body: Option<RequestBody>,
}

/// The text of an optional string.
pub open spec fn option_text(s: Option<String>) -> Option<Seq<char>> {
    match s {
        Some(t) => Some(t@),
        None => None,
    }
}

/// The operation is the one that the source describes.
pub open spec fn operation_of(source: OperationSource, r: Operation) -> bool {
    &&& r.description@ == description_of(option_text(source.summary))
    &&& r.status == status_of(option_text(source.status))
    &&& r.response.description@ == source.response_description@
    &&& content_model(r.response.content) == response_content(
        source.response_schema@,
        option_text(source.produces),
    )
    &&& models(r.parameters@) == query_parameters(source.rows@)
    &&& body_model(r.request_body) == request_body_of(source.rows@, views(source.consumes@))
}

/// The operation that a section describes.
pub fn parse(source: &OperationSource) -> (r: Operation)
    ensures
        operation_of(*source, r),
{
    let summary = match &source.summary {
        Some(t) => Some(t.as_str()),
        None => None,
    };
    let status = match &source.status {
        Some(t) => Some(t.as_str()),
        None => None,
    };
    let produces = match &source.produces {
        Some(t) => Some(t.as_str()),
        None => None,
    };
    Operation {
        description: description(summary),
        status: status_code(status),
        response: crate::paths::response::parse(
            source.response_description.as_str(),
            source.response_schema.as_str(),
            produces,
        ),
        parameters: parse_query_params(&source.rows),
        request_body: crate::paths::request_body::parse(&source.rows, &source.consumes),
    }
}

} // verus!
