//! The status codes that the client tells apart.

use crate::number::{parse_unsigned, read_unsigned};
use crate::text::{nth_token, token};
use vstd::prelude::*;

verus! {

/// The status of a response. A code that has no variant of its own is kept in
/// `Unsupported`; a status line without a readable code gives
/// `Unsupported(0)`.
#[derive(Debug, Clone, Copy, PartialEq, Eq, Structural)]
pub enum StatusCode {
    OK,
    Created,
    Accepted,
    NoContent,
    MovedPermanently,
    Found,
    NotModified,
    BadRequest,
    Unauthorized,
    Forbidden,
    NotFound,
    MethodNotAllowed,
    RequestTimeout,
    TooManyRequests,
    InternalServerError,
    Unsupported(u16),
}

/// The status that the number `code` stands for.
pub open spec fn status_of(code: u16) -> StatusCode {
    if code == 200 {
        StatusCode::OK
    } else if code == 201 {
        StatusCode::Created
    } else if code == 202 {
        StatusCode::Accepted
    } else if code == 204 {
        StatusCode::NoContent
    } else if code == 301 {
        StatusCode::MovedPermanently
    } else if code == 302 {
        StatusCode::Found
    } else if code == 304 {
        StatusCode::NotModified
    } else if code == 400 {
        StatusCode::BadRequest
    } else if code == 401 {
        StatusCode::Unauthorized
    } else if code == 403 {
        StatusCode::Forbidden
    } else if code == 404 {
        StatusCode::NotFound
    } else if code == 405 {
        StatusCode::MethodNotAllowed
    } else if code == 408 {
        StatusCode::RequestTimeout
    } else if code == 429 {
        StatusCode::TooManyRequests
    } else if code == 500 {
        StatusCode::InternalServerError
    } else {
        StatusCode::Unsupported(code)
    }
}

/// The number that a status stands for.
pub open spec fn code_of(status: StatusCode) -> u16 {
    match status {
        StatusCode::OK => 200,
        StatusCode::Created => 201,
        StatusCode::Accepted => 202,
        StatusCode::NoContent => 204,
        StatusCode::MovedPermanently => 301,
        StatusCode::Found => 302,
        StatusCode::NotModified => 304,
        StatusCode::BadRequest => 400,
        StatusCode::Unauthorized => 401,
        StatusCode::Forbidden => 403,
        StatusCode::NotFound => 404,
        StatusCode::MethodNotAllowed => 405,
        StatusCode::RequestTimeout => 408,
        StatusCode::TooManyRequests => 429,
        StatusCode::InternalServerError => 500,
        StatusCode::Unsupported(code) => code,
    }
}

/// The status that a status line announces: its second token, split at white
/// space, read as a decimal number of at most 65535. A line without such a
/// token gives `Unsupported(0)`.
pub open spec fn status_of_line(line: Seq<char>) -> StatusCode {
    match token(line, 1) {
        Some(t) => match parse_unsigned(t, 10, 0xFFFF) {
            Some(n) => status_of(n as u16),
            None => StatusCode::Unsupported(0),
        },
        None => StatusCode::Unsupported(0),
    }
}

impl StatusCode {
    /// Well-formedness: `Unsupported` holds no code that has a variant of its
    /// own.
    pub open spec fn wf(&self) -> bool {
        status_of(code_of(*self)) == *self
    }

    /// The status that `code` stands for. Every number is accepted, and the
    /// status gives the number back.
    pub fn from_u16(code: u16) -> (r: StatusCode)
        ensures
            r == status_of(code),
            code_of(r) == code,
            r.wf(),
    {
        if code == 200 {
            StatusCode::OK
        } else if code == 201 {
            StatusCode::Created
        } else if code == 202 {
            StatusCode::Accepted
        } else if code == 204 {
            StatusCode::NoContent
        } else if code == 301 {
            StatusCode::MovedPermanently
        } else if code == 302 {
            StatusCode::Found
        } else if code == 304 {
            StatusCode::NotModified
        } else if code == 400 {
            StatusCode::BadRequest
        } else if code == 401 {
            StatusCode::Unauthorized
        } else if code == 403 {
            StatusCode::Forbidden
        } else if code == 404 {
            StatusCode::NotFound
        } else if code == 405 {
            StatusCode::MethodNotAllowed
        } else if code == 408 {
            StatusCode::RequestTimeout
        } else if code == 429 {
            StatusCode::TooManyRequests
        } else if code == 500 {
            StatusCode::InternalServerError
        } else {
            StatusCode::Unsupported(code)
        }
    }

    /// The number of this status.
    pub fn as_u16(&self) -> (code: u16)
        ensures
            code == code_of(*self),
    {
        match self {
            StatusCode::OK => 200,
            StatusCode::Created => 201,
            StatusCode::Accepted => 202,
            StatusCode::NoContent => 204,
            StatusCode::MovedPermanently => 301,
            StatusCode::Found => 302,
            StatusCode::NotModified => 304,
            StatusCode::BadRequest => 400,
            StatusCode::Unauthorized => 401,
            StatusCode::Forbidden => 403,
            StatusCode::NotFound => 404,
            StatusCode::MethodNotAllowed => 405,
            StatusCode::RequestTimeout => 408,
            StatusCode::TooManyRequests => 429,
            StatusCode::InternalServerError => 500,
            StatusCode::Unsupported(code) => *code,
        }
    }

    /// The status that a status line announces.
    pub fn from_status_line(line: &[char]) -> (r: StatusCode)
        ensures
            r == status_of_line(line@),
            r.wf(),
    {
        match nth_token(line, 1) {
            Some((start, end)) => {
                let word = vstd::slice::slice_subrange(line, start, end);
                match read_unsigned(word, 10, 0xFFFF) {
                    Some(n) => StatusCode::from_u16(n as u16),
                    None => StatusCode::Unsupported(0),
                }
            },
            None => StatusCode::Unsupported(0),
        }
    }
}

} // verus!
