//! Errors that reading a frame off the wire can meet.
use vstd::prelude::*;

use crate::decimal::decimal;
use crate::text::{ascii_text, decimal_string};

verus! {

/// Why a frame could not be read.
#[derive(Debug)]
pub enum RespError {
    /// The input ended before the frame did.
    EndOfStream,
    /// A `\r` was not followed by `\n`, or no `\r` came at all.
    InvalidEnd,
    /// A bulk string's declared length differs from its payload's length.
    InvalidCharsInBulkString(usize, String),
    /// A length or integer line was not a decimal number.
    InvalidTotalForArray(String),
    /// A frame began with a byte that starts no frame kind.
    ParseError(String),
    /// Text in a frame was not valid UTF-8.
    InvalidUtf8,
}

/// The mathematical value of a [`RespError`].
pub enum RespErrorModel {
    EndOfStream,
    InvalidEnd,
    InvalidCharsInBulkString(nat, Seq<char>),
    InvalidTotalForArray(Seq<char>),
    ParseError(Seq<char>),
    InvalidUtf8,
}

impl View for RespError {
    type V = RespErrorModel;

    open spec fn view(&self) -> RespErrorModel {
        match self {
            RespError::EndOfStream => RespErrorModel::EndOfStream,
            RespError::InvalidEnd => RespErrorModel::InvalidEnd,
            RespError::InvalidCharsInBulkString(n, s) => RespErrorModel::InvalidCharsInBulkString(
                *n as nat,
                s@,
            ),
            RespError::InvalidTotalForArray(s) => RespErrorModel::InvalidTotalForArray(s@),
            RespError::ParseError(s) => RespErrorModel::ParseError(s@),
            RespError::InvalidUtf8 => RespErrorModel::InvalidUtf8,
        }
    }
}

/// The human-readable text of an error.
pub open spec fn error_text(e: RespErrorModel) -> Seq<char> {
    match e {
        RespErrorModel::EndOfStream => "no more bytes left in the stream"@,
        RespErrorModel::InvalidEnd => "No \n after \r"@,
        RespErrorModel::InvalidCharsInBulkString(n, s) => "Invalid number of chars ("@
            + ascii_text(decimal(n)) + ") in bulk string: "@ + s,
        RespErrorModel::InvalidTotalForArray(s) => "Invalid total for array: "@ + s,
        RespErrorModel::ParseError(s) => "Error parsing frame: "@ + s,
        RespErrorModel::InvalidUtf8 => "Invalid UTF-8 in frame text"@,
    }
}

impl RespError {
    /// The human-readable text of this error.
    pub fn message(&self) -> (r: String)
        ensures
            r@ == error_text(self@),
    {
        match self {
            RespError::EndOfStream => String::from_str("no more bytes left in the stream"),
            RespError::InvalidEnd => String::from_str("No \n after \r"),
            RespError::InvalidCharsInBulkString(n, s) => {
                let r = String::from_str("Invalid number of chars (").concat(
                    decimal_string(*n as u64).as_str(),
                ).concat(") in bulk string: ").concat(s.as_str());
                r
            },
            RespError::InvalidTotalForArray(s) => String::from_str(
                "Invalid total for array: ",
            ).concat(s.as_str()),
            RespError::ParseError(s) => String::from_str("Error parsing frame: ").concat(
                s.as_str(),
            ),
            RespError::InvalidUtf8 => String::from_str("Invalid UTF-8 in frame text"),
        }
    }
}

/// The result of reading from the wire.
pub type RespResult<T> = Result<T, RespError>;

} // verus!
