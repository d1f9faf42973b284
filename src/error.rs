//! Error kinds of the protocol layer and of the storage layer.
use crate::text::{ascii, ascii_lit};
use vstd::prelude::*;
use vstd::utf8::encode_utf8;

verus! {

/// Protocol parsing errors.
#[derive(Debug, Clone, PartialEq, Eq)]
pub enum ProtocolError {
    InvalidCommand(String),
    InvalidKey(String),
    InvalidValue(String),
    InvalidFlags,
    InvalidExptime,
    InvalidBytesLength,
    InvalidNumericValue,
    KeyTooLong,
    ValueTooLarge,
    UnexpectedData,
    IncompleteCommand,
}

/// A protocol error with its text as characters.
pub enum ProtocolErrorModel {
    InvalidCommand(Seq<char>),
    InvalidKey(Seq<char>),
    InvalidValue(Seq<char>),
    InvalidFlags,
    InvalidExptime,
    InvalidBytesLength,
    InvalidNumericValue,
    KeyTooLong,
    ValueTooLarge,
    UnexpectedData,
    IncompleteCommand,
}

impl View for ProtocolError {
    type V = ProtocolErrorModel;

    open spec fn view(&self) -> ProtocolErrorModel {
        match self {
            ProtocolError::InvalidCommand(s) => ProtocolErrorModel::InvalidCommand(s@),
            ProtocolError::InvalidKey(s) => ProtocolErrorModel::InvalidKey(s@),
            ProtocolError::InvalidValue(s) => ProtocolErrorModel::InvalidValue(s@),
            ProtocolError::InvalidFlags => ProtocolErrorModel::InvalidFlags,
            ProtocolError::InvalidExptime => ProtocolErrorModel::InvalidExptime,
            ProtocolError::InvalidBytesLength => ProtocolErrorModel::InvalidBytesLength,
            ProtocolError::InvalidNumericValue => ProtocolErrorModel::InvalidNumericValue,
            ProtocolError::KeyTooLong => ProtocolErrorModel::KeyTooLong,
            ProtocolError::ValueTooLarge => ProtocolErrorModel::ValueTooLarge,
            ProtocolError::UnexpectedData => ProtocolErrorModel::UnexpectedData,
            ProtocolError::IncompleteCommand => ProtocolErrorModel::IncompleteCommand,
        }
    }
}

impl ProtocolErrorModel {
    /// The human-readable text of the error, as sent after `CLIENT_ERROR`.
    pub open spec fn message(self) -> Seq<u8> {
        match self {
            ProtocolErrorModel::InvalidCommand(s) => ascii("Invalid command: "@) + encode_utf8(s),
            ProtocolErrorModel::InvalidKey(s) => ascii("Invalid key: "@) + encode_utf8(s),
            ProtocolErrorModel::InvalidValue(s) => ascii("Invalid value: "@) + encode_utf8(s),
            ProtocolErrorModel::InvalidFlags => ascii("Invalid flags"@),
            ProtocolErrorModel::InvalidExptime => ascii("Invalid exptime"@),
            ProtocolErrorModel::InvalidBytesLength => ascii("Invalid bytes length"@),
            ProtocolErrorModel::InvalidNumericValue => ascii("Invalid numeric value"@),
            ProtocolErrorModel::KeyTooLong => ascii("Key too long (max 250 bytes)"@),
            ProtocolErrorModel::ValueTooLarge => ascii("Value too large"@),
            ProtocolErrorModel::UnexpectedData => ascii("Unexpected data"@),
            ProtocolErrorModel::IncompleteCommand => ascii("Incomplete command"@),
        }
    }
}

/// Appends `prefix` and then the UTF-8 bytes of `detail`.
fn prefixed(prefix: &[u8], detail: &String) -> (r: Vec<u8>)
    ensures
        r@ == prefix@ + encode_utf8(detail@),
{
    let mut out: Vec<u8> = Vec::new();
    out.extend_from_slice(prefix);
    out.extend_from_slice(detail.as_str().as_bytes());
    out
}

fn fixed(text: &[u8]) -> (r: Vec<u8>)
    ensures
        r@ == text@,
{
    let mut out: Vec<u8> = Vec::new();
    out.extend_from_slice(text);
    out
}

impl ProtocolError {
    /// The text of the error.
    pub fn message(&self) -> (r: Vec<u8>)
        ensures
            r@ == self@.message(),
    {
        match self {
            ProtocolError::InvalidCommand(s) => {
                proof { reveal_strlit("Invalid command: "); }
                prefixed(ascii_lit("Invalid command: "), s)
            },
            ProtocolError::InvalidKey(s) => {
                proof { reveal_strlit("Invalid key: "); }
                prefixed(ascii_lit("Invalid key: "), s)
            },
            ProtocolError::InvalidValue(s) => {
                proof { reveal_strlit("Invalid value: "); }
                prefixed(ascii_lit("Invalid value: "), s)
            },
            ProtocolError::InvalidFlags => {
                proof { reveal_strlit("Invalid flags"); }
                fixed(ascii_lit("Invalid flags"))
            },
            ProtocolError::InvalidExptime => {
                proof { reveal_strlit("Invalid exptime"); }
                fixed(ascii_lit("Invalid exptime"))
            },
            ProtocolError::InvalidBytesLength => {
                proof { reveal_strlit("Invalid bytes length"); }
                fixed(ascii_lit("Invalid bytes length"))
            },
            ProtocolError::InvalidNumericValue => {
                proof { reveal_strlit("Invalid numeric value"); }
                fixed(ascii_lit("Invalid numeric value"))
            },
            ProtocolError::KeyTooLong => {
                proof { reveal_strlit("Key too long (max 250 bytes)"); }
                fixed(ascii_lit("Key too long (max 250 bytes)"))
            },
            ProtocolError::ValueTooLarge => {
                proof { reveal_strlit("Value too large"); }
                fixed(ascii_lit("Value too large"))
            },
            ProtocolError::UnexpectedData => {
                proof { reveal_strlit("Unexpected data"); }
                fixed(ascii_lit("Unexpected data"))
            },
            ProtocolError::IncompleteCommand => {
                proof { reveal_strlit("Incomplete command"); }
                fixed(ascii_lit("Incomplete command"))
            },
        }
    }
}

/// Storage layer errors.
#[derive(Debug, Clone, PartialEq, Eq)]
pub enum StorageError {
    /// The storage engine reported a failure; its own message is kept.
    Engine(String),
    Internal(String),
    Encoding(String),
    Decoding(String),
    NotFound,
    AlreadyExists,
    NotNumeric,
    NumericOverflow,
    NumericUnderflow,
}

/// A storage error with its text as characters.
pub enum StorageErrorModel {
    Engine(Seq<char>),
    Internal(Seq<char>),
    Encoding(Seq<char>),
    Decoding(Seq<char>),
    NotFound,
    AlreadyExists,
    NotNumeric,
    NumericOverflow,
    NumericUnderflow,
}

impl View for StorageError {
    type V = StorageErrorModel;

    open spec fn view(&self) -> StorageErrorModel {
        match self {
            StorageError::Engine(s) => StorageErrorModel::Engine(s@),
            StorageError::Internal(s) => StorageErrorModel::Internal(s@),
            StorageError::Encoding(s) => StorageErrorModel::Encoding(s@),
            StorageError::Decoding(s) => StorageErrorModel::Decoding(s@),
            StorageError::NotFound => StorageErrorModel::NotFound,
            StorageError::AlreadyExists => StorageErrorModel::AlreadyExists,
            StorageError::NotNumeric => StorageErrorModel::NotNumeric,
            StorageError::NumericOverflow => StorageErrorModel::NumericOverflow,
            StorageError::NumericUnderflow => StorageErrorModel::NumericUnderflow,
        }
    }
}

impl StorageErrorModel {
    /// The human-readable text of the error, as sent after `SERVER_ERROR`.
    pub open spec fn message(self) -> Seq<u8> {
        match self {
            StorageErrorModel::Engine(s) => ascii("Storage engine error: "@) + encode_utf8(s),
            StorageErrorModel::Internal(s) => ascii("Internal error: "@) + encode_utf8(s),
            StorageErrorModel::Encoding(s) => ascii("Value encoding error: "@) + encode_utf8(s),
            StorageErrorModel::Decoding(s) => ascii("Value decoding error: "@) + encode_utf8(s),
            StorageErrorModel::NotFound => ascii("Key not found"@),
            StorageErrorModel::AlreadyExists => ascii("Key already exists"@),
            StorageErrorModel::NotNumeric => ascii("Not a numeric value"@),
            StorageErrorModel::NumericOverflow => ascii("Numeric overflow"@),
            StorageErrorModel::NumericUnderflow => ascii("Numeric underflow"@),
        }
    }
}

impl StorageError {
    /// The text of the error.
    pub fn message(&self) -> (r: Vec<u8>)
        ensures
            r@ == self@.message(),
    {
        match self {
            StorageError::Engine(s) => {
                proof { reveal_strlit("Storage engine error: "); }
                prefixed(ascii_lit("Storage engine error: "), s)
            },
            StorageError::Internal(s) => {
                proof { reveal_strlit("Internal error: "); }
                prefixed(ascii_lit("Internal error: "), s)
            },
            StorageError::Encoding(s) => {
                proof { reveal_strlit("Value encoding error: "); }
                prefixed(ascii_lit("Value encoding error: "), s)
            },
            StorageError::Decoding(s) => {
                proof { reveal_strlit("Value decoding error: "); }
                prefixed(ascii_lit("Value decoding error: "), s)
            },
            StorageError::NotFound => {
                proof { reveal_strlit("Key not found"); }
                fixed(ascii_lit("Key not found"))
            },
            StorageError::AlreadyExists => {
                proof { reveal_strlit("Key already exists"); }
                fixed(ascii_lit("Key already exists"))
            },
            StorageError::NotNumeric => {
                proof { reveal_strlit("Not a numeric value"); }
                fixed(ascii_lit("Not a numeric value"))
            },
            StorageError::NumericOverflow => {
                proof { reveal_strlit("Numeric overflow"); }
                fixed(ascii_lit("Numeric overflow"))
            },
            StorageError::NumericUnderflow => {
                proof { reveal_strlit("Numeric underflow"); }
                fixed(ascii_lit("Numeric underflow"))
            },
        }
    }
}

} // verus!
