//! The library's error type.

use vstd::prelude::*;

verus! {

#[verifier::external_type_specification]
#[verifier::external_body]
pub struct ExIoError(std::io::Error);

/// Why processing a file failed.
#[derive(Debug)]
pub enum ImzipError {
    /// An I/O error (reading, writing, or a stream of a codec).
    Io(std::io::Error),
    /// The input could not be decoded.
    Decode(String),
    /// The encoder of `format` failed.
    Encode { format: &'static str, msg: String },
    /// Metadata could not be read or written.
    Metadata(String),
    /// The request is not valid for this file.
    Invalid(String),
}

impl ImzipError {
    pub fn encode(format: &'static str, msg: String) -> (e: Self)
        ensures
            e matches ImzipError::Encode { format: f, msg: m } && f == format && m == msg,
    {
        ImzipError::Encode { format, msg }
    }

    pub fn decode(msg: String) -> (e: Self)
        ensures
            e matches ImzipError::Decode(m) && m == msg,
    {
        ImzipError::Decode(msg)
    }

    pub fn metadata(msg: String) -> (e: Self)
        ensures
            e matches ImzipError::Metadata(m) && m == msg,
    {
        ImzipError::Metadata(msg)
    }

    pub fn invalid(msg: String) -> (e: Self)
        ensures
            e matches ImzipError::Invalid(m) && m == msg,
    {
        ImzipError::Invalid(msg)
    }
}


/// The text of an I/O error (its `Display`, `ToString::to_string`). Its
/// wording comes from the platform and is not stated.
#[verifier::external_body]
fn io_error_text(e: &std::io::Error) -> (s: String) {
    e.to_string()
}

impl ImzipError {
    /// The message reported for the error.
    pub fn message(&self) -> (s: String)
        ensures
            match self {
                ImzipError::Io(_) => s@.take(11) == "I/O error: "@,
                ImzipError::Decode(m) => s@ == "failed to decode image: "@ + m@,
                ImzipError::Encode { format, msg } => s@ == "failed to encode "@ + format@ + ": "@ + msg@,
                ImzipError::Metadata(m) => s@ == "metadata error: "@ + m@,
                ImzipError::Invalid(m) => s@ == m@,
            },
    {
        match self {
            ImzipError::Io(e) => {
                let mut s = String::from_str("I/O error: ");
                let t = io_error_text(e);
                s.append(t.as_str());
                proof {
                    reveal_strlit("I/O error: ");
                }
                s
            },
            ImzipError::Decode(m) => {
                let mut s = String::from_str("failed to decode image: ");
                s.append(m.as_str());
                s
            },
            ImzipError::Encode { format, msg } => {
                let mut s = String::from_str("failed to encode ");
                s.append(format);
                s.append(": ");
                s.append(msg.as_str());
                s
            },
            ImzipError::Metadata(m) => {
                let mut s = String::from_str("metadata error: ");
                s.append(m.as_str());
                s
            },
            ImzipError::Invalid(m) => m.clone(),
        }
    }
}

} // verus!
