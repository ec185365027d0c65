//! Error types shared by all components of the protocol layer.

use vstd::prelude::*;

verus! {

/// The errors that the protocol layer reports to its callers.
///
/// Every error that carries a `String` identifies the offending value
/// (the key string, the type name, the subject) in that message.
#[derive(Debug)]
pub enum Error {
    /// A routing key does not have the expected shape.
    KeyParseError(String),
    /// Bytes are not a well-formed envelope.
    EnvelopeDecodeError(String),
    /// An envelope could not be produced.
    EnvelopeEncodeError(String),
    /// The clock failed, or a required timestamp is absent or out of range.
    InvalidTimestamp,
    /// A subject is not present in the registry.
    UnknownSubject(String),
    /// A type name is unknown, or a payload does not match its descriptor.
    ReflectionError(String),
    /// A registry or descriptor source is malformed.
    ConfigSourceError(String),
}

impl Error {
    /// A short label naming the error kind.
    pub fn kind(&self) -> (r: &'static str)
        ensures
            r@ == self.spec_kind(),
    {
        match self {
            Error::KeyParseError(_) => "key parse error",
            Error::EnvelopeDecodeError(_) => "envelope decode error",
            Error::EnvelopeEncodeError(_) => "envelope encode error",
            Error::InvalidTimestamp => "invalid timestamp",
            Error::UnknownSubject(_) => "unknown subject",
            Error::ReflectionError(_) => "reflection error",
            Error::ConfigSourceError(_) => "config source error",
        }
    }

    /// The label of each kind, at the spec level.
    pub open spec fn spec_kind(&self) -> Seq<char> {
        match self {
            Error::KeyParseError(_) => "key parse error"@,
            Error::EnvelopeDecodeError(_) => "envelope decode error"@,
            Error::EnvelopeEncodeError(_) => "envelope encode error"@,
            Error::InvalidTimestamp => "invalid timestamp"@,
            Error::UnknownSubject(_) => "unknown subject"@,
            Error::ReflectionError(_) => "reflection error"@,
            Error::ConfigSourceError(_) => "config source error"@,
        }
    }

    /// The detail message carried by the error, if any.
    pub fn detail(&self) -> (r: Option<&String>)
        ensures
            r == self.spec_detail(),
    {
        match self {
            Error::KeyParseError(m) => Some(m),
            Error::EnvelopeDecodeError(m) => Some(m),
            Error::EnvelopeEncodeError(m) => Some(m),
            Error::InvalidTimestamp => None,
            Error::UnknownSubject(m) => Some(m),
            Error::ReflectionError(m) => Some(m),
            Error::ConfigSourceError(m) => Some(m),
        }
    }

    /// The detail message, at the spec level.
    pub open spec fn spec_detail(&self) -> Option<&String> {
        match self {
            Error::KeyParseError(m) => Some(m),
            Error::EnvelopeDecodeError(m) => Some(m),
            Error::EnvelopeEncodeError(m) => Some(m),
            Error::InvalidTimestamp => None,
            Error::UnknownSubject(m) => Some(m),
            Error::ReflectionError(m) => Some(m),
            Error::ConfigSourceError(m) => Some(m),
        }
    }
}

} // verus!
