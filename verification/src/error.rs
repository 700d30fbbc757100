//! Error type for the core.

use vstd::prelude::*;

verus! {

/// Errors raised when parsing identifiers or (de)serializing MX messages.
#[derive(Debug, Clone, PartialEq, Eq)]
pub enum Error {
    /// A namespace or identifier could not be parsed into an [`crate::MxId`].
    InvalidMxId(String),
    /// The 4-letter business-area code is not a known ISO 20022 area.
    UnknownBusinessArea(String),
    /// XML deserialization failed (message from the underlying deserializer).
    Deserialize(String),
    /// XML serialization failed (message from the underlying serializer).
    Serialize(String),
}

/// The mathematical value of an [`Error`]: its variant and message text.
pub enum ErrorV {
    InvalidMxId(Seq<char>),
    UnknownBusinessArea(Seq<char>),
    Deserialize(Seq<char>),
    Serialize(Seq<char>),
}

impl View for Error {
    type V = ErrorV;

    open spec fn view(&self) -> ErrorV {
        match self {
            Error::InvalidMxId(s) => ErrorV::InvalidMxId(s@),
            Error::UnknownBusinessArea(s) => ErrorV::UnknownBusinessArea(s@),
            Error::Deserialize(s) => ErrorV::Deserialize(s@),
            Error::Serialize(s) => ErrorV::Serialize(s@),
        }
    }
}

impl Error {
    /// The human-readable message of this error.
    pub fn message(&self) -> (r: String)
        ensures
            r@ == match self {
                Error::InvalidMxId(s) => "invalid ISO 20022 message id: "@ + s@,
                Error::UnknownBusinessArea(s) => "unknown business area: "@ + s@,
                Error::Deserialize(s) => "XML deserialization failed: "@ + s@,
                Error::Serialize(s) => "XML serialization failed: "@ + s@,
            },
    {
        let (prefix, s) = match self {
            Error::InvalidMxId(s) => ("invalid ISO 20022 message id: ", s),
            Error::UnknownBusinessArea(s) => ("unknown business area: ", s),
            Error::Deserialize(s) => ("XML deserialization failed: ", s),
            Error::Serialize(s) => ("XML serialization failed: ", s),
        };
        let mut r = String::from_str(prefix);
        r.append(s.as_str());
        r
    }
}

} // verus!
