//! The error type of the store.

use vstd::prelude::*;
use vstd::string::StringExecFns;

verus! {

/// `std::io::Error`, carried through as an opaque value.
#[verifier::external_type_specification]
#[verifier::external_body]
pub struct ExIoError(std::io::Error);

/// `serde_json::Error`, carried through as an opaque value.
#[verifier::external_type_specification]
#[verifier::external_body]
pub struct ExJsonError(serde_json::Error);

/// `sled::Error`, carried through as an opaque value.
#[verifier::external_type_specification]
#[verifier::external_body]
pub struct ExSledError(sled::Error);

/// `std::string::FromUtf8Error`, carried through as an opaque value.
#[verifier::external_type_specification]
#[verifier::external_body]
pub struct ExFromUtf8Error(std::string::FromUtf8Error);

/// What can go wrong in the store, on the wire, or below them.
#[derive(Debug)]
pub enum KvsError {
    /// A key that was to be removed has no value.
    KeyNotFound,
    /// A position of the index led to a record that is no `Put`.
    UnexpectedCommandType,
    /// Reading or writing a file or a socket failed.
    Io(std::io::Error),
    /// A record could not be encoded or decoded.
    SerdeJson(serde_json::Error),
    /// The sled engine failed.
    Sled(sled::Error),
    /// A value read back is not UTF-8.
    FromUtf8(std::string::FromUtf8Error),
    /// An error reported as text, such as one sent by the server.
    StringError(String),
}

impl KvsError {
    /// The text of the error as a client sees it.
    pub open spec fn message_text(self) -> Seq<char> {
        match self {
            KvsError::KeyNotFound => "Key not found"@,
            KvsError::UnexpectedCommandType => "Get unexpected command type"@,
            KvsError::Io(_) => "Io error"@,
            KvsError::SerdeJson(_) => "Serde json error"@,
            KvsError::Sled(_) => "Sled error"@,
            KvsError::FromUtf8(_) => "From utf8 error"@,
            KvsError::StringError(text) => "String error `"@ + text@ + "`"@,
        }
    }

    /// The text of the error as a client sees it.
    pub fn message(&self) -> (text: String)
        ensures
            text@ == self.message_text(),
    {
        match self {
            KvsError::KeyNotFound => String::from_str("Key not found"),
            KvsError::UnexpectedCommandType => String::from_str("Get unexpected command type"),
            KvsError::Io(_) => String::from_str("Io error"),
            KvsError::SerdeJson(_) => String::from_str("Serde json error"),
            KvsError::Sled(_) => String::from_str("Sled error"),
            KvsError::FromUtf8(_) => String::from_str("From utf8 error"),
            KvsError::StringError(text) => {
                String::from_str("String error `").concat(text.as_str()).concat("`")
            },
        }
    }
}

} // verus!
