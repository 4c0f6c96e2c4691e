use vstd::prelude::*;

verus! {

/// `std::io::Error`, carried by the error of an operation that failed on I/O.
#[verifier::external_type_specification]
#[verifier::external_body]
pub struct ExIoError(std::io::Error);

/// `std::str::Utf8Error`, the failure to read bytes as UTF-8.
#[verifier::external_type_specification]
#[verifier::external_body]
pub struct ExUtf8Error(std::str::Utf8Error);

/// `std::num::ParseIntError`, the failure to read text as an integer.
#[verifier::external_type_specification]
#[verifier::external_body]
pub struct ExParseIntError(std::num::ParseIntError);

/// Why an operation on a stored value failed.
#[derive(Debug)]
pub enum OperationError {
    OverflowError,
    NotANumberError,
    ValueError(String),
    UnknownKeyError,
    WrongTypeError,
    OutOfBoundsError,
    IOError(std::io::Error),
}

/// The text that a client is sent for each error.
pub open spec fn error_message(e: OperationError) -> Seq<char> {
    match e {
        OperationError::OverflowError => "ERR increment or decrement would overflow"@,
        OperationError::NotANumberError => "ERR value is not an integer or out of range"@,
        OperationError::ValueError(s) => s@,
        OperationError::UnknownKeyError => "ERR no such key"@,
        OperationError::WrongTypeError => "WRONGTYPE Operation against a key holding the wrong kind of value"@,
        OperationError::OutOfBoundsError => "ERR index out of range"@,
        OperationError::IOError(_) => "ERR I/O error"@,
    }
}

impl OperationError {
    /// The text that a client is sent for this error.
    pub fn message(&self) -> (r: &str)
        ensures
            r@ == error_message(*self),
    {
        match self {
            OperationError::OverflowError => "ERR increment or decrement would overflow",
            OperationError::NotANumberError => "ERR value is not an integer or out of range",
            OperationError::ValueError(s) => s.as_str(),
            OperationError::UnknownKeyError => "ERR no such key",
            OperationError::WrongTypeError => "WRONGTYPE Operation against a key holding the wrong kind of value",
            OperationError::OutOfBoundsError => "ERR index out of range",
            OperationError::IOError(_) => "ERR I/O error",
        }
    }
}

impl From<std::io::Error> for OperationError {
    /// An I/O failure, carried as it is.
    fn from(e: std::io::Error) -> (r: OperationError) {
        OperationError::IOError(e)
    }
}

impl vstd::std_specs::convert::FromSpecImpl<std::io::Error> for OperationError {
    open spec fn obeys_from_spec() -> bool {
        true
    }

    open spec fn from_spec(v: std::io::Error) -> OperationError {
        OperationError::IOError(v)
    }
}

impl From<std::num::ParseIntError> for OperationError {
    /// Text that is not an integer.
    fn from(e: std::num::ParseIntError) -> (r: OperationError) {
        OperationError::NotANumberError
    }
}

impl vstd::std_specs::convert::FromSpecImpl<std::num::ParseIntError> for OperationError {
    open spec fn obeys_from_spec() -> bool {
        true
    }

    open spec fn from_spec(v: std::num::ParseIntError) -> OperationError {
        OperationError::NotANumberError
    }
}

} // verus!
