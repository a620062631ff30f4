use vstd::prelude::*;

verus! {

/// Errors reported by the library.
///
/// `InternalError` carries the description of the failure that caused it.
#[derive(Debug)]
pub enum Error {
    ConnectionError(),
    InvalidParameters(),
    InternalError(String),
    NotFound(),
    MutexError(),
}

/// The text that describes an error of each kind.
pub open spec fn error_text(e: Error) -> Seq<char> {
    match e {
        Error::ConnectionError() => "Connection error"@,
        Error::InvalidParameters() => "Invalid parameters"@,
        Error::InternalError(_) => "Internal error"@,
        Error::NotFound() => "Not found"@,
        Error::MutexError() => "Mutex error"@,
    }
}

/// The text of the error that lies underneath: the wrapped description for an
/// internal error, the error's own text otherwise.
pub open spec fn cause_text(e: Error) -> Seq<char> {
    match e {
        Error::InternalError(s) => s@,
        _ => error_text(e),
    }
}

impl Error {
    /// The text that describes this error.
    pub fn message(&self) -> (r: String)
        ensures
            r@ == error_text(*self),
    {
        match self {
            Error::ConnectionError() => "Connection error".to_owned(),
            Error::InvalidParameters() => "Invalid parameters".to_owned(),
            Error::InternalError(_) => "Internal error".to_owned(),
            Error::NotFound() => "Not found".to_owned(),
            Error::MutexError() => "Mutex error".to_owned(),
        }
    }

    /// The underlying cause: for an internal error the description of the
    /// failure it wraps, for any other error the error itself.
    pub fn cause(&self) -> (r: String)
        ensures
            r@ == cause_text(*self),
    {
        match self {
            Error::InternalError(s) => s.clone(),
            _ => self.message(),
        }
    }
}

} // verus!
