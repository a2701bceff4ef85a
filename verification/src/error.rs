use vstd::prelude::*;

verus! {

/// The error type surfaced to callers of the backend: a plain message.
#[derive(Clone, Debug, PartialEq, Eq)]
pub struct BackendError {
    pub message: String,
}

impl BackendError {
    pub fn new(message: String) -> (e: BackendError)
        ensures
            e.message@ == message@,
    {
        BackendError { message }
    }
}

/// Downgrade a fallible result to an `Option`, discarding the error value.
pub trait LoggingDefaultUnwrapper<T> {
    spec fn ok_view(self) -> Option<T>;

    fn ok_or_log(self, message: &str) -> (r: Option<T>)
        ensures
            r == self.ok_view(),
    ;
}

impl<T> LoggingDefaultUnwrapper<T> for Result<T, BackendError> {
    open spec fn ok_view(self) -> Option<T> {
        match self {
            Ok(v) => Some(v),
            Err(_) => None,
        }
    }

    fn ok_or_log(self, message: &str) -> (r: Option<T>) {
        match self {
            Ok(v) => Some(v),
            Err(_) => None,
        }
    }
}

} // verus!
