//! The error value that fallible operations of the library hand back.
use vstd::prelude::*;

verus! {

/// The error of an `Option` that was expected to hold a value.
#[derive(Clone, Copy, Debug, PartialEq, Eq, Structural)]
pub struct BadOption {}

/// What went wrong.
#[derive(Clone, Debug)]
pub enum ErrorValue {
    /// A value was missing.
    BadOption(BadOption),
    /// A described failure.
    Message(String),
}

/// An error raised by the library, carrying what went wrong.
#[derive(Clone, Debug)]
pub struct Exception {
    pub error: ErrorValue,
}

/// The result of an operation that may raise an `Exception`.
pub type Throws<T> = Result<T, Exception>;

/// A kind of error that can be recovered from an `ErrorValue`.
pub trait ErrorKind: Sized {
    /// The value of this kind that `e` holds, if it is of this kind.
    spec fn kind_of(e: ErrorValue) -> Option<Self>;

    fn from_error_value(e: ErrorValue) -> (r: Result<Self, ErrorValue>)
        ensures
            match Self::kind_of(e) {
                Some(v) => r == Ok::<Self, ErrorValue>(v),
                None => r == Err::<Self, ErrorValue>(e),
            },
    ;
}

impl ErrorKind for BadOption {
    open spec fn kind_of(e: ErrorValue) -> Option<Self> {
        match e {
            ErrorValue::BadOption(b) => Some(b),
            _ => None,
        }
    }

    fn from_error_value(e: ErrorValue) -> (r: Result<Self, ErrorValue>) {
        match e {
            ErrorValue::BadOption(b) => Ok(b),
            other => Err(other),
        }
    }
}

impl ErrorKind for String {
    open spec fn kind_of(e: ErrorValue) -> Option<Self> {
        match e {
            ErrorValue::Message(m) => Some(m),
            _ => None,
        }
    }

    fn from_error_value(e: ErrorValue) -> (r: Result<Self, ErrorValue>) {
        match e {
            ErrorValue::Message(m) => Ok(m),
            other => Err(other),
        }
    }
}

impl Exception {
    /// An exception that carries `error`.
    pub fn new(error: ErrorValue) -> (r: Self)
        ensures
            r.error == error,
    {
        Exception { error }
    }

    /// An exception with a described failure.
    pub fn message(text: String) -> (r: Self)
        ensures
            r.error == ErrorValue::Message(text),
    {
        Exception { error: ErrorValue::Message(text) }
    }

    /// What went wrong.
    pub fn get_error(self) -> (r: ErrorValue)
        ensures
            r == self.error,
    {
        self.error
    }

    /// What went wrong, as a value of kind `T`, or the error itself when it
    /// is of another kind.
    pub fn error_as<T: ErrorKind>(self) -> (r: Result<T, ErrorValue>)
        ensures
            match T::kind_of(self.error) {
                Some(v) => r == Ok::<T, ErrorValue>(v),
                None => r == Err::<T, ErrorValue>(self.error),
            },
    {
        T::from_error_value(self.error)
    }
}

/// Turns a missing or failed value into an `Exception`.
pub trait Throw<T>: Sized {
    /// The value that `self` holds, if it holds one.
    spec fn held(&self) -> Option<T>;

    /// The error that `self` stands for, when it holds no value.
    spec fn raised(&self) -> ErrorValue;

    fn throw(self) -> (r: Result<T, Exception>)
        ensures
            match self.held() {
                Some(v) => r == Ok::<T, Exception>(v),
                None => r matches Err(e) && e.error == self.raised(),
            },
    ;
}

impl<U> Throw<U> for Option<U> {
    open spec fn held(&self) -> Option<U> {
        *self
    }

    open spec fn raised(&self) -> ErrorValue {
        ErrorValue::BadOption(BadOption {})
    }

    fn throw(self) -> (r: Result<U, Exception>) {
        match self {
            Some(x) => Ok(x),
            None => Err(Exception { error: ErrorValue::BadOption(BadOption {}) }),
        }
    }
}

impl<U> Throw<U> for Result<U, ErrorValue> {
    open spec fn held(&self) -> Option<U> {
        match self {
            Ok(x) => Some(*x),
            Err(_) => None,
        }
    }

    open spec fn raised(&self) -> ErrorValue {
        match self {
            Ok(_) => ErrorValue::BadOption(BadOption {}),
            Err(e) => *e,
        }
    }

    fn throw(self) -> (r: Result<U, Exception>) {
        match self {
            Ok(x) => Ok(x),
            Err(e) => Err(Exception { error: e }),
        }
    }
}

} // verus!
