//! Turning an absent value into an error.

use vstd::prelude::*;

verus! {

/// The error for a value that was required but absent.
#[derive(Clone, Copy, Debug, PartialEq, Eq, Structural)]
pub struct OptionError;

impl OptionError {
    /// The error's message.
    pub fn message(&self) -> (r: &'static str)
        ensures
            r@ == "Option error"@,
    {
        "Option error"
    }
}

/// Values that may be absent, turned into a `Result` that names the absence.
pub trait OkOrErr<T>: Sized {
    /// Whether the value is present.
    spec fn present(&self) -> bool;

    fn ok_or_err(self) -> (r: Result<T, OptionError>)
        ensures
            r is Ok <==> self.present(),
    ;
}

impl<T> OkOrErr<T> for Option<T> {
    open spec fn present(&self) -> bool {
        self is Some
    }

    /// `Ok` with the value when it is present, `Err(OptionError)` otherwise.
    fn ok_or_err(self) -> (r: Result<T, OptionError>)
        ensures
            match self {
                Some(v) => r == Ok::<T, OptionError>(v),
                None => r == Err::<T, OptionError>(OptionError),
            },
    {
        match self {
            Some(v) => Ok(v),
            None => Err(OptionError),
        }
    }
}

} // verus!
