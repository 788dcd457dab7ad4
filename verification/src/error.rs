//! The error that building a failed fragment returns.

use vstd::prelude::*;

verus! {

/// Why a fragment could not be built: every reason recorded while it was put
/// together, in the order met, joined by `", "`.
#[derive(Debug)]
pub struct BuildError {
    message: String,
}

impl View for BuildError {
    type V = Seq<char>;

    closed spec fn view(&self) -> Seq<char> {
        self.message@
    }
}

impl BuildError {
    /// The error that carries `message`.
    pub fn new(message: String) -> (error: BuildError)
        ensures
            error@ == message@,
    {
        BuildError { message }
    }

    /// The aggregated message.
    pub fn message(&self) -> (message: &str)
        ensures
            message@ == self@,
    {
        self.message.as_str()
    }

    /// The aggregated message, as an owned string.
    pub fn to_string(&self) -> (message: String)
        ensures
            message@ == self@,
    {
        self.message.clone()
    }
}

} // verus!
