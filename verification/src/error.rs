//! What a failed conversion reports.

use vstd::prelude::*;

verus! {

/// A conversion failure with a user-facing explanation.
#[derive(Debug, Clone)]
pub struct ConversionError(String);

impl View for ConversionError {
    type V = Seq<char>;

    closed spec fn view(&self) -> Seq<char> {
        self.0@
    }
}

impl ConversionError {
    /// A failure explained by `message`.
    pub fn new(message: String) -> (error: Self)
        ensures
            error@ == message@,
    {
        ConversionError(message)
    }

    /// The explanation.
    pub fn message(&self) -> (message: &str)
        ensures
            message@ == self@,
    {
        self.0.as_str()
    }
}

} // verus!
