//! The errors of the converters.

use vstd::prelude::*;

verus! {

/// Why a request or a response cannot be converted.
#[derive(Debug)]
pub enum ProxyError {
    TransformError(String),
}

impl ProxyError {
    /// The message of an error.
    pub open spec fn text(&self) -> Seq<char> {
        match self {
            ProxyError::TransformError(s) => s@,
        }
    }

    /// The message of an error.
    pub fn message(&self) -> (r: &str)
        ensures
            r@ == self.text(),
    {
        match self {
            ProxyError::TransformError(s) => s.as_str(),
        }
    }
}

} // verus!
