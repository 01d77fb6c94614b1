//! The null-sentinel validator: a value stands for "no data" exactly
//! when its text is empty.

use vstd::prelude::*;

use crate::validators::ValidationError;

verus! {

/// Accepts exactly the empty string.  Used as the default null sentinel:
/// it decides whether a value represents missing data rather than a
/// typed value.
#[derive(Debug, Clone, Copy)]
pub struct Empty;

impl Empty {
    /// Succeeds iff the value's textual length is zero.
    pub fn validate(&self, value: &str) -> (r: Result<(), ValidationError>)
        ensures
            r is Ok <==> value@.len() == 0,
    {
        if value.is_empty() {
            Ok(())
        } else {
            Err(ValidationError { details: String::from_str("non-empty") })
        }
    }

    /// Same acceptance as `validate`; `Empty` keeps no state to update.
    pub fn consider(&mut self, value: &str) -> (r: Result<(), ValidationError>)
        ensures
            r is Ok <==> value@.len() == 0,
            *final(self) == *old(self),
    {
        self.validate(value)
    }
}

} // verus!
