//! The uniqueness validator: a value is acceptable only the first time
//! it is seen.  The seen-value history is shared across clones, so that
//! duplicated schema snapshots keep observing one logical column.

use std::collections::HashSet;
use std::sync::Arc;
use std::sync::RwLock;

use vstd::prelude::*;

use crate::validators::ValidationError;

verus! {

/// Seen-value set shared across clones of one `Unique` validator.  The
/// lock makes check-and-insert a single indivisible step, as concurrent
/// use of cloned validators requires.
#[verifier::external_body]
#[derive(Debug)]
struct SharedSet {
    inner: Arc<RwLock<HashSet<String>>>,
}

impl SharedSet {
    /// Relies on `HashSet::new` behind a fresh lock: makes a set that
    /// shares history with no other handle.
    #[verifier::external_body]
    fn new() -> (r: SharedSet) {
        SharedSet { inner: Arc::new(RwLock::new(HashSet::new())) }
    }

    /// Relies on `Arc::clone`: the new handle observes and extends the
    /// same underlying set as this one.
    #[verifier::external_body]
    fn share(&self) -> (r: SharedSet) {
        SharedSet { inner: Arc::clone(&self.inner) }
    }

    /// Relies on `RwLock::write` and `HashSet::insert`: atomically
    /// inserts the value, reporting `Ok(true)` when it was absent,
    /// `Ok(false)` when it had been seen through any handle, and
    /// `Err(())` when the lock was poisoned.  The report depends on the
    /// shared history, not on the arguments alone, so nothing more is
    /// stated about it.
    #[verifier::external_body]
    fn check_and_insert(&self, value: &str) -> (r: Result<bool, ()>) {
        match self.inner.write() {
            Ok(mut guard) => Ok(guard.insert(value.to_string())),
            Err(_) => Err(()),
        }
    }

    /// Relies on `RwLock::read` and `HashSet::contains`: reports
    /// whether the value has been seen through any handle, without
    /// changing the set; `Err(())` when the lock was poisoned.  The
    /// report depends on the shared history, so nothing more is stated
    /// about it.
    #[verifier::external_body]
    fn contains(&self, value: &str) -> (r: Result<bool, ()>) {
        match self.inner.read() {
            Ok(guard) => Ok(guard.contains(value)),
            Err(_) => Err(()),
        }
    }
}

/// Maps a check-and-insert report to the validator's answer — success
/// exactly when the value was newly added; a poisoned lock surfaces as
/// an error, never as a crash.
fn unique_outcome(report: Result<bool, ()>) -> (r: Result<(), ValidationError>)
    ensures
        r is Ok <==> report == Ok::<bool, ()>(true),
{
    match report {
        Ok(true) => Ok(()),
        Ok(false) => Err(
            ValidationError { details: String::from_str("value has been seen before") },
        ),
        Err(()) => Err(ValidationError { details: String::from_str("seen-value lock poisoned") }),
    }
}

/// Maps a membership report to the validator's answer — success
/// exactly when the value has not been seen; a poisoned lock surfaces
/// as an error, never as a crash.
fn membership_outcome(report: Result<bool, ()>) -> (r: Result<(), ValidationError>)
    ensures
        r is Ok <==> report == Ok::<bool, ()>(false),
{
    match report {
        Ok(false) => Ok(()),
        Ok(true) => Err(
            ValidationError { details: String::from_str("value has been seen before") },
        ),
        Err(()) => Err(ValidationError { details: String::from_str("seen-value lock poisoned") }),
    }
}

/// Accepts a value only the first time it is seen: `consider` records
/// the value as part of its check, while `validate` only reads the
/// history.  Clones share one seen-value history, so the check stays
/// consistent across duplicated schema snapshots.
#[derive(Debug)]
pub struct Unique {
    values: SharedSet,
}

impl Clone for Unique {
    /// The clone shares the seen-value set with the original.
    fn clone(&self) -> (r: Self) {
        Unique { values: self.values.share() }
    }
}

impl Default for Unique {
    fn default() -> (r: Self) {
        Unique { values: SharedSet::new() }
    }
}

impl Unique {
    /// Read-only membership check: succeeds exactly when the shared
    /// set reported the value unseen, and changes nothing.  The answer
    /// depends on the shared history, so no more can be promised of it
    /// here.
    pub fn validate(&self, value: &str) -> Result<(), ValidationError> {
        membership_outcome(self.values.contains(value))
    }

    /// Atomically checks and records the value: succeeds exactly when
    /// the shared set reported it unseen, and inserts it as part of
    /// the same indivisible step.  Recording the value is the whole
    /// state update, so the handle itself does not change.
    pub fn consider(&mut self, value: &str) -> (r: Result<(), ValidationError>)
        ensures
            *final(self) == *old(self),
    {
        unique_outcome(self.values.check_and_insert(value))
    }
}

} // verus!
