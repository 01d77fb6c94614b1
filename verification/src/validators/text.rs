//! Text validators: unconstrained text with observed length bounds, and
//! exact-match literals.

use vstd::prelude::*;

use crate::validators::ValidationError;

verus! {

/// The length a validator observes for a value: its character count.
pub open spec fn observed_len(v: Seq<char>) -> int {
    v.len() as int
}

/// The observed shortest length after one more value.
pub open spec fn widen_min_length(m: Option<usize>, n: int) -> Option<usize> {
    match m {
        Some(x) => if x as int <= n {
            Some(x)
        } else {
            Some(n as usize)
        },
        None => Some(n as usize),
    }
}

/// The observed longest length after one more value.
pub open spec fn widen_max_length(m: Option<usize>, n: int) -> Option<usize> {
    match m {
        Some(x) => if x as int >= n {
            Some(x)
        } else {
            Some(n as usize)
        },
        None => Some(n as usize),
    }
}

/// Accepts any text; remembers the shortest and longest character
/// count observed so far.
#[derive(Debug, Clone, Copy)]
pub struct Text {
    pub min_length: Option<usize>,
    pub max_length: Option<usize>,
}

/// The state of a `Text` validator after it accepts one value.
pub open spec fn text_considered(pre: Text, v: Seq<char>) -> Text {
    Text {
        min_length: widen_min_length(pre.min_length, observed_len(v)),
        max_length: widen_max_length(pre.max_length, observed_len(v)),
    }
}

impl Default for Text {
    fn default() -> (r: Self)
        ensures
            r.min_length is None,
            r.max_length is None,
    {
        Text { min_length: None, max_length: None }
    }
}

impl Text {
    /// Any text is compatible with text.
    pub fn validate(&self, _value: &str) -> (r: Result<(), ValidationError>)
        ensures
            r is Ok,
    {
        Ok(())
    }

    /// Always succeeds; extends the observed length bounds to cover the
    /// value's character count.
    pub fn consider(&mut self, value: &str) -> (r: Result<(), ValidationError>)
        ensures
            r is Ok,
            *final(self) == text_considered(*old(self), value@),
    {
        let n = value.unicode_len();
        self.min_length = Some(
            match self.min_length {
                Some(m) => if m <= n {
                    m
                } else {
                    n
                },
                None => n,
            },
        );
        self.max_length = Some(
            match self.max_length {
                Some(m) => if m >= n {
                    m
                } else {
                    n
                },
                None => n,
            },
        );
        Ok(())
    }
}

/// Whether one of the allowed literals reads exactly as `v`.
pub open spec fn literal_contains(values: Seq<String>, v: Seq<char>) -> bool {
    exists|i: int| 0 <= i < values.len() && values[i]@ == v
}

/// Accepts exactly the string values supplied at construction; for
/// example, the values `"True"` and `"False"` make a boolean type.
/// Narrowing never changes the allowed set.
#[derive(Debug)]
pub struct Literal {
    pub values: Vec<String>,
}

impl Clone for Literal {
    fn clone(&self) -> (r: Self)
        ensures
            r.values@ == self.values@,
    {
        let values = self.values.clone();
        proof {
            assert(values@ =~= self.values@);
        }
        Literal { values }
    }
}

impl Literal {
    pub fn new(values: Vec<String>) -> (r: Self)
        ensures
            r.values == values,
    {
        Literal { values }
    }

    /// Succeeds iff the value equals one of the allowed literals.
    pub fn validate(&self, value: &str) -> (r: Result<(), ValidationError>)
        ensures
            r is Ok <==> literal_contains(self.values@, value@),
    {
        let owned = value.to_owned();
        let n = self.values.len();
        let mut i: usize = 0;
        while i < n
            invariant
                0 <= i <= n,
                n == self.values@.len(),
                owned@ == value@,
                forall|j: int| 0 <= j < i ==> self.values@[j]@ != value@,
            decreases n - i,
        {
            if self.values[i] == owned {
                return Ok(());
            }
            i = i + 1;
        }
        Err(ValidationError { details: String::from_str("value is not an allowed literal") })
    }

    /// Same acceptance as `validate`; the allowed set is never mutated.
    pub fn consider(&mut self, value: &str) -> (r: Result<(), ValidationError>)
        ensures
            r is Ok <==> literal_contains(old(self).values@, value@),
            *final(self) == *old(self),
    {
        self.validate(value)
    }
}

} // verus!
