//! Type-level booleans: two unit types that stand for the two truth values.

use vstd::prelude::*;

verus! {

/// The truth value `true` as a type.
#[derive(Clone, Copy)]
pub struct True;

/// The truth value `false` as a type.
#[derive(Clone, Copy)]
pub struct False;

impl True {
    /// The `bool` this type stands for.
    pub open spec fn spec_value(self) -> bool {
        true
    }

    /// Always `true`.
    #[verifier::when_used_as_spec(spec_value)]
    pub fn value(self) -> (b: bool)
        ensures
            b == true,
            b == self.spec_value(),
    {
        true
    }
}

impl False {
    /// The `bool` this type stands for.
    pub open spec fn spec_value(self) -> bool {
        false
    }

    /// Always `false`.
    #[verifier::when_used_as_spec(spec_value)]
    pub fn value(self) -> (b: bool)
        ensures
            b == false,
            b == self.spec_value(),
    {
        false
    }
}

} // verus!
