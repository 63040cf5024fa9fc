//! Normalized host names, including SVCB/HTTPS service target names.

use vstd::prelude::*;

verus! {

/// A host name the engine may query: the primary target, or a name
/// discovered in an HTTPS record. Equality is by byte value.
#[derive(Debug)]
pub struct TargetName(pub String);

impl View for TargetName {
    type V = Seq<char>;

    open spec fn view(&self) -> Seq<char> {
        self.0@
    }
}

impl Clone for TargetName {
    fn clone(&self) -> (r: Self)
        ensures
            r@ == self@,
    {
        TargetName(self.0.clone())
    }
}

impl PartialEq for TargetName {
    fn eq(&self, other: &Self) -> (r: bool) {
        self.0 == other.0
    }
}

impl vstd::std_specs::cmp::PartialEqSpecImpl for TargetName {
    open spec fn obeys_eq_spec() -> bool {
        true
    }

    open spec fn eq_spec(&self, other: &Self) -> bool {
        self@ == other@
    }
}

impl From<&str> for TargetName {
    fn from(s: &str) -> (r: Self)
        ensures
            r@ == s@,
    {
        TargetName(s.to_owned())
    }
}

impl vstd::std_specs::convert::FromSpecImpl<&str> for TargetName {
    open spec fn obeys_from_spec() -> bool {
        false
    }

    open spec fn from_spec(s: &str) -> Self {
        arbitrary()
    }
}

} // verus!
