//! Identities of the participants.
//!
//! The rules only ever ask whether two identities are the same one, so an
//! identity is modelled by the text that names it.

use vstd::prelude::*;
use vstd::std_specs::cmp::PartialEqSpecImpl;

verus! {

/// The identity of a participant: the text under which the surrounding
/// system knows them.
#[derive(Debug, Eq, Hash)]
pub struct Address(pub String);

impl View for Address {
    type V = Seq<char>;

    open spec fn view(&self) -> Seq<char> {
        self.0@
    }
}

impl PartialEq for Address {
    fn eq(&self, other: &Address) -> (same: bool) {
        self.0 == other.0
    }
}

impl PartialEqSpecImpl for Address {
    open spec fn obeys_eq_spec() -> bool {
        true
    }

    open spec fn eq_spec(&self, other: &Address) -> bool {
        self@ == other@
    }
}

impl Clone for Address {
    fn clone(&self) -> (copy: Address)
        ensures
            copy@ == self@,
    {
        Address(self.0.clone())
    }
}

impl Address {
    /// The identity named by `text`.
    pub fn from_text(text: &str) -> (address: Address)
        ensures
            address@ == text@,
    {
        Address(String::from_str(text))
    }
}

} // verus!
