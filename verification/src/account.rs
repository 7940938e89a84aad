//! Account names.

use vstd::prelude::*;

verus! {

/// The name of an account.
#[derive(Debug)]
pub struct AccountId {
    name: String,
}

impl View for AccountId {
    type V = Seq<char>;

    closed spec fn view(&self) -> Seq<char> {
        self.name@
    }
}

impl AccountId {
    /// The account with the given name.
    pub fn new(name: String) -> (id: AccountId)
        ensures
            id@ == name@,
    {
        AccountId { name }
    }

    /// The name of the account.
    pub fn as_str(&self) -> (name: &str)
        ensures
            name@ == self@,
    {
        self.name.as_str()
    }
}

impl Clone for AccountId {
    fn clone(&self) -> (id: AccountId)
        ensures
            id@ == self@,
    {
        AccountId { name: self.name.clone() }
    }
}

impl PartialEq for AccountId {
    fn eq(&self, other: &AccountId) -> (same: bool) {
        self.name == other.name
    }
}

impl vstd::std_specs::cmp::PartialEqSpecImpl for AccountId {
    open spec fn obeys_eq_spec() -> bool {
        true
    }

    open spec fn eq_spec(&self, other: &AccountId) -> bool {
        self@ == other@
    }
}

impl Eq for AccountId {

}

} // verus!
