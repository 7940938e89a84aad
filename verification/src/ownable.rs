//! Single-owner gating: a record of who owns a contract, and the checks
//! that let only the owner change it.

use crate::account::AccountId;
use crate::context::{Context, Refusal};
use vstd::prelude::*;

verus! {

/// The owner of a contract, if it has one.
#[derive(Debug)]
pub struct Ownable {
    /// The owning account; `None` once ownership has been renounced.
    pub owner: Option<AccountId>,
}

impl View for Ownable {
    type V = Option<Seq<char>>;

    open spec fn view(&self) -> Option<Seq<char>> {
        match self.owner {
            Some(owner) => Some(owner@),
            None => None,
        }
    }
}

impl Ownable {
    /// A record owned by the caller.
    pub fn new(context: &Context) -> (ownable: Ownable)
        ensures
            ownable@ == Some(context.predecessor_account_id@),
    {
        Ownable { owner: Some(context.predecessor_account_id.clone()) }
    }

    /// The owner, if there is one.
    pub fn owner(&self) -> (owner: Option<AccountId>)
        ensures
            owner is Some <==> self@ is Some,
            owner is Some ==> owner.unwrap()@ == self@.unwrap(),
    {
        match &self.owner {
            Some(owner) => Some(owner.clone()),
            None => None,
        }
    }

    /// Passes only if the caller is the owner.
    pub fn only_owner(&self, context: &Context) -> (result: Result<(), Refusal>)
        ensures
            result is Ok <==> self@ == Some(context.predecessor_account_id@),
            result is Err ==> result.unwrap_err() == Refusal::NotOwner,
    {
        match &self.owner {
            Some(owner) => {
                if *owner == context.predecessor_account_id {
                    Ok(())
                } else {
                    Err(Refusal::NotOwner)
                }
            },
            None => Err(Refusal::NotOwner),
        }
    }

    /// Gives ownership up, for good: afterwards nobody is the owner.
    /// Refused, with nothing changed, unless the caller is the owner.
    pub fn renounce_ownership(&mut self, context: &Context) -> (result: Result<(), Refusal>)
        ensures
            result is Ok <==> old(self)@ == Some(context.predecessor_account_id@),
            result is Ok ==> final(self)@ is None,
            result is Err ==> result.unwrap_err() == Refusal::NotOwner,
            result is Err ==> *final(self) == *old(self),
    {
        match self.only_owner(context) {
            Ok(()) => {
                self.owner = None;
                Ok(())
            },
            Err(refusal) => Err(refusal),
        }
    }

    /// Hands ownership to `new_owner`. Refused, with nothing changed,
    /// unless the caller is the owner.
    pub fn transfer_ownership(
        &mut self,
        context: &Context,
        new_owner: AccountId,
    ) -> (result: Result<(), Refusal>)
        ensures
            result is Ok <==> old(self)@ == Some(context.predecessor_account_id@),
            result is Ok ==> final(self)@ == Some(new_owner@),
            result is Err ==> result.unwrap_err() == Refusal::NotOwner,
            result is Err ==> *final(self) == *old(self),
    {
        match self.only_owner(context) {
            Ok(()) => {
                self.owner = Some(new_owner);
                Ok(())
            },
            Err(refusal) => Err(refusal),
        }
    }
}

} // verus!
