//! What a call knows of its surroundings: who called, what was attached,
//! what earlier promises returned. The host fills one of these in for
//! every call; the functions of this library read it and never reach
//! for the host themselves.

use crate::account::AccountId;
use vstd::prelude::*;

verus! {

/// The outcome of a promise that the current call is a callback of.
#[derive(Debug)]
pub enum PromiseResult {
    /// The promise has not finished.
    NotReady,
    /// The promise finished and returned these bytes.
    Successful(Vec<u8>),
    /// The promise failed.
    Failed,
}

/// Why a guarded call is refused.
#[derive(Clone, Copy, Debug, PartialEq, Eq, Structural)]
pub enum Refusal {
    /// The caller is not the owner.
    NotOwner,
    /// The caller is not the contract itself.
    NotSelf,
    /// The attached deposit is not exactly one yocto.
    NotOneYocto,
    /// The call is not a callback of exactly one promise.
    NoSingleResult,
}

/// The surroundings of one call.
#[derive(Debug)]
pub struct Context {
    /// The account that the contract runs under.
    pub current_account_id: AccountId,
    /// The account that signed the transaction.
    pub signer_account_id: AccountId,
    /// The account that made this call.
    pub predecessor_account_id: AccountId,
    /// The deposit attached to the call, in yocto.
    pub attached_deposit: u128,
    /// The results of the promises that this call is a callback of.
    pub promise_results: Vec<PromiseResult>,
    /// The messages logged during the call, oldest first.
    pub logs: Vec<String>,
}

impl Context {
    /// The surroundings of a plain call: no deposit, no promise results,
    /// nothing logged.
    pub fn new(
        current_account_id: AccountId,
        signer_account_id: AccountId,
        predecessor_account_id: AccountId,
    ) -> (context: Context)
        ensures
            context.current_account_id == current_account_id,
            context.signer_account_id == signer_account_id,
            context.predecessor_account_id == predecessor_account_id,
            context.attached_deposit == 0,
            context.promise_results@ == Seq::<PromiseResult>::empty(),
            context.logs@ == Seq::<String>::empty(),
    {
        Context {
            current_account_id,
            signer_account_id,
            predecessor_account_id,
            attached_deposit: 0,
            promise_results: Vec::new(),
            logs: Vec::new(),
        }
    }

    /// Appends `message` to the log.
    pub fn log_str(&mut self, message: &str)
        ensures
            final(self).logs@.len() == old(self).logs@.len() + 1,
            final(self).logs@.last()@ == message@,
            final(self).logs@.drop_last() == old(self).logs@,
            final(self).current_account_id == old(self).current_account_id,
            final(self).signer_account_id == old(self).signer_account_id,
            final(self).predecessor_account_id == old(self).predecessor_account_id,
            final(self).attached_deposit == old(self).attached_deposit,
            final(self).promise_results == old(self).promise_results,
    {
        self.logs.push(message.to_owned());
    }
}

impl Refusal {
    /// The message that goes with the refusal.
    pub fn message(&self) -> (text: &'static str)
        ensures
            text@ == (match *self {
                Refusal::NotOwner => "Ownable: caller is not the owner"@,
                Refusal::NotSelf => "Method is private"@,
                Refusal::NotOneYocto => "Requires attached deposit of exactly 1 yoctoNEAR"@,
                Refusal::NoSingleResult => "Contract expected a result on the callback"@,
            }),
    {
        match self {
            Refusal::NotOwner => "Ownable: caller is not the owner",
            Refusal::NotSelf => "Method is private",
            Refusal::NotOneYocto => "Requires attached deposit of exactly 1 yoctoNEAR",
            Refusal::NoSingleResult => "Contract expected a result on the callback",
        }
    }
}

} // verus!
