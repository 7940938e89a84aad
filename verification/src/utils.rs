//! Helpers that contracts reach for often.

use crate::account::AccountId;
use crate::context::{Context, PromiseResult, Refusal};
use vstd::prelude::*;
use vstd::slice::slice_to_vec;
use vstd::utf8::encode_utf8;

verus! {

/// `serde_json::Value`, declared so that a value can be handed through.
/// Nothing is known of what a value holds.
#[verifier::external_type_specification]
#[verifier::external_body]
pub struct ExJsonValue(serde_json::Value);

/// The compact JSON text of a value: what `serde_json::Value::to_string`
/// returns for it.
pub uninterp spec fn json_text(value: serde_json::Value) -> Seq<char>;

/// `serde_json::Value::to_string`: the compact JSON text of the value,
/// which depends on the value alone.
#[verifier::external_body]
fn json_to_string(value: &serde_json::Value) -> (text: String)
    ensures
        text@ == json_text(*value),
{
    value.to_string()
}

/// Passes only if the contract called itself.
pub fn assert_self(context: &Context) -> (result: Result<(), Refusal>)
    ensures
        result is Ok <==> context.predecessor_account_id@ == context.current_account_id@,
        result is Err ==> result.unwrap_err() == Refusal::NotSelf,
{
    if context.predecessor_account_id == context.current_account_id {
        Ok(())
    } else {
        Err(Refusal::NotSelf)
    }
}

/// Passes only if exactly one yocto was attached to the call.
pub fn assert_one_yocto(context: &Context) -> (result: Result<(), Refusal>)
    ensures
        result is Ok <==> context.attached_deposit == 1,
        result is Err ==> result.unwrap_err() == Refusal::NotOneYocto,
{
    if context.attached_deposit == 1 {
        Ok(())
    } else {
        Err(Refusal::NotOneYocto)
    }
}

/// Whether the one promise that this call is a callback of succeeded.
/// Refused unless the call received exactly one promise result.
pub fn is_promise_success(context: &Context) -> (result: Result<bool, Refusal>)
    ensures
        result is Ok <==> context.promise_results@.len() == 1,
        result is Ok ==> result.unwrap() == (context.promise_results@[0] is Successful),
        result is Err ==> result.unwrap_err() == Refusal::NoSingleResult,
{
    match promise_result_as_success(context) {
        Ok(bytes) => Ok(bytes.is_some()),
        Err(refusal) => Err(refusal),
    }
}

/// What the one promise that this call is a callback of returned, if it
/// succeeded. Refused unless the call received exactly one promise
/// result.
pub fn promise_result_as_success(context: &Context) -> (result: Result<Option<Vec<u8>>, Refusal>)
    ensures
        result is Ok <==> context.promise_results@.len() == 1,
        result is Ok ==> (result.unwrap() is Some <==> context.promise_results@[0] is Successful),
        result is Ok && result.unwrap() is Some ==> result.unwrap().unwrap()@
            == context.promise_results@[0]->Successful_0@,
        result is Err ==> result.unwrap_err() == Refusal::NoSingleResult,
{
    if context.promise_results.len() != 1 {
        return Err(Refusal::NoSingleResult);
    }
    match &context.promise_results[0] {
        PromiseResult::Successful(bytes) => Ok(Some(slice_to_vec(bytes.as_slice()))),
        _ => Ok(None),
    }
}

/// A call to a contract that has been put together and not yet sent.
#[derive(Debug)]
pub struct PendingContractTx {
    /// The account that the call goes to.
    pub receiver_id: AccountId,
    /// The name of the method that is called.
    pub method: String,
    /// The arguments, encoded.
    pub args: Vec<u8>,
    /// Whether the call only reads.
    pub is_view: bool,
}

impl PendingContractTx {
    /// A call whose arguments are the compact JSON text of `args`.
    pub fn new(
        receiver_id: AccountId,
        method: &str,
        args: serde_json::Value,
        is_view: bool,
    ) -> (tx: PendingContractTx)
        ensures
            tx.receiver_id == receiver_id,
            tx.method@ == method@,
            tx.args@ == encode_utf8(json_text(args)),
            tx.is_view == is_view,
    {
        let text = json_to_string(&args);
        let bytes = slice_to_vec(text.as_str().as_bytes());
        PendingContractTx::new_from_bytes(receiver_id, method, bytes, is_view)
    }

    /// A call whose arguments are already encoded.
    pub fn new_from_bytes(
        receiver_id: AccountId,
        method: &str,
        args: Vec<u8>,
        is_view: bool,
    ) -> (tx: PendingContractTx)
        ensures
            tx.receiver_id == receiver_id,
            tx.method@ == method@,
            tx.args == args,
            tx.is_view == is_view,
    {
        PendingContractTx { receiver_id, method: method.to_owned(), args, is_view }
    }
}

/// A value together with the input of the method that it serves.
pub struct InputWrapped<'this, T, I> {
    /// The value.
    pub inner: &'this T,
    /// The input.
    pub input: I,
}

/// Whether a method changes state.
#[derive(Clone, Copy, Debug, PartialEq, Eq, Structural)]
pub enum NearMethod {
    /// The method only reads.
    View,
    /// The method may write.
    Call,
}

/// What is known of a method of a contract.
pub trait Method {
    /// The name of the method.
    const NAME: &'static str;
    /// Whether the method only reads.
    const NEAR_METHOD: NearMethod;
    /// What the method does.
    const DESCRIPTION: &'static str;
    /// What the method returns.
    const RESPONSE_DESCRIPTION: &'static str;
    /// Whether the method takes no input.
    const NO_ARGS: bool;
    /// Whether the method returns nothing.
    const NO_RETURN: bool;
    /// The input of the method.
    type Input;
    /// The output of the method.
    type Output;
}

/// A handle on a contract that can be made from the name of the account
/// that the contract runs under.
pub trait WithAccount: Sized {
    /// The handle for the contract of `account_id`.
    fn with_account(account_id: AccountId) -> Self;
}

/// A type that gives access to a contract.
pub trait HasContract<Local> {
    /// The contract.
    type Contract;

    /// The contract that this value gives access to.
    fn contract(&self) -> &Self::Contract;
}

} // verus!
