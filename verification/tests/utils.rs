use near_store::account::AccountId;
use near_store::context::{Context, PromiseResult, Refusal};
use near_store::utils::{
    assert_one_yocto, assert_self, is_promise_success, promise_result_as_success,
    PendingContractTx,
};

fn account(name: &str) -> AccountId {
    AccountId::new(name.to_string())
}

fn context() -> Context {
    Context::new(account("alice"), account("bob"), account("bob"))
}

fn get_logs(context: &Context) -> Vec<String> {
    context.logs.clone()
}

#[test]
fn test_log_simple() {
    let mut context = context();
    context.log_str("hello");

    assert_eq!(get_logs(&context), vec!["hello".to_string()]);
}

#[test]
fn test_log_format() {
    let mut context = context();
    context.log_str(format!("hello {} ({})", "user_name", 25).as_str());

    assert_eq!(get_logs(&context), vec!["hello user_name (25)".to_string()]);
}

#[test]
fn logs_keep_their_order() {
    let mut context = context();
    context.log_str("one");
    context.log_str("two");
    context.log_str("");
    assert_eq!(get_logs(&context), vec!["one".to_string(), "two".to_string(), String::new()]);
    assert_eq!(context.attached_deposit, 0);
    assert_eq!(context.predecessor_account_id, account("bob"));
}

#[test]
fn a_new_context_is_plain() {
    let context = context();
    assert_eq!(context.current_account_id, account("alice"));
    assert_eq!(context.signer_account_id, account("bob"));
    assert_eq!(context.predecessor_account_id, account("bob"));
    assert_eq!(context.attached_deposit, 0);
    assert!(context.promise_results.is_empty());
    assert!(context.logs.is_empty());
}

#[test]
fn assert_self_passes_for_the_contract_itself() {
    let context = Context::new(account("alice"), account("bob"), account("alice"));
    assert_eq!(assert_self(&context), Ok(()));
}

#[test]
fn assert_self_refuses_others() {
    let refusal = assert_self(&context()).unwrap_err();
    assert_eq!(refusal, Refusal::NotSelf);
    assert_eq!(refusal.message(), "Method is private");
}

#[test]
fn assert_one_yocto_wants_exactly_one() {
    let mut context = context();
    assert_eq!(assert_one_yocto(&context), Err(Refusal::NotOneYocto));
    context.attached_deposit = 1;
    assert_eq!(assert_one_yocto(&context), Ok(()));
    context.attached_deposit = 2;
    assert_eq!(assert_one_yocto(&context), Err(Refusal::NotOneYocto));
    context.attached_deposit = u128::MAX;
    assert_eq!(assert_one_yocto(&context), Err(Refusal::NotOneYocto));
    assert_eq!(
        Refusal::NotOneYocto.message(),
        "Requires attached deposit of exactly 1 yoctoNEAR"
    );
}

#[test]
fn a_successful_promise_gives_its_bytes() {
    let mut context = context();
    context.promise_results.push(PromiseResult::Successful(vec![1, 2, 3]));
    assert_eq!(promise_result_as_success(&context), Ok(Some(vec![1, 2, 3])));
    assert_eq!(is_promise_success(&context), Ok(true));
}

#[test]
fn a_successful_promise_may_return_nothing() {
    let mut context = context();
    context.promise_results.push(PromiseResult::Successful(Vec::new()));
    assert_eq!(promise_result_as_success(&context), Ok(Some(Vec::new())));
    assert_eq!(is_promise_success(&context), Ok(true));
}

#[test]
fn a_failed_promise_gives_nothing() {
    let mut context = context();
    context.promise_results.push(PromiseResult::Failed);
    assert_eq!(promise_result_as_success(&context), Ok(None));
    assert_eq!(is_promise_success(&context), Ok(false));
}

#[test]
fn an_unfinished_promise_gives_nothing() {
    let mut context = context();
    context.promise_results.push(PromiseResult::NotReady);
    assert_eq!(promise_result_as_success(&context), Ok(None));
    assert_eq!(is_promise_success(&context), Ok(false));
}

#[test]
fn promise_helpers_want_exactly_one_result() {
    let mut context = context();
    assert_eq!(promise_result_as_success(&context), Err(Refusal::NoSingleResult));
    assert_eq!(is_promise_success(&context), Err(Refusal::NoSingleResult));
    context.promise_results.push(PromiseResult::Successful(vec![7]));
    context.promise_results.push(PromiseResult::Successful(vec![8]));
    assert_eq!(promise_result_as_success(&context), Err(Refusal::NoSingleResult));
    assert_eq!(is_promise_success(&context), Err(Refusal::NoSingleResult));
    assert_eq!(
        Refusal::NoSingleResult.message(),
        "Contract expected a result on the callback"
    );
}

#[test]
fn a_pending_call_keeps_its_bytes() {
    let tx = PendingContractTx::new_from_bytes(account("carol"), "ping", vec![9, 8, 7], true);
    assert_eq!(tx.receiver_id, account("carol"));
    assert_eq!(tx.method, "ping");
    assert_eq!(tx.args, vec![9, 8, 7]);
    assert!(tx.is_view);
}

#[test]
fn a_pending_call_renders_json_compactly() {
    let mut object = serde_json::Map::new();
    object.insert("b".to_string(), serde_json::Value::from(2u64));
    object.insert(
        "a".to_string(),
        serde_json::Value::Array(vec![serde_json::Value::Bool(true), serde_json::Value::Null]),
    );
    let tx = PendingContractTx::new(
        account("carol"),
        "set",
        serde_json::Value::Object(object),
        false,
    );
    assert_eq!(tx.receiver_id, account("carol"));
    assert_eq!(tx.method, "set");
    assert_eq!(tx.args, b"{\"a\":[true,null],\"b\":2}".to_vec());
    assert!(!tx.is_view);
}

#[test]
fn a_pending_call_renders_a_json_string_with_quotes() {
    let tx = PendingContractTx::new(
        account("carol"),
        "say",
        serde_json::Value::String("h\u{e9}".to_string()),
        true,
    );
    assert_eq!(tx.args, vec![b'"', b'h', 0xc3, 0xa9, b'"']);
}
