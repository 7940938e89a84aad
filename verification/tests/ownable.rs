use near_store::account::AccountId;
use near_store::context::{Context, Refusal};
use near_store::ownable::Ownable;

fn accounts(id: usize) -> AccountId {
    let names = ["alice", "bob", "charlie", "danny", "eugene", "fargo"];
    AccountId::new(names[id].to_string())
}

fn get_context(predecessor_account_id: AccountId) -> Context {
    Context::new(accounts(0), predecessor_account_id.clone(), predecessor_account_id)
}

#[test]
fn test_new() {
    let context = get_context(accounts(1));
    let ownable = Ownable::new(&context);
    assert_eq!(ownable.owner(), Some(accounts(1)));
}

#[test]
fn test_only_owner_success() {
    let context = get_context(accounts(1));
    let ownable = Ownable::new(&context);
    assert_eq!(ownable.only_owner(&context), Ok(()));
}

#[test]
fn only_owner_refuses_another_caller() {
    let context = get_context(accounts(1));
    let ownable = Ownable::new(&context);
    let context = get_context(accounts(2));
    let refusal = ownable.only_owner(&context).unwrap_err();
    assert_eq!(refusal, Refusal::NotOwner);
    assert_eq!(refusal.message(), "Ownable: caller is not the owner");
}

#[test]
fn test_renounce_ownership() {
    let context = get_context(accounts(1));
    let mut ownable = Ownable::new(&context);
    assert_eq!(ownable.owner(), Some(accounts(1)));
    assert_eq!(ownable.renounce_ownership(&context), Ok(()));
    assert_eq!(ownable.owner(), None);
}

#[test]
fn test_transfer_ownership() {
    let context = get_context(accounts(1));
    let mut ownable = Ownable::new(&context);
    assert_eq!(ownable.owner(), Some(accounts(1)));
    assert_eq!(ownable.transfer_ownership(&context, accounts(2)), Ok(()));
    assert_eq!(ownable.owner(), Some(accounts(2)));
}

#[test]
fn renounce_by_another_caller_changes_nothing() {
    let mut ownable = Ownable::new(&get_context(accounts(1)));
    let stranger = get_context(accounts(3));
    assert_eq!(ownable.renounce_ownership(&stranger), Err(Refusal::NotOwner));
    assert_eq!(ownable.owner(), Some(accounts(1)));
}

#[test]
fn transfer_by_another_caller_changes_nothing() {
    let mut ownable = Ownable::new(&get_context(accounts(1)));
    let stranger = get_context(accounts(3));
    assert_eq!(ownable.transfer_ownership(&stranger, accounts(3)), Err(Refusal::NotOwner));
    assert_eq!(ownable.owner(), Some(accounts(1)));
}

#[test]
fn nobody_owns_a_renounced_record() {
    let context = get_context(accounts(1));
    let mut ownable = Ownable::new(&context);
    assert_eq!(ownable.renounce_ownership(&context), Ok(()));
    assert_eq!(ownable.only_owner(&context), Err(Refusal::NotOwner));
    assert_eq!(ownable.transfer_ownership(&context, accounts(1)), Err(Refusal::NotOwner));
    assert_eq!(ownable.owner(), None);
}

#[test]
fn the_new_owner_takes_over() {
    let first = get_context(accounts(1));
    let second = get_context(accounts(2));
    let mut ownable = Ownable::new(&first);
    assert_eq!(ownable.transfer_ownership(&first, accounts(2)), Ok(()));
    assert_eq!(ownable.only_owner(&first), Err(Refusal::NotOwner));
    assert_eq!(ownable.only_owner(&second), Ok(()));
}

#[test]
fn account_names_compare_by_their_text() {
    assert_eq!(accounts(4), AccountId::new("eugene".to_string()));
    assert_ne!(accounts(4), accounts(5));
    assert_eq!(accounts(5).as_str(), "fargo");
    assert_eq!(accounts(2).clone(), accounts(2));
}
