use core_nft::icrc7::{
    check_query_batch, icrc7_balance_of, icrc7_owner_of, icrc7_token_metadata, icrc7_tokens, icrc7_total_supply,
    icrc7_tokens_of,
};
use core_nft::keyed::{DeepCopy, MapKey};
use core_nft::ledger::{Account, Icrc7Token, TokenLedger};
use core_nft::principal::PrincipalId;

fn account(b: u8, sub: Option<[u8; 32]>) -> Account {
    Account { owner: PrincipalId::from_bytes(vec![b, 7]).unwrap(), subaccount: sub }
}

fn token(id: u128, owner: Account) -> Icrc7Token {
    Icrc7Token::new(id, format!("T{}", id), None, None, owner)
}

fn ledger() -> TokenLedger {
    let mut l = TokenLedger::new();
    l.add_token(&token(3, account(1, None)));
    l.add_token(&token(1, account(2, None)));
    l.add_token(&token(2, account(1, Some([0; 32]))));
    l.add_token(&token(7, account(1, Some([1; 32]))));
    l
}

#[test]
fn default_subaccount_is_the_zero_subaccount() {
    assert!(account(1, None).key_eq(&account(1, Some([0; 32]))));
    assert!(!account(1, None).key_eq(&account(1, Some([1; 32]))));
    assert!(!account(1, None).key_eq(&account(2, None)));
}

#[test]
fn balance_and_ids_of_an_account() {
    let l = ledger();
    assert_eq!(l.total_supply(), 4);
    assert_eq!(icrc7_total_supply(&l), 4);
    assert_eq!(l.tokens_balance_of(&account(1, None)), 2);
    let mut ids = l.tokens_ids_of_account(&account(1, None));
    ids.sort();
    assert_eq!(ids, vec![2, 3]);
    assert_eq!(l.tokens_of_account(&account(1, Some([1; 32]))).len(), 1);
    assert_eq!(l.tokens_balance_of(&account(9, None)), 0);
}

#[test]
fn owner_of_existing_and_missing_tokens() {
    let l = ledger();
    let r = icrc7_owner_of(&l, &vec![1, 5], None, 100).unwrap();
    assert!(r[0].as_ref().unwrap().key_eq(&account(2, None)));
    assert!(r[1].is_none());
}

#[test]
fn transfer_moves_balance() {
    let mut l = ledger();
    let mut t = l.get_token_by_id(1).unwrap().deep_copy();
    t.transfer(account(1, None));
    l.update_token_by_id(1, &t);
    assert_eq!(l.tokens_balance_of(&account(1, None)), 3);
    assert_eq!(l.tokens_balance_of(&account(2, None)), 0);
}

#[test]
fn query_batch_limit_is_enforced() {
    assert!(check_query_batch(3, Some(3), 100).is_ok());
    assert_eq!(
        check_query_batch(4, Some(3), 100),
        Err("max_query_batch_size exceeded. Limit is 3. Retry with a smaller batch size.".to_string())
    );
    assert_eq!(
        icrc7_balance_of(&ledger(), &vec![account(1, None), account(2, None)], Some(1), 100),
        Err("max_query_batch_size exceeded. Limit is 1. Retry with a smaller batch size.".to_string())
    );
    assert_eq!(
        icrc7_balance_of(&ledger(), &vec![account(1, None), account(2, None)], None, 100),
        Ok(vec![2, 1])
    );
}

#[test]
fn token_metadata_lists_name_twice() {
    let mut l = TokenLedger::new();
    l.add_token(&Icrc7Token::new(
        4,
        "Art".to_string(),
        Some("nice".to_string()),
        None,
        account(1, None),
    ));
    let md = icrc7_token_metadata(&l, &vec![4, 5], None, 10).unwrap();
    assert_eq!(
        md[0].clone().unwrap(),
        vec![
            ("Description".to_string(), "nice".to_string()),
            ("Name".to_string(), "Art".to_string()),
            ("Symbol".to_string(), "Art".to_string()),
        ]
    );
    assert!(md[1].is_none());
}

#[test]
fn token_pages_are_sorted() {
    let l = ledger();
    assert_eq!(icrc7_tokens(&l, None, None, 10, None), Ok(vec![1, 2, 3, 7]));
    assert_eq!(icrc7_tokens(&l, Some(2), Some(1), 10, None), Ok(vec![3]));
    assert_eq!(
        icrc7_tokens(&l, None, Some(11), 10, None),
        Err("max_take_value exceeded. Limit is 10. Retry with a smaller take value.".to_string())
    );
    assert_eq!(icrc7_tokens_of(&l, &account(1, None), None, None, 10, Some(1)), Ok(vec![2]));
}
