use core_nft::keyed::KeyedMap;
use core_nft::ledger::{Account, Icrc7Token, TokenLedger};
use core_nft::metadata_store::{update_nft_metadata, Metadata, UpdateNftMetadataError};
use core_nft::principal::PrincipalId;

fn map(pairs: &[(&str, u128)]) -> KeyedMap<String, u128> {
    let mut m = KeyedMap::new();
    for (k, v) in pairs {
        m.insert(k.to_string(), *v);
    }
    m
}

#[test]
fn insert_then_get_gives_value_back() {
    let mut s: Metadata<u128> = Metadata::new();
    s.insert_data(Some(5), "name".to_string(), 10);
    s.insert_data(None, "logo".to_string(), 20);
    assert_eq!(s.get_data(Some(5), &"name".to_string()), Ok(10));
    assert_eq!(s.get_data(Some(0), &"logo".to_string()), Ok(20));
    assert_eq!(s.get_data(None, &"logo".to_string()), Ok(20));
    assert_eq!(s.get_data(Some(5), &"logo".to_string()), Err("Data not found".to_string()));
    assert_eq!(s.get_data(Some(6), &"name".to_string()), Err("Data not found".to_string()));
}

#[test]
fn from_puts_collection_data_under_token_zero() {
    let s = Metadata::from(&map(&[("a", 1), ("b", 2)]));
    assert_eq!(s.get_data(None, &"b".to_string()), Ok(2));
    assert_eq!(s.get_all_nfts_ids(), Ok(vec![0]));
    let empty = Metadata::from(&map(&[]));
    assert_eq!(empty.get_all_nfts_ids(), Ok(vec![]));
}

#[test]
fn update_returns_previous_value() {
    let mut s: Metadata<u128> = Metadata::new();
    assert_eq!(s.update_data(Some(1), "k".to_string(), 3), Err("Data not found".to_string()));
    s.insert_data(Some(1), "k".to_string(), 3);
    assert_eq!(s.update_data(Some(1), "k".to_string(), 4), Ok(Some(3)));
    assert_eq!(s.update_data(Some(1), "j".to_string(), 5), Ok(None));
    assert_eq!(s.get_data(Some(1), &"k".to_string()), Ok(4));
    assert_eq!(s.get_data(Some(1), &"j".to_string()), Ok(5));
}

#[test]
fn all_data_merges_tokens_in_increasing_order() {
    let mut s: Metadata<u128> = Metadata::new();
    s.insert_data(Some(9), "x".to_string(), 90);
    s.insert_data(Some(2), "x".to_string(), 20);
    s.insert_data(Some(2), "y".to_string(), 21);
    assert_eq!(s.get_all_nfts_ids(), Ok(vec![2, 9]));
    let all = s.get_all_data(None).unwrap();
    assert_eq!(all.len(), 2);
    assert_eq!(all.get(&"x".to_string()), Some(&90));
    assert_eq!(all.get(&"y".to_string()), Some(&21));
    let two = s.get_all_data(Some(2)).unwrap();
    assert_eq!(two.len(), 2);
    assert!(s.get_all_data(Some(3)).is_err());
}

#[test]
fn delete_leaves_store_unchanged() {
    let mut s: Metadata<u128> = Metadata::new();
    s.insert_data(Some(1), "k".to_string(), 3);
    s.delete_data(Some(1), &"k".to_string());
    assert_eq!(s.get_data(Some(1), &"k".to_string()), Ok(3));
}

#[test]
fn replace_all_data_swaps_token_data() {
    let mut s: Metadata<u128> = Metadata::new();
    s.insert_data(Some(1), "k".to_string(), 3);
    s.replace_all_data(Some(1), map(&[("m", 7)]));
    assert_eq!(s.get_data(Some(1), &"k".to_string()), Err("Data not found".to_string()));
    assert_eq!(s.get_data(Some(1), &"m".to_string()), Ok(7));
    s.replace_all_data(Some(1), map(&[]));
    assert_eq!(s.get_all_nfts_ids(), Ok(vec![]));
}

#[test]
fn update_nft_metadata_replaces_token_data() {
    let owner = Account { owner: PrincipalId::from_bytes(vec![1]).unwrap(), subaccount: None };
    let mut ledger = TokenLedger::new();
    ledger.add_token(&Icrc7Token::new(4, "A".to_string(), None, None, owner));
    let mut s: Metadata<u128> = Metadata::new();
    s.insert_data(Some(4), "old".to_string(), 1);
    let (before, after) = update_nft_metadata(&ledger, &mut s, 4, map(&[("new", 2)])).unwrap();
    assert_eq!(before.get(&"old".to_string()), Some(&1));
    assert_eq!(after.len(), 1);
    assert_eq!(after.get(&"new".to_string()), Some(&2));
    assert_eq!(s.get_data(Some(4), &"old".to_string()), Err("Data not found".to_string()));
    assert!(matches!(
        update_nft_metadata(&ledger, &mut s, 5, map(&[])),
        Err(UpdateNftMetadataError::TokenDoesNotExist)
    ));
}
