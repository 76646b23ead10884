use core_nft::keyed::KeyedSet;
use core_nft::principal::PrincipalId;
use core_nft::collection::{
    update_collection_metadata, CollectionSettings, CollectionUpdate, MetadataValue,
    UpdateCollectionMetadataError,
};

fn settings() -> CollectionSettings<u64> {
    CollectionSettings {
        symbol: "SYM".to_string(),
        name: "Name".to_string(),
        description: None,
        logo: None,
        supply_cap: None,
        max_query_batch_size: None,
        max_update_batch_size: None,
        max_take_value: None,
        default_take_value: None,
        max_memo_size: None,
        atomic_batch_transfers: None,
        tx_window: None,
        permitted_drift: None,
        max_canister_storage_threshold: None,
        custom_collection_metadata: vec![],
    }
}

fn no_update() -> CollectionUpdate<u64> {
    CollectionUpdate {
        symbol: None,
        name: None,
        description: None,
        logo: None,
        supply_cap: None,
        max_query_batch_size: None,
        max_update_batch_size: None,
        max_take_value: None,
        default_take_value: None,
        max_memo_size: None,
        atomic_batch_transfers: None,
        tx_window: None,
        permitted_drift: None,
        max_canister_storage_threshold: None,
        collection_metadata: None,
    }
}

fn keys(m: &[(String, MetadataValue<u64>)]) -> Vec<&str> {
    m.iter().map(|(k, _)| k.as_str()).collect()
}

#[test]
fn metadata_of_minimal_settings_is_sorted() {
    let m = settings().collection_metadata(7);
    assert_eq!(keys(&m), vec!["icrc7:name", "icrc7:symbol", "icrc7:total_supply"]);
    assert_eq!(m[0].1, MetadataValue::Text("Name".to_string()));
    assert_eq!(m[1].1, MetadataValue::Text("SYM".to_string()));
    assert_eq!(m[2].1, MetadataValue::Nat(7));
}

#[test]
fn metadata_holds_every_set_value_and_custom_entries() {
    let mut s = settings();
    s.description = Some("desc".to_string());
    s.logo = Some("logo.png".to_string());
    s.supply_cap = Some(100);
    s.max_memo_size = Some(32);
    s.atomic_batch_transfers = Some(false);
    s.tx_window = Some(60);
    s.custom_collection_metadata = vec![("zeta".to_string(), 1), ("alpha".to_string(), 2)];
    let m = s.collection_metadata(3);
    assert_eq!(
        keys(&m),
        vec![
            "alpha",
            "icrc7:atomic_batch_transfers",
            "icrc7:description",
            "icrc7:logo",
            "icrc7:max_memo_size",
            "icrc7:name",
            "icrc7:supply_cap",
            "icrc7:symbol",
            "icrc7:total_supply",
            "icrc7:tx_window",
            "zeta",
        ]
    );
    assert_eq!(m[0].1, MetadataValue::Custom(2));
    assert_eq!(m[1].1, MetadataValue::Text("false".to_string()));
    assert_eq!(m[4].1, MetadataValue::Nat(32));
    assert_eq!(m[10].1, MetadataValue::Custom(1));
}

#[test]
fn metadata_keeps_order_of_equal_keys() {
    let mut s = settings();
    s.custom_collection_metadata = vec![("k".to_string(), 5), ("k".to_string(), 6)];
    let m = s.collection_metadata(0);
    assert_eq!(m[0].0, "icrc7:name");
    assert_eq!(m[3].1, MetadataValue::Custom(5));
    assert_eq!(m[4].1, MetadataValue::Custom(6));
}

#[test]
fn update_replaces_given_settings_only() {
    let mut s = settings();
    s.logo = Some("old".to_string());
    let mut u = no_update();
    u.symbol = Some("NEW".to_string());
    u.supply_cap = Some(10);
    u.atomic_batch_transfers = Some(true);
    assert!(update_collection_metadata(&KeyedSet::new(), &mut s, u).is_ok());
    assert_eq!(s.symbol, "NEW");
    assert_eq!(s.name, "Name");
    assert_eq!(s.logo, Some("old".to_string()));
    assert_eq!(s.supply_cap, Some(10));
    assert_eq!(s.atomic_batch_transfers, Some(true));
    let m = s.collection_metadata(1);
    assert_eq!(m[0].1, MetadataValue::Text("true".to_string()));
    let symbol = m.iter().find(|(k, _)| k == "icrc7:symbol").unwrap();
    assert_eq!(symbol.1, MetadataValue::Text("NEW".to_string()));
}

#[test]
fn update_replaces_custom_metadata() {
    let mut s = settings();
    s.custom_collection_metadata = vec![("a".to_string(), 1)];
    let mut u = no_update();
    u.collection_metadata = Some(vec![("b".to_string(), 2)]);
    assert!(update_collection_metadata(&KeyedSet::new(), &mut s, u).is_ok());
    assert_eq!(s.custom_collection_metadata, vec![("b".to_string(), 2)]);
}

#[test]
fn update_refuses_protected_custom_key() {
    let mut s = settings();
    s.custom_collection_metadata = vec![("a".to_string(), 1)];
    let mut u = no_update();
    u.name = Some("Renamed".to_string());
    u.collection_metadata = Some(vec![("ok".to_string(), 2), ("icrc7:name".to_string(), 3)]);
    let r = update_collection_metadata(&KeyedSet::new(), &mut s, u);
    match r {
        Err(UpdateCollectionMetadataError::InvalidMetadataKey(m)) => {
            assert_eq!(m, "Cannot overwrite protected key 'icrc7:name'")
        }
        _ => panic!("expected InvalidMetadataKey"),
    }
    assert_eq!(s.name, "Renamed");
    assert_eq!(s.custom_collection_metadata, vec![("a".to_string(), 1)]);
}

#[test]
fn update_refused_while_a_management_call_runs() {
    let mut s = settings();
    let mut guards = KeyedSet::new();
    guards.insert(PrincipalId::from_bytes(vec![4]).unwrap());
    let mut u = no_update();
    u.name = Some("Renamed".to_string());
    let r = update_collection_metadata(&guards, &mut s, u);
    assert!(matches!(r, Err(UpdateCollectionMetadataError::ConcurrentManagementCall)));
    assert_eq!(s.name, "Name");
}

#[test]
fn getters_read_the_settings() {
    let mut s = settings();
    s.logo = Some("l.png".to_string());
    s.max_take_value = Some(50);
    s.atomic_batch_transfers = Some(true);
    assert_eq!(s.icrc7_symbol(), "SYM");
    assert_eq!(s.icrc7_name(), "Name");
    assert_eq!(s.icrc7_description(), None);
    assert_eq!(s.icrc7_logo(), Some("l.png".to_string()));
    assert_eq!(s.icrc7_max_take_value(), Some(50));
    assert_eq!(s.icrc7_supply_cap(), None);
    assert_eq!(s.icrc7_atomic_batch_transfers(), Some(true));
    assert_eq!(s.icrc7_tx_window(), None);
}
