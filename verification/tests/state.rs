use core_nft::collection::CollectionSettings;
use core_nft::principal::PrincipalId;
use core_nft::state::{Data, RuntimeState};
use core_nft::storage_fleet::{BuildVersion, CanisterInfo};

fn principal(b: u8) -> PrincipalId {
    PrincipalId::from_bytes(vec![b]).unwrap()
}

fn settings() -> CollectionSettings<u64> {
    CollectionSettings {
        symbol: "S".to_string(),
        name: "N".to_string(),
        description: None,
        logo: None,
        supply_cap: None,
        max_query_batch_size: None,
        max_update_batch_size: None,
        max_take_value: None,
        default_take_value: None,
        max_memo_size: None,
        atomic_batch_transfers: None,
        tx_window: None,
        permitted_drift: None,
        max_canister_storage_threshold: None,
        custom_collection_metadata: vec![],
    }
}

#[test]
fn governance_principals_and_metrics() {
    let data = Data::new(vec![principal(1), principal(2)], vec![], settings(), None);
    assert_eq!(data.tokens_list.total_supply(), 0);
    let state = RuntimeState::new(data);
    assert!(state.is_caller_governance_principal(&principal(2)));
    assert!(!state.is_caller_governance_principal(&principal(3)));
    let info = CanisterInfo {
        now: 5,
        test_mode: true,
        version: BuildVersion { major: 1, minor: 2, patch: 3 },
        commit_hash: "abc".to_string(),
        memory_used: 10,
        cycles_balance: 20,
    };
    let m = state.metrics(info);
    assert_eq!(m.authorized_principals.len(), 2);
    assert_eq!(m.canister_info.commit_hash, "abc");
    assert_eq!(m.canister_info.version.minor, 2);
}
