use core_nft::display::decimal_text;
use core_nft::hashing::hash_string_to_u64;
use core_nft::principal::{principal_less, PrincipalId};
use core_nft::storage_fleet::{canister_has_room, check_file_size, default_funding_config};
use std::collections::hash_map::DefaultHasher;
use std::hash::{Hash, Hasher};

#[test]
fn string_hash_matches_std_hashing_of_str() {
    for s in ["", "abc", "héllo wörld"] {
        let mut h = DefaultHasher::new();
        s.hash(&mut h);
        assert_eq!(hash_string_to_u64(s), h.finish());
    }
    assert_ne!(hash_string_to_u64("a"), hash_string_to_u64("b"));
}

#[test]
fn decimal_text_has_no_separators() {
    assert_eq!(decimal_text(0), "0");
    assert_eq!(decimal_text(1234567), "1234567");
    assert_eq!(decimal_text(u128::MAX), u128::MAX.to_string());
}

#[test]
fn principals_order_by_length_then_bytes() {
    let p = |b: &[u8]| PrincipalId::from_bytes(b.to_vec()).unwrap();
    assert!(principal_less(&p(&[9]), &p(&[1, 1])));
    assert!(principal_less(&p(&[1, 2]), &p(&[1, 3])));
    assert!(!principal_less(&p(&[1, 3]), &p(&[1, 3])));
    assert!(PrincipalId::from_bytes(vec![0; 30]).is_none());
    assert_eq!(PrincipalId::management().to_text(), "aaaaa-aa");
    assert_eq!(p(&[1, 2, 3]).to_text(), candid::Principal::from_slice(&[1, 2, 3]).to_text());
}

#[test]
fn storage_limits() {
    assert!(check_file_size(2 * 1024 * 1024 * 1024).is_ok());
    assert_eq!(
        check_file_size(2 * 1024 * 1024 * 1024 + 1).err().unwrap(),
        "File size exceeds the maximum limit of 2GB"
    );
    let max = 500u128 * 1024 * 1024 * 1024;
    assert!(canister_has_room(max, 0, 0));
    assert!(!canister_has_room(max + 1, 0, 0));
    assert!(!canister_has_room(0, (max as u64) - 1, 2));
    assert!(canister_has_room(10, (max as u64) - 1, 1));
}

#[test]
fn funding_depends_on_test_mode() {
    let t = default_funding_config(true);
    assert_eq!((t.interval_secs, t.min_cycles, t.fund_cycles), (3600, 300_000_000_000, 500_000_000_000));
    let p = default_funding_config(false);
    assert_eq!((p.interval_secs, p.min_cycles, p.fund_cycles), (60, 1_000_000_000_000, 2_000_000_000_000));
}
