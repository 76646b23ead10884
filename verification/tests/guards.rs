use core_nft::access::{AccessRights, ReaderInfo, Readers};
use core_nft::guards::{
    caller_is_nft_owner, caller_is_owner_or_any_reader, caller_is_owner_or_entry_reader,
    entry_content_is_accessible, guard_sliding_window, has_write_access, vetkey_identity_for_entry,
    GuardManagement,
};
use core_nft::keyed::{KeyedMap, KeyedSet};
use core_nft::principal::PrincipalId;
use core_nft::private_content::{
    EncryptionMode, PrivateContentConfig, PrivateContentStatus, PrivateContentSystem,
};

fn principal(bytes: &[u8]) -> PrincipalId {
    PrincipalId::from_bytes(bytes.to_vec()).unwrap()
}

fn system_with_entry(status_after_mint_reencrypt: bool) -> PrivateContentSystem {
    let mut s = PrivateContentSystem {
        nft_private: KeyedMap::new(),
        premint_cache: KeyedMap::new(),
        config: PrivateContentConfig { vetkd_key_name: String::new(), vetkd_context: String::new() },
    };
    let mut readers: Readers = KeyedMap::new();
    readers.insert(principal(&[5]), ReaderInfo { rights: AccessRights::ReadWrite, alias: None });
    readers.insert(principal(&[6]), ReaderInfo { rights: AccessRights::Read, alias: None });
    s.init_premint_store(
        [1u8; 32],
        vec![],
        principal(&[2]),
        readers,
        principal(&[7]),
        "p".to_string(),
        EncryptionMode::AES256,
        16,
        1,
        16,
        &KeyedMap::new(),
        0,
    )
    .unwrap();
    s.upload_chunk(&[1u8; 32], 0, vec![0u8; 16]).unwrap();
    s.finalize_upload(&[1u8; 32]).unwrap();
    let mut entries = KeyedMap::new();
    entries.insert("doc".to_string(), [1u8; 32]);
    s.mint_private_content(KeyedMap::new(), entries, 1, principal(&[2])).unwrap();
    if status_after_mint_reencrypt {
        let mut readers: Readers = KeyedMap::new();
        readers.insert(principal(&[6]), ReaderInfo { rights: AccessRights::Read, alias: None });
        s.set_readers(1, "doc", principal(&[2]), readers).unwrap();
        assert_eq!(
            s.nft_private.get(&1).unwrap().entries.get(&"doc".to_string()).unwrap().status,
            PrivateContentStatus::PendingReencryption
        );
    }
    s
}

#[test]
fn one_management_call_at_a_time() {
    let mut guards = KeyedSet::new();
    let g = GuardManagement::new(&mut guards, principal(&[1])).ok().unwrap();
    match GuardManagement::new(&mut guards, principal(&[2])) {
        Err(m) => assert_eq!(m, "Service is already running a management query, try again shortly"),
        Ok(_) => panic!("a second call must wait"),
    }
    g.release(&mut guards);
    assert!(guards.is_empty());
    assert!(GuardManagement::new(&mut guards, principal(&[2])).is_ok());
}

#[test]
fn sliding_window_admits_five_calls_per_window() {
    let mut windows = KeyedMap::new();
    for t in 0..5u64 {
        assert!(guard_sliding_window(&mut windows, 1, 1_000 + t).is_ok());
    }
    let refused = guard_sliding_window(&mut windows, 1, 1_010);
    assert_eq!(
        refused.err().unwrap(),
        "Rate limit exceeded. You can make another call in 59999990 milliseconds"
    );
    assert_eq!(windows.get(&1).unwrap().len(), 5);
    assert!(guard_sliding_window(&mut windows, 2, 1_010).is_ok());
    assert!(guard_sliding_window(&mut windows, 1, 1_000 + 60_000_000).is_ok());
    assert_eq!(windows.get(&1).unwrap().len(), 5);
    assert_eq!(windows.get(&1).unwrap()[4], 60_001_000);
}

#[test]
fn owner_checks() {
    let owner = principal(&[2]);
    assert_eq!(caller_is_nft_owner(None, &owner).err().unwrap(), "NFT not found");
    assert!(caller_is_nft_owner(Some(&owner), &principal(&[2])).is_ok());
    assert_eq!(
        caller_is_nft_owner(Some(&owner), &principal(&[3])).err().unwrap(),
        "Caller is not the NFT owner"
    );
}

#[test]
fn reader_checks() {
    let s = system_with_entry(false);
    let owner = principal(&[2]);
    assert!(caller_is_owner_or_any_reader(Some(&owner), &s, 1, &principal(&[5])).is_ok());
    assert_eq!(
        caller_is_owner_or_any_reader(Some(&owner), &s, 1, &principal(&[9])).err().unwrap(),
        "Caller is not authorized"
    );
    assert!(caller_is_owner_or_entry_reader(Some(&owner), &s, 1, "doc", &principal(&[6])).is_ok());
    assert_eq!(
        caller_is_owner_or_entry_reader(Some(&owner), &s, 2, "doc", &principal(&[6])).err().unwrap(),
        "Private content not found"
    );
    assert_eq!(
        caller_is_owner_or_entry_reader(Some(&owner), &s, 1, "x", &principal(&[6])).err().unwrap(),
        "Entry not found"
    );
    assert_eq!(
        caller_is_owner_or_entry_reader(Some(&owner), &s, 1, "doc", &principal(&[9])).err().unwrap(),
        "Caller is not authorized for this entry"
    );
    assert!(caller_is_owner_or_entry_reader(Some(&owner), &s, 2, "x", &owner).is_ok());
}

#[test]
fn write_access_needs_owner_or_write_rights() {
    let s = system_with_entry(false);
    let owner = principal(&[2]);
    assert!(has_write_access(Some(&owner), &s, 1, "doc", &owner));
    assert!(has_write_access(Some(&owner), &s, 1, "doc", &principal(&[5])));
    assert!(!has_write_access(Some(&owner), &s, 1, "doc", &principal(&[6])));
    assert!(!has_write_access(None, &s, 1, "doc", &principal(&[9])));
}

#[test]
fn content_pending_reencryption_is_for_the_owner_only() {
    let s = system_with_entry(false);
    let owner = principal(&[2]);
    assert!(entry_content_is_accessible(Some(&owner), &s, 1, "doc", &principal(&[6])).is_ok());
    let s = system_with_entry(true);
    assert!(entry_content_is_accessible(Some(&owner), &s, 1, "doc", &owner).is_ok());
    assert_eq!(
        entry_content_is_accessible(Some(&owner), &s, 1, "doc", &principal(&[6])).err().unwrap(),
        "Content is pending re-encryption"
    );
    assert_eq!(
        entry_content_is_accessible(None, &s, 1, "doc", &owner).err().unwrap(),
        "NFT not found"
    );
}

#[test]
fn vetkey_identity_goes_to_owner_and_readers() {
    let s = system_with_entry(false);
    let owner = principal(&[2]);
    let id = s.nft_private.get(&1).unwrap().entries.get(&"doc".to_string()).unwrap().canonical_identity.clone();
    assert_eq!(vetkey_identity_for_entry(Some(&owner), &s, 1, "doc", &owner), Ok(id.clone()));
    assert_eq!(vetkey_identity_for_entry(Some(&owner), &s, 1, "doc", &principal(&[5])), Ok(id));
    assert_eq!(
        vetkey_identity_for_entry(Some(&owner), &s, 1, "doc", &principal(&[9])),
        Err("The user does not have permission to derive a key".to_string())
    );
    assert_eq!(
        vetkey_identity_for_entry(None, &s, 1, "doc", &owner),
        Err("NFT not found".to_string())
    );
    assert_eq!(
        vetkey_identity_for_entry(Some(&owner), &s, 1, "other", &owner),
        Err("Private entry 'other' not found for NFT 1".to_string())
    );
    assert_eq!(
        vetkey_identity_for_entry(Some(&owner), &s, 2, "doc", &owner),
        Err("NFT 2 not found".to_string())
    );
}

#[test]
fn vetkey_identity_waits_for_reencryption() {
    let s = system_with_entry(true);
    let owner = principal(&[2]);
    assert_eq!(
        vetkey_identity_for_entry(Some(&owner), &s, 1, "doc", &principal(&[6])),
        Err("Content is currently being re-encrypted by the owner".to_string())
    );
    assert!(vetkey_identity_for_entry(Some(&owner), &s, 1, "doc", &owner).is_ok());
}
