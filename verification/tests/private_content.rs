use core_nft::access::{construct_canonical_identity, ReaderInfo, Readers};
use core_nft::keyed::KeyedMap;
use core_nft::principal::PrincipalId;
use core_nft::private_content::{
    EncryptionMode, NftPrivateRecord, PrivateContentConfig, PrivateContentError,
    PrivateContentStatus, PrivateContentSystem, CHUNK_SIZE, MAX_PRIVATE_CONTENT_SIZE,
};
use core_nft::access::AccessRights;

fn principal(bytes: &[u8]) -> PrincipalId {
    PrincipalId::from_bytes(bytes.to_vec()).unwrap()
}

fn reader(rights: AccessRights) -> ReaderInfo {
    ReaderInfo { rights, alias: None }
}

fn system() -> PrivateContentSystem {
    PrivateContentSystem {
        nft_private: KeyedMap::new(),
        premint_cache: KeyedMap::new(),
        config: PrivateContentConfig {
            vetkd_key_name: "key".to_string(),
            vetkd_context: "ctx".to_string(),
        },
    }
}

fn store(system: &mut PrivateContentSystem, hash: [u8; 32], owner: &[u8], readers: Readers, size: u64, chunks: usize) {
    system
        .init_premint_store(
            hash,
            vec![9, 9],
            principal(owner),
            readers,
            principal(&[7]),
            "private/file.bin".to_string(),
            EncryptionMode::AES256,
            size,
            chunks,
            size,
            &KeyedMap::new(),
            55,
        )
        .unwrap();
}

fn upload_and_finalize(system: &mut PrivateContentSystem, hash: [u8; 32], owner: &[u8], readers: Readers) {
    store(system, hash, owner, readers, 32, 1);
    system.upload_chunk(&hash, 0, vec![1u8; 32]).unwrap();
    system.finalize_upload(&hash).unwrap();
}

#[test]
fn premint_validate_checks_cache_size_and_block_size() {
    let mut s = system();
    assert!(s.init_premint_validate(&[1u8; 32], EncryptionMode::AES256, 32).is_ok());
    assert!(matches!(
        s.init_premint_validate(&[1u8; 32], EncryptionMode::AES256, MAX_PRIVATE_CONTENT_SIZE + 16),
        Err(PrivateContentError::ContentTooLarge)
    ));
    match s.init_premint_validate(&[1u8; 32], EncryptionMode::AES256, 33) {
        Err(PrivateContentError::StorageError(m)) => {
            assert_eq!(m, "Encrypted content size must be divisible by 16 bytes (AES block size)")
        }
        _ => panic!("expected a block size error"),
    }
    store(&mut s, [1u8; 32], &[2], KeyedMap::new(), 32, 1);
    assert!(matches!(
        s.init_premint_validate(&[1u8; 32], EncryptionMode::AES256, 32),
        Err(PrivateContentError::AlreadyExists)
    ));
}

#[test]
fn premint_store_records_a_pending_upload() {
    let mut s = system();
    store(&mut s, [3u8; 32], &[2], KeyedMap::new(), 64, 2);
    let e = s.premint_cache.get(&[3u8; 32]).unwrap();
    assert_eq!(e.status, PrivateContentStatus::PendingUpload);
    assert_eq!(e.pending_upload.as_ref().unwrap().expected_chunks, 2);
    assert_eq!(e.pending_upload.as_ref().unwrap().timestamp_ns, 55);
    assert_eq!(e.pending_upload.as_ref().unwrap().chunk_size, CHUNK_SIZE);
    let expected = construct_canonical_identity(principal(&[2]), &KeyedMap::new(), &KeyedMap::new());
    assert_eq!(e.canonical_identity, expected);
    let again = s.init_premint_store(
        [3u8; 32],
        vec![],
        principal(&[2]),
        KeyedMap::new(),
        principal(&[7]),
        "x".to_string(),
        EncryptionMode::AES256,
        1,
        1,
        16,
        &KeyedMap::new(),
        0,
    );
    assert!(matches!(again, Err(PrivateContentError::AlreadyExists)));
}

#[test]
fn private_upload_walks_through_its_states() {
    let mut s = system();
    let h = [4u8; 32];
    assert!(matches!(s.upload_chunk(&h, 0, vec![]), Err(PrivateContentError::NotFound)));
    store(&mut s, h, &[2], KeyedMap::new(), 32, 2);
    assert!(matches!(s.upload_chunk(&h, 2, vec![0; 16]), Err(PrivateContentError::InvalidChunk)));
    assert!(matches!(
        s.upload_chunk(&h, 0, vec![0; CHUNK_SIZE + 1]),
        Err(PrivateContentError::ContentTooLarge)
    ));
    s.upload_chunk(&h, 0, vec![0; 16]).unwrap();
    assert!(matches!(s.finalize_upload(&h), Err(PrivateContentError::InvalidChunk)));
    s.upload_chunk(&h, 1, vec![0; 8]).unwrap();
    assert!(matches!(s.finalize_upload(&h), Err(PrivateContentError::ContentTooLarge)));
    s.upload_chunk(&h, 1, vec![0; 16]).unwrap();
    s.finalize_upload(&h).unwrap();
    let e = s.premint_cache.get(&h).unwrap();
    assert_eq!(e.status, PrivateContentStatus::PendingMinting);
    assert!(e.pending_upload.is_none());
    assert!(matches!(s.upload_chunk(&h, 0, vec![0; 1]), Err(PrivateContentError::InvalidStateTransition)));
    assert!(matches!(s.finalize_upload(&h), Err(PrivateContentError::InvalidStateTransition)));
}

#[test]
fn cancel_drops_the_cached_upload() {
    let mut s = system();
    store(&mut s, [5u8; 32], &[2], KeyedMap::new(), 32, 1);
    assert!(s.cancel_upload(&[5u8; 32]).is_ok());
    assert!(s.premint_cache.is_empty());
    assert!(s.cancel_upload(&[5u8; 32]).is_ok());
}

#[test]
fn mint_moves_cached_entries_and_drops_the_owner_from_readers() {
    let mut s = system();
    let owner = [2u8];
    let mut readers: Readers = KeyedMap::new();
    readers.insert(principal(&owner), reader(AccessRights::Read));
    readers.insert(principal(&[8]), reader(AccessRights::ReadWrite));
    upload_and_finalize(&mut s, [6u8; 32], &owner, readers);
    let mut defaults: Readers = KeyedMap::new();
    defaults.insert(principal(&owner), reader(AccessRights::Read));
    let mut entries = KeyedMap::new();
    entries.insert("doc".to_string(), [6u8; 32]);
    s.mint_private_content(defaults, entries, 1, principal(&owner)).unwrap();
    assert!(s.premint_cache.is_empty());
    let record = s.nft_private.get(&1).unwrap();
    assert!(record.default_readers.is_empty());
    let e = record.entries.get(&"doc".to_string()).unwrap();
    assert_eq!(e.status, PrivateContentStatus::Active);
    assert!(!e.readers.contains_key(&principal(&owner)));
    assert!(e.readers.contains_key(&principal(&[8])));
}

#[test]
fn mint_refuses_taken_tokens_missing_and_unfinished_entries() {
    let mut s = system();
    upload_and_finalize(&mut s, [1u8; 32], &[2], KeyedMap::new());
    let mut e1 = KeyedMap::new();
    e1.insert("a".to_string(), [1u8; 32]);
    s.mint_private_content(KeyedMap::new(), e1, 1, principal(&[2])).unwrap();
    let mut e2 = KeyedMap::new();
    e2.insert("b".to_string(), [2u8; 32]);
    assert!(matches!(
        s.mint_private_content(KeyedMap::new(), e2, 1, principal(&[2])),
        Err(PrivateContentError::AlreadyExists)
    ));
    let mut e3 = KeyedMap::new();
    e3.insert("c".to_string(), [3u8; 32]);
    assert!(matches!(
        s.mint_private_content(KeyedMap::new(), e3, 2, principal(&[2])),
        Err(PrivateContentError::NotFound)
    ));
    store(&mut s, [4u8; 32], &[2], KeyedMap::new(), 32, 1);
    let mut e4 = KeyedMap::new();
    e4.insert("d".to_string(), [4u8; 32]);
    assert!(matches!(
        s.mint_private_content(KeyedMap::new(), e4, 3, principal(&[2])),
        Err(PrivateContentError::InvalidStateTransition)
    ));
    assert!(!s.nft_private.contains_key(&3));
}

#[test]
fn get_nft_private_entry_messages() {
    let mut s = system();
    assert_eq!(s.get_nft_private_entry(12345, "a").err().unwrap(), "NFT 12_345 not found");
    s.nft_private.insert(1, NftPrivateRecord::new());
    assert_eq!(
        s.get_nft_private_entry(1, "a").err().unwrap(),
        "Private entry 'a' not found for NFT 1"
    );
}

fn minted(s: &mut PrivateContentSystem) {
    upload_and_finalize(s, [1u8; 32], &[2], KeyedMap::new());
    let mut e = KeyedMap::new();
    e.insert("doc".to_string(), [1u8; 32]);
    s.mint_private_content(KeyedMap::new(), e, 1, principal(&[2])).unwrap();
}

#[test]
fn set_readers_sends_minted_content_to_reencryption() {
    let mut s = system();
    minted(&mut s);
    let before = s.nft_private.get(&1).unwrap().entries.get(&"doc".to_string()).unwrap().canonical_identity.clone();
    let mut readers: Readers = KeyedMap::new();
    readers.insert(principal(&[2]), reader(AccessRights::ReadWriteManage));
    readers.insert(principal(&[9]), reader(AccessRights::Read));
    s.set_readers(1, "doc", principal(&[2]), readers).unwrap();
    let e = s.nft_private.get(&1).unwrap().entries.get(&"doc".to_string()).unwrap();
    assert_eq!(e.status, PrivateContentStatus::PendingReencryption);
    assert!(!e.readers.contains_key(&principal(&[2])));
    assert!(e.readers.contains_key(&principal(&[9])));
    assert_eq!(e.previous_canonical_identity, Some(before));
    let owner_text = candid::Principal::from_slice(&[2]).to_text();
    let reader_text = candid::Principal::from_slice(&[9]).to_text();
    let mut expected = vec![owner_text, reader_text];
    expected.sort_by(|a, b| {
        let pa = candid::Principal::from_text(a).unwrap();
        let pb = candid::Principal::from_text(b).unwrap();
        pa.cmp(&pb)
    });
    assert_eq!(e.canonical_identity, expected.join(",").into_bytes());
}

#[test]
fn set_readers_with_same_readers_changes_nothing() {
    let mut s = system();
    minted(&mut s);
    s.set_readers(1, "doc", principal(&[2]), KeyedMap::new()).unwrap();
    let e = s.nft_private.get(&1).unwrap().entries.get(&"doc".to_string()).unwrap();
    assert_eq!(e.status, PrivateContentStatus::Active);
    assert!(e.previous_canonical_identity.is_none());
}

#[test]
fn set_readers_errors() {
    let mut s = system();
    assert_eq!(
        s.set_readers(1, "doc", principal(&[2]), KeyedMap::new()).err().unwrap(),
        "No private NFT data was found"
    );
    minted(&mut s);
    assert_eq!(
        s.set_readers(1, "other", principal(&[2]), KeyedMap::new()).err().unwrap(),
        "No private entry was found for given NFT"
    );
    let mut many: Readers = KeyedMap::new();
    for i in 0..101u8 {
        many.insert(principal(&[100, i]), reader(AccessRights::Read));
    }
    assert_eq!(
        s.set_readers(1, "doc", principal(&[2]), many).err().unwrap(),
        "Maximum number of readers exceeded: 100"
    );
    let mut hundred_and_owner: Readers = KeyedMap::new();
    for i in 0..100u8 {
        hundred_and_owner.insert(principal(&[100, i]), reader(AccessRights::Read));
    }
    hundred_and_owner.insert(principal(&[2]), reader(AccessRights::Read));
    assert!(s.set_readers(1, "doc", principal(&[2]), hundred_and_owner).is_ok());
}

#[test]
fn reencryption_round_trip() {
    let mut s = system();
    minted(&mut s);
    assert!(matches!(
        s.reencryption_validate(&1, "doc", &[1u8; 32], 32, 32),
        Err(PrivateContentError::InvalidStateTransition)
    ));
    let mut readers: Readers = KeyedMap::new();
    readers.insert(principal(&[9]), reader(AccessRights::Read));
    s.set_readers(1, "doc", principal(&[2]), readers).unwrap();
    match s.reencryption_validate(&1, "doc", &[2u8; 32], 32, 32) {
        Err(PrivateContentError::StorageError(m)) => assert_eq!(m, "Plaintext hash mismatch"),
        _ => panic!("expected a hash mismatch"),
    }
    match s.reencryption_validate(&1, "doc", &[1u8; 32], 31, 32) {
        Err(PrivateContentError::StorageError(m)) => assert_eq!(m, "Plaintext size mismatch"),
        _ => panic!("expected a size mismatch"),
    }
    match s.reencryption_validate(&1, "doc", &[1u8; 32], 32, 48) {
        Err(PrivateContentError::StorageError(m)) => assert_eq!(m, "File size mismatch"),
        _ => panic!("expected a file size mismatch"),
    }
    assert!(s.reencryption_validate(&1, "doc", &[1u8; 32], 32, 32).is_ok());
    assert!(matches!(
        s.reencryption_validate(&2, "doc", &[1u8; 32], 32, 32),
        Err(PrivateContentError::NotFound)
    ));
    s.init_reencryption_store(&1, "doc", 1, 77).unwrap();
    assert!(matches!(s.finalize_reupload(&1, "doc"), Err(PrivateContentError::InvalidChunk)));
    s.reupload_chunk(&1, "doc", 0, vec![2u8; 32]).unwrap();
    s.finalize_reupload(&1, "doc").unwrap();
    let e = s.nft_private.get(&1).unwrap().entries.get(&"doc".to_string()).unwrap();
    assert_eq!(e.status, PrivateContentStatus::Active);
    assert!(e.pending_upload.is_none());
    assert!(matches!(s.reupload_chunk(&1, "doc", 0, vec![]), Err(PrivateContentError::InvalidStateTransition)));
    assert!(matches!(s.init_reencryption_store(&1, "nope", 1, 0), Err(PrivateContentError::NotFound)));
}

#[test]
fn upgrade_args_replace_given_vetkd_settings() {
    let mut c = PrivateContentConfig { vetkd_key_name: "key".to_string(), vetkd_context: "ctx".to_string() };
    c.apply_upgrade(Some("test_key_1".to_string()), None);
    assert_eq!(c.vetkd_key_name, "test_key_1");
    assert_eq!(c.vetkd_context, "ctx");
    c.apply_upgrade(None, Some("nft".to_string()));
    assert_eq!(c.vetkd_context, "nft");
}
