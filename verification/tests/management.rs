use core_nft::access::{construct_canonical_identity, Readers};
use core_nft::keyed::{KeyedMap, KeyedSet};
use core_nft::management::{
    cancel_upload_target, check_burn, check_collection_metadata_keys, check_memo,
    check_mint_batch, chunk_upload_target, expected_chunks, finalize_upload_target,
    get_upload_status, private_files_of, validate_append_request, validate_private_mint,
    validate_public_mint, BurnNftError, MintError,
};
use core_nft::principal::PrincipalId;
use core_nft::private_content::{EncryptionMode, PrivateContentConfig, PrivateContentSystem};
use core_nft::public_content::PublicContentSystem;
use core_nft::upload::{
    AppendFileError, CancelUploadError, FinalizeUploadError, StoreChunkError, UploadState,
    CancelPrivateContentUploadError, FinalizePrivateContentUploadError, StorePrivateContentChunkError,
};

fn principal(bytes: &[u8]) -> PrincipalId {
    PrincipalId::from_bytes(bytes.to_vec()).unwrap()
}

fn private_system() -> PrivateContentSystem {
    PrivateContentSystem {
        nft_private: KeyedMap::new(),
        premint_cache: KeyedMap::new(),
        config: PrivateContentConfig { vetkd_key_name: String::new(), vetkd_context: String::new() },
    }
}

fn cache(s: &mut PrivateContentSystem, hash: [u8; 32], owner: &[u8], finalize: bool) {
    s.init_premint_store(
        hash,
        vec![],
        principal(owner),
        KeyedMap::new(),
        principal(&[7]),
        "secret.bin".to_string(),
        EncryptionMode::AES256,
        16,
        1,
        16,
        &KeyedMap::new(),
        0,
    )
    .unwrap();
    if finalize {
        s.upload_chunk(&hash, 0, vec![0u8; 16]).unwrap();
        s.finalize_upload(&hash).unwrap();
    }
}

fn finalized_public(s: &mut PublicContentSystem, path: &str) {
    s.init_upload_register(path.to_string(), principal(&[7]), path.to_string(), 1, 4, 0).unwrap();
    s.upload_chunk_register(&path.to_string(), 0, vec![1, 2, 3, 4]).unwrap();
    s.finalize_upload_register(&path.to_string()).unwrap();
}

#[test]
fn memo_limit() {
    assert!(check_memo(&None, Some(1)).is_ok());
    assert!(check_memo(&Some(vec![0; 3]), Some(3)).is_ok());
    assert_eq!(check_memo(&Some(vec![0; 4]), Some(3)).err().unwrap(), "Exceeds Max Memo Size");
    assert!(check_memo(&Some(vec![0; 1000]), None).is_ok());
}

#[test]
fn mint_batch_limits() {
    assert!(check_mint_batch(100, None, None, 0).is_ok());
    assert!(matches!(check_mint_batch(101, None, None, 0), Err(MintError::ExceedMaxAllowedSupplyCap)));
    assert!(check_mint_batch(150, Some(200), None, 0).is_ok());
    assert!(check_mint_batch(150, Some(u128::MAX), None, 0).is_err());
    assert!(matches!(check_mint_batch(2, None, Some(10), 9), Err(MintError::ExceedMaxAllowedSupplyCap)));
    assert!(check_mint_batch(1, None, Some(10), 9).is_ok());
    assert!(check_mint_batch(1, None, None, 9_999).is_ok());
    assert!(check_mint_batch(1, None, None, 10_000).is_err());
}

#[test]
fn private_mint_validation() {
    let mut s = private_system();
    let owner: &[u8] = &[2];
    cache(&mut s, [1u8; 32], owner, true);
    cache(&mut s, [2u8; 32], owner, false);
    let defaults: Readers = KeyedMap::new();
    let mut seen = KeyedSet::new();
    let mut ok = KeyedMap::new();
    ok.insert("a".to_string(), [1u8; 32]);
    assert!(validate_private_mint(&s, &principal(owner), &defaults, &ok, &mut seen).is_ok());
    match validate_private_mint(&s, &principal(owner), &defaults, &ok, &mut seen) {
        Err(MintError::StorageCanisterError(m)) => assert_eq!(
            m,
            format!("Duplicate private content hash '{}' in batch", "01".repeat(32))
        ),
        _ => panic!("expected a duplicate"),
    }
    let mut missing = KeyedMap::new();
    missing.insert("m".to_string(), [3u8; 32]);
    match validate_private_mint(&s, &principal(owner), &defaults, &missing, &mut KeyedSet::new()) {
        Err(MintError::StorageCanisterError(m)) => assert_eq!(
            m,
            format!("Private entry 'm' with hash '{}' not found in premint cache", "03".repeat(32))
        ),
        _ => panic!("expected a missing entry"),
    }
    let mut pending = KeyedMap::new();
    pending.insert("p".to_string(), [2u8; 32]);
    match validate_private_mint(&s, &principal(owner), &defaults, &pending, &mut KeyedSet::new()) {
        Err(MintError::StorageCanisterError(m)) => {
            assert_eq!(m, "Private entry 'p' is not in a valid state for minting")
        }
        _ => panic!("expected an unfinished entry"),
    }
    match validate_private_mint(&s, &principal(&[3]), &defaults, &ok, &mut KeyedSet::new()) {
        Err(MintError::StorageCanisterError(m)) => assert_eq!(
            m,
            "Private content identity mismatch for entry 'a'. It may have been initialized for a different owner."
        ),
        _ => panic!("expected an identity mismatch"),
    }
    let id = construct_canonical_identity(principal(owner), &KeyedMap::new(), &KeyedMap::new());
    assert_eq!(s.premint_cache.get(&[1u8; 32]).unwrap().canonical_identity, id);
}

#[test]
fn public_mint_and_append_validation() {
    let mut p = PublicContentSystem::new();
    finalized_public(&mut p, "img/a.png");
    p.init_upload_register("img/b.png".to_string(), principal(&[7]), "img/b.png".to_string(), 1, 4, 0).unwrap();
    let mut ok = KeyedMap::new();
    ok.insert("a".to_string(), "img/a.png".to_string());
    assert!(validate_public_mint(&p, &ok).is_ok());
    let mut missing = KeyedMap::new();
    missing.insert("x".to_string(), "img/none.png".to_string());
    match validate_public_mint(&p, &missing) {
        Err(MintError::StorageCanisterError(m)) => {
            assert_eq!(m, "Public entry 'x' with path 'img/none.png' not found")
        }
        _ => panic!("expected a missing file"),
    }
    let mut unfinished = KeyedMap::new();
    unfinished.insert("b".to_string(), "img/b.png".to_string());
    match validate_public_mint(&p, &unfinished) {
        Err(MintError::StorageCanisterError(m)) => assert_eq!(m, "Public entry 'b' is not finalized"),
        _ => panic!("expected an unfinished file"),
    }
    assert!(matches!(
        validate_append_request(&p, false, 1, &ok),
        Err(AppendFileError::TokenDoesNotExists)
    ));
    assert!(validate_append_request(&p, true, 1, &ok).is_ok());
    assert!(matches!(validate_append_request(&p, true, 1, &missing), Err(AppendFileError::NotFound)));
    assert!(matches!(
        validate_append_request(&p, true, 1, &unfinished),
        Err(AppendFileError::InvalidStateTransition)
    ));
    p.mint_public_content(ok.clone_entries(), 1).unwrap();
    assert!(matches!(validate_append_request(&p, true, 1, &ok), Err(AppendFileError::FileAlreadyExists)));
    let mut other = KeyedMap::new();
    other.insert("other".to_string(), "img/a.png".to_string());
    assert!(validate_append_request(&p, true, 1, &other).is_ok());
}

trait CloneEntries {
    fn clone_entries(&self) -> KeyedMap<String, String>;
}

impl CloneEntries for KeyedMap<String, String> {
    fn clone_entries(&self) -> KeyedMap<String, String> {
        let mut m = KeyedMap::new();
        for i in 0..self.len() {
            m.insert(self.key_at(i).clone(), self.value_at(i).clone());
        }
        m
    }
}

#[test]
fn upload_gates() {
    let mut p = PublicContentSystem::new();
    assert!(matches!(chunk_upload_target(&p, "f"), Err(StoreChunkError::UploadNotInitialized)));
    assert!(matches!(finalize_upload_target(&p, "f"), Err(FinalizeUploadError::UploadNotStarted)));
    assert!(matches!(cancel_upload_target(&p, "f"), Err(CancelUploadError::UploadNotInitialized)));
    p.init_upload_register("f".to_string(), principal(&[7]), "f".to_string(), 2, 8, 3).unwrap();
    assert!(chunk_upload_target(&p, "f").is_ok());
    assert!(matches!(finalize_upload_target(&p, "f"), Err(FinalizeUploadError::UploadNotStarted)));
    p.upload_chunk_register(&"f".to_string(), 0, vec![0; 4]).unwrap();
    assert_eq!(finalize_upload_target(&p, "f").ok().unwrap().created_at_ns, 3);
    p.upload_chunk_register(&"f".to_string(), 1, vec![0; 4]).unwrap();
    p.finalize_upload_register(&"f".to_string()).unwrap();
    assert!(matches!(chunk_upload_target(&p, "f"), Err(StoreChunkError::UploadAlreadyFinalized)));
    assert!(matches!(finalize_upload_target(&p, "f"), Err(FinalizeUploadError::UploadAlreadyFinalized)));
    assert!(matches!(cancel_upload_target(&p, "f"), Err(CancelUploadError::UploadAlreadyFinalized)));
}

#[test]
fn chunk_counts_round_up() {
    assert_eq!(expected_chunks(0, None), 0);
    assert_eq!(expected_chunks(1, None), 1);
    assert_eq!(expected_chunks(1024 * 1024, None), 1);
    assert_eq!(expected_chunks(1024 * 1024 + 1, None), 2);
    assert_eq!(expected_chunks(10, Some(3)), 4);
    assert_eq!(expected_chunks(9, Some(3)), 3);
}

#[test]
fn upload_status_looks_at_public_then_private_uploads() {
    let mut p = PublicContentSystem::new();
    let mut s = private_system();
    assert!(get_upload_status(&p, &s, &"secret.bin".to_string()).is_err());
    cache(&mut s, [1u8; 32], &[2], false);
    assert_eq!(get_upload_status(&p, &s, &"secret.bin".to_string()).ok().unwrap(), UploadState::Init);
    s.upload_chunk(&[1u8; 32], 0, vec![0; 16]).unwrap();
    assert_eq!(get_upload_status(&p, &s, &"secret.bin".to_string()).ok().unwrap(), UploadState::InProgress);
    s.finalize_upload(&[1u8; 32]).unwrap();
    assert_eq!(get_upload_status(&p, &s, &"secret.bin".to_string()).ok().unwrap(), UploadState::Finalized);
    let mut e = KeyedMap::new();
    e.insert("doc".to_string(), [1u8; 32]);
    s.mint_private_content(KeyedMap::new(), e, 1, principal(&[2])).unwrap();
    s.init_reencryption_store(&1, "doc", 1, 0).unwrap();
    assert_eq!(get_upload_status(&p, &s, &"secret.bin".to_string()).ok().unwrap(), UploadState::InitReupload);
    s.nft_private.insert(1, core_nft::private_content::NftPrivateRecord::new());
    p.init_upload_register("secret.bin".to_string(), principal(&[7]), "secret.bin".to_string(), 1, 4, 0).unwrap();
    assert_eq!(get_upload_status(&p, &s, &"secret.bin".to_string()).ok().unwrap(), UploadState::Init);
}

#[test]
fn burn_checks_and_private_files() {
    let owner = principal(&[2]);
    assert!(matches!(check_burn(None, &owner), Err(BurnNftError::TokenDoesNotExist)));
    assert!(matches!(check_burn(Some(&owner), &principal(&[3])), Err(BurnNftError::NotTokenOwner)));
    assert!(check_burn(Some(&owner), &principal(&[2])).is_ok());
    let mut s = private_system();
    assert!(private_files_of(&s, 1).is_empty());
    cache(&mut s, [1u8; 32], &[2], true);
    let mut e = KeyedMap::new();
    e.insert("doc".to_string(), [1u8; 32]);
    s.mint_private_content(KeyedMap::new(), e, 1, principal(&[2])).unwrap();
    let files = private_files_of(&s, 1);
    assert_eq!(files.len(), 1);
    assert_eq!(files[0].0.as_bytes(), &[7u8][..]);
    assert_eq!(files[0].1, "secret.bin");
}

#[test]
fn protected_metadata_keys() {
    assert!(check_collection_metadata_keys(&vec!["name".to_string(), "x:icrc7:y".to_string()]).is_ok());
    assert_eq!(
        check_collection_metadata_keys(&vec!["a".to_string(), "icrc7:name".to_string(), "icrc7:x".to_string()])
            .err()
            .unwrap(),
        "Cannot overwrite protected key 'icrc7:name'"
    );
}

#[test]
fn private_upload_errors_map_storage_errors() {
    assert!(matches!(
        StorePrivateContentChunkError::from(StoreChunkError::InvalidFilePath),
        StorePrivateContentChunkError::NotFound
    ));
    match StorePrivateContentChunkError::from(StoreChunkError::UploadAlreadyFinalized) {
        StorePrivateContentChunkError::StorageCanisterError(m) => assert_eq!(m, "UploadAlreadyFinalized"),
        _ => panic!(),
    }
    match FinalizePrivateContentUploadError::from(FinalizeUploadError::IncompleteUpload) {
        FinalizePrivateContentUploadError::StorageCanisterError(m) => assert_eq!(m, "IncompleteUpload"),
        _ => panic!(),
    }
    assert!(matches!(
        CancelPrivateContentUploadError::from(CancelUploadError::InvalidFilePath),
        CancelPrivateContentUploadError::InvalidFilePath
    ));
}
