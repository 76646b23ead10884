use core_nft::access::{AccessRights, ReaderInfo, Readers};
use core_nft::endpoints::{
    finalize_private_upload_done, finalize_private_upload_plan, finalize_upload_canister_missing, finalize_upload_done,
    storage_canister_known, init_private_upload_done,
    init_private_upload_plan, store_private_chunk_done, store_private_chunk_plan, FinalizePrivateUploadArgs,
    InitPrivateUploadArgs, StorePrivateChunkArgs,
};
use core_nft::keyed::KeyedMap;
use core_nft::legacy::InternalFile;
use core_nft::principal::PrincipalId;
use core_nft::private_content::{
    EncryptionMode, PrivateContentConfig, PrivateContentError, PrivateContentStatus, PrivateContentSystem,
};
use core_nft::public_content::PublicContentSystem;
use core_nft::upload::{
    UploadState,
    FinalizePrivateContentUploadError, FinalizeUploadError, StoreChunkError, StorePrivateContentChunkError,
};

fn principal(bytes: &[u8]) -> PrincipalId {
    PrincipalId::from_bytes(bytes.to_vec()).unwrap()
}

fn known() -> Vec<PrincipalId> {
    vec![principal(&[7])]
}

fn text_of(bytes: &[u8]) -> String {
    candid::Principal::from_slice(bytes).to_text()
}

fn system() -> PrivateContentSystem {
    PrivateContentSystem {
        nft_private: KeyedMap::new(),
        premint_cache: KeyedMap::new(),
        config: PrivateContentConfig { vetkd_key_name: "key".to_string(), vetkd_context: "ctx".to_string() },
    }
}

fn init_args(token: Option<u128>, name: Option<&str>, hash: [u8; 32], path: &str) -> InitPrivateUploadArgs {
    InitPrivateUploadArgs {
        token_id_opt: token,
        entry_name: name.map(|n| n.to_string()),
        plaintext_hash: hash,
        plaintext_size: 32,
        salt: vec![9],
        file_hash: [0xab; 32],
        readers: KeyedMap::new(),
        default_readers: KeyedMap::new(),
        storage_canister_id: principal(&[7]),
        storage_path: path.to_string(),
        expected_chunks: 1,
        chunk_size: None,
        file_size: 32,
        encryption_mode: EncryptionMode::AES256,
    }
}

fn chunk_args(token: Option<u128>, name: Option<&str>, hash: [u8; 32], index: u128, data: Vec<u8>) -> StorePrivateChunkArgs {
    StorePrivateChunkArgs {
        token_id_opt: token,
        entry_name: name.map(|n| n.to_string()),
        plaintext_hash: hash,
        storage_path: "private/file.bin".to_string(),
        chunk_index: index,
        chunk_data: data,
    }
}

fn finalize_args(token: Option<u128>, name: Option<&str>, hash: [u8; 32]) -> FinalizePrivateUploadArgs {
    FinalizePrivateUploadArgs {
        token_id_opt: token,
        entry_name: name.map(|n| n.to_string()),
        hash,
        storage_path: "private/file.bin".to_string(),
    }
}

/// A cached upload of the plaintext `[1; 32]` on the canister `[7]`, uploaded and finalized.
fn premint_finalized(s: &mut PrivateContentSystem) {
    let caller = principal(&[2]);
    let a = init_args(None, None, [1u8; 32], "private/file.bin");
    let (canister, hx) = init_private_upload_plan(s, None, &known(), &caller, &Ok(()), &a).unwrap();
    assert!(canister.is_none());
    assert_eq!(hx, "ab".repeat(32));
    init_private_upload_done(s, &caller, a, Ok(principal(&[7])), 10).unwrap();
    let c = chunk_args(None, None, [1u8; 32], 0, vec![5u8; 32]);
    let target = store_private_chunk_plan(s, None, &known(), &caller, &Ok(()), &c).unwrap();
    assert_eq!(target.to_text(), text_of(&[7]));
    store_private_chunk_done(s, c, Ok(())).unwrap();
    let f = finalize_args(None, None, [1u8; 32]);
    let target = finalize_private_upload_plan(s, None, &known(), &caller, &Ok(()), &f).unwrap();
    let mut redirections = KeyedMap::new();
    finalize_private_upload_done(s, &mut redirections, &None, false, &target, &f, Ok(())).unwrap();
}

/// The token 1 holding the entry "doc" of the plaintext `[1; 32]`, owned by `[2]`.
fn minted(s: &mut PrivateContentSystem) {
    premint_finalized(s);
    let mut e = KeyedMap::new();
    e.insert("doc".to_string(), [1u8; 32]);
    s.mint_private_content(KeyedMap::new(), e, 1, principal(&[2])).unwrap();
}

/// `minted`, with the entry sent to re-encryption by new readers.
fn awaiting_reencryption(s: &mut PrivateContentSystem) {
    minted(s);
    let mut readers: Readers = KeyedMap::new();
    readers.insert(principal(&[9]), ReaderInfo { rights: AccessRights::Read, alias: None });
    readers.insert(principal(&[8]), ReaderInfo { rights: AccessRights::ReadWrite, alias: None });
    s.set_readers(1, "doc", principal(&[2]), readers).unwrap();
}

#[test]
fn private_upload_walks_through_plan_and_done() {
    let mut s = system();
    premint_finalized(&mut s);
    let e = s.premint_cache.get(&[1u8; 32]).unwrap();
    assert_eq!(e.status, PrivateContentStatus::PendingMinting);
    assert!(e.pending_upload.is_none());
}

#[test]
fn finalize_done_records_the_redirection_first() {
    let mut s = system();
    let caller = principal(&[2]);
    let a = init_args(None, None, [1u8; 32], "private/file.bin");
    init_private_upload_done(&mut s, &caller, a, Ok(principal(&[7])), 10).unwrap();
    let f = finalize_args(None, None, [1u8; 32]);
    let mut redirections = KeyedMap::new();
    let r = finalize_private_upload_done(&mut s, &mut redirections, &None, false, &principal(&[7]), &f, Ok(()));
    assert!(matches!(r, Err(FinalizePrivateContentUploadError::IncompleteUpload)));
    let url = redirections.get(&"/private/file.bin".to_string()).unwrap();
    assert_eq!(url, &format!("https://{}.raw.icp0.io/private/file.bin", text_of(&[7])));
}

#[test]
fn finalize_done_passes_a_storage_refusal_on() {
    let mut s = system();
    let f = finalize_args(None, None, [1u8; 32]);
    let mut redirections: KeyedMap<String, String> = KeyedMap::new();
    let r = finalize_private_upload_done(
        &mut s,
        &mut redirections,
        &None,
        false,
        &principal(&[7]),
        &f,
        Err(FinalizeUploadError::UploadNotStarted),
    );
    match r {
        Err(FinalizePrivateContentUploadError::StorageCanisterError(m)) => assert_eq!(m, "UploadNotStarted"),
        _ => panic!("expected a storage error"),
    }
    assert_eq!(redirections.len(), 0);
}

#[test]
fn chunk_plan_refusals() {
    let mut s = system();
    minted(&mut s);
    let owner = principal(&[2]);
    let stranger = principal(&[3]);
    let no_name = chunk_args(Some(1), None, [1u8; 32], 0, vec![]);
    assert!(matches!(
        store_private_chunk_plan(&s, Some(&owner), &known(), &owner, &Ok(()), &no_name),
        Err(StorePrivateContentChunkError::NotFound)
    ));
    let named = chunk_args(Some(1), Some("doc"), [1u8; 32], 0, vec![]);
    match store_private_chunk_plan(&s, Some(&owner), &known(), &stranger, &Ok(()), &named) {
        Err(StorePrivateContentChunkError::StorageCanisterError(m)) => assert_eq!(m, "Unauthorized"),
        _ => panic!("expected Unauthorized"),
    }
    let target = store_private_chunk_plan(&s, Some(&owner), &known(), &owner, &Ok(()), &named).unwrap();
    assert_eq!(target.to_text(), text_of(&[7]));
    let missing = chunk_args(Some(1), Some("other"), [1u8; 32], 0, vec![]);
    assert!(matches!(
        store_private_chunk_plan(&s, Some(&owner), &known(), &owner, &Ok(()), &missing),
        Err(StorePrivateContentChunkError::NotFound)
    ));
    match store_private_chunk_plan(&s, Some(&owner), &vec![principal(&[6])], &owner, &Ok(()), &named) {
        Err(StorePrivateContentChunkError::StorageCanisterError(m)) => assert_eq!(m, "Canister not found"),
        _ => panic!("expected an unknown canister"),
    }
    let too_far = chunk_args(Some(1), Some("doc"), [1u8; 32], u128::MAX, vec![]);
    assert!(matches!(
        store_private_chunk_plan(&s, Some(&owner), &known(), &owner, &Ok(()), &too_far),
        Err(StorePrivateContentChunkError::InvalidChunk)
    ));
    let premint = chunk_args(None, None, [4u8; 32], 0, vec![]);
    match store_private_chunk_plan(&s, None, &known(), &stranger, &Err("no permission".to_string()), &premint) {
        Err(StorePrivateContentChunkError::StorageCanisterError(m)) => assert_eq!(m, "no permission"),
        _ => panic!("expected the permission error"),
    }
    assert!(matches!(
        store_private_chunk_plan(&s, None, &known(), &stranger, &Ok(()), &premint),
        Err(StorePrivateContentChunkError::NotFound)
    ));
}

#[test]
fn chunk_done_answers() {
    let mut s = system();
    minted(&mut s);
    let named = chunk_args(Some(1), Some("doc"), [1u8; 32], 0, vec![1u8; 32]);
    let r = store_private_chunk_done(&mut s, named, Err(StoreChunkError::InvalidChunkId));
    assert!(matches!(r, Err(StorePrivateContentChunkError::InvalidChunk)));
    let named = chunk_args(Some(1), Some("doc"), [1u8; 32], 0, vec![1u8; 32]);
    match store_private_chunk_done(&mut s, named, Ok(())) {
        Err(StorePrivateContentChunkError::StorageCanisterError(m)) => assert_eq!(m, "InvalidStateTransition"),
        _ => panic!("an active entry takes no chunk"),
    }
}

#[test]
fn reupload_through_plan_and_done() {
    let mut s = system();
    awaiting_reencryption(&mut s);
    let owner = principal(&[2]);
    let writer = principal(&[8]);
    let reader = principal(&[9]);
    let moved = init_args(Some(1), Some("doc"), [1u8; 32], "private/elsewhere.bin");
    match init_private_upload_plan(&s, Some(&owner), &known(), &writer, &Ok(()), &moved) {
        Err(PrivateContentError::StorageError(m)) => assert_eq!(m, "Cannot change storage path during reupload"),
        _ => panic!("expected a refused path change"),
    }
    let a = init_args(Some(1), Some("doc"), [1u8; 32], "private/file.bin");
    match init_private_upload_plan(&s, Some(&owner), &known(), &reader, &Ok(()), &a) {
        Err(PrivateContentError::StorageError(m)) => assert_eq!(m, "Unauthorized"),
        _ => panic!("a reader may not write"),
    }
    let (canister, _) = init_private_upload_plan(&s, Some(&owner), &known(), &writer, &Ok(()), &a).unwrap();
    assert_eq!(canister.unwrap().to_text(), text_of(&[7]));
    init_private_upload_done(&mut s, &writer, a, Ok(principal(&[7])), 20).unwrap();
    let c = chunk_args(Some(1), Some("doc"), [1u8; 32], 0, vec![6u8; 32]);
    store_private_chunk_plan(&s, Some(&owner), &known(), &writer, &Ok(()), &c).unwrap();
    store_private_chunk_done(&mut s, c, Ok(())).unwrap();
    let f = finalize_args(Some(1), Some("doc"), [1u8; 32]);
    let target = finalize_private_upload_plan(&s, Some(&owner), &known(), &writer, &Ok(()), &f).unwrap();
    let mut redirections = KeyedMap::new();
    finalize_private_upload_done(&mut s, &mut redirections, &None, true, &target, &f, Ok(())).unwrap();
    let e = s.nft_private.get(&1).unwrap().entries.get(&"doc".to_string()).unwrap();
    assert_eq!(e.status, PrivateContentStatus::Active);
    assert_eq!(
        redirections.get(&"/private/file.bin".to_string()).unwrap(),
        &format!("http://{}.localhost:4943/private/file.bin", text_of(&[7]))
    );
}

#[test]
fn init_plan_and_done_refusals() {
    let mut s = system();
    premint_finalized(&mut s);
    let caller = principal(&[2]);
    let again = init_args(None, None, [1u8; 32], "private/file.bin");
    assert!(matches!(
        init_private_upload_plan(&s, None, &known(), &caller, &Ok(()), &again),
        Err(PrivateContentError::AlreadyExists)
    ));
    let no_name = init_args(Some(1), None, [1u8; 32], "private/file.bin");
    assert!(matches!(
        init_private_upload_plan(&s, None, &known(), &caller, &Ok(()), &no_name),
        Err(PrivateContentError::NotFound)
    ));
    let fresh = init_args(None, None, [5u8; 32], "private/new.bin");
    match init_private_upload_done(&mut s, &caller, fresh, Err("boom".to_string()), 1) {
        Err(PrivateContentError::StorageError(m)) => assert_eq!(m, "boom"),
        _ => panic!("expected the storage error"),
    }
    assert!(!s.premint_cache.contains_key(&[5u8; 32]));
}

#[test]
fn public_finalize_done_redirects_and_answers_own_url() {
    let mut public = PublicContentSystem::new();
    let path = "img/a.png".to_string();
    public.init_upload_register(path.clone(), principal(&[7]), path.clone(), 1, 3, 0).unwrap();
    public.upload_chunk_register(&path, 0, vec![1, 2, 3]).unwrap();
    let target = public.get_public_file_by_path(&path).unwrap();
    let mut redirections = KeyedMap::new();
    let mut internal: KeyedMap<String, InternalFile> = KeyedMap::new();
    let url = finalize_upload_done(
        &mut public,
        &mut redirections,
        &mut internal,
        &None,
        false,
        &principal(&[6]),
        &path,
        &target,
    );
    let indexed = internal.get(&path).unwrap();
    assert_eq!(indexed.state, UploadState::Finalized);
    assert_eq!(indexed.path, "img/a.png");
    assert_eq!(indexed.canister.to_text(), text_of(&[7]));
    assert_eq!(url, format!("https://{}.raw.icp0.io/img/a.png", text_of(&[6])));
    assert_eq!(
        redirections.get(&"/img/a.png".to_string()).unwrap(),
        &format!("https://{}.raw.icp0.io/img/a.png", text_of(&[7]))
    );
}

#[test]
fn candid_numbers_group_digits_by_three() {
    let s = system();
    match s.get_nft_private_entry(1234567, "doc") {
        Err(m) => assert_eq!(m, "NFT 1_234_567 not found"),
        Ok(_) => panic!("no token there"),
    }
}

#[test]
fn public_finalize_with_unknown_canister_drops_the_upload() {
    let mut public = PublicContentSystem::new();
    let path = "img/b.png".to_string();
    public.init_upload_register(path.clone(), principal(&[7]), path.clone(), 1, 3, 0).unwrap();
    assert!(!storage_canister_known(&vec![principal(&[6])], &principal(&[7])));
    assert!(storage_canister_known(&known(), &principal(&[7])));
    match finalize_upload_canister_missing(&mut public, &path) {
        FinalizeUploadError::StorageCanisterError(m) => {
            assert_eq!(m, "Storage canister not found. Cancelling the upload.")
        }
        _ => panic!("expected a storage error"),
    }
    assert!(!public.temp_file_cache.contains_key(&path));
}
