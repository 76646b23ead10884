use core_nft::collection::CollectionSettings;
use core_nft::keyed::{KeyedMap, KeyedSet, MapKey};
use core_nft::ledger::{Account, TokenLedger};
use core_nft::management::{BurnNftError, MintError};
use core_nft::metadata_store::Metadata;
use core_nft::minting::{
    append_file, burn_nft_done, burn_nft_plan, mint, AppendFileRequest, CollectionState, MintRequest, PrivateMintContent,
    PublicMintContent,
};
use core_nft::principal::PrincipalId;
use core_nft::private_content::{EncryptionMode, PrivateContentConfig, PrivateContentSystem};
use core_nft::public_content::PublicContentSystem;
use core_nft::upload::AppendFileError;

fn principal(b: u8) -> PrincipalId {
    PrincipalId::from_bytes(vec![b]).unwrap()
}

fn account(b: u8, sub: Option<[u8; 32]>) -> Account {
    Account { owner: principal(b), subaccount: sub }
}

fn collection(supply_cap: Option<u128>) -> CollectionState<u128> {
    CollectionState {
        settings: CollectionSettings {
            symbol: "S".to_string(),
            name: "N".to_string(),
            description: None,
            logo: None,
            supply_cap,
            max_query_batch_size: None,
            max_update_batch_size: None,
            max_take_value: None,
            default_take_value: None,
            max_memo_size: None,
            atomic_batch_transfers: None,
            tx_window: None,
            permitted_drift: None,
            max_canister_storage_threshold: None,
            custom_collection_metadata: vec![],
        },
        guards: KeyedSet::new(),
        ledger: TokenLedger::new(),
        tokens_by_owner: KeyedMap::new(),
        last_token_id: 0,
        metadata: Metadata::new(),
        public: PublicContentSystem::new(),
        private: PrivateContentSystem {
            nft_private: KeyedMap::new(),
            premint_cache: KeyedMap::new(),
            config: PrivateContentConfig { vetkd_key_name: "key".to_string(), vetkd_context: "ctx".to_string() },
        },
    }
}

fn request(owner: Account) -> MintRequest<u128> {
    MintRequest { token_owner: owner, memo: None, metadata: KeyedMap::new(), private_content: None, public_content: None }
}

#[test]
fn mint_numbers_tokens_from_the_last_id_and_indexes_owners() {
    let mut s = collection(None);
    let a = account(1, None);
    let b = account(2, Some([3u8; 32]));
    let (first, records) = mint(&mut s, vec![request(a.key_copy()), request(b.key_copy()), request(a.key_copy())], 42).unwrap();
    assert_eq!(first, 0);
    assert_eq!(s.last_token_id, 3);
    assert_eq!(records.len(), 3);
    assert_eq!(records[1].token_id, 1);
    assert_eq!(records[2].timestamp_ns, 42);
    assert_eq!(s.ledger.token_count(), 3);
    let owner = s.ledger.owner_of(1).unwrap();
    assert_eq!(owner.subaccount, Some([3u8; 32]));
    assert_eq!(s.tokens_by_owner.get(&a).unwrap(), &vec![0u128, 2]);
    assert_eq!(s.tokens_by_owner.get(&b).unwrap(), &vec![1u128]);
    let (next, _) = mint(&mut s, vec![request(b.key_copy())], 43).unwrap();
    assert_eq!(next, 3);
    assert_eq!(s.last_token_id, 4);
}

#[test]
fn mint_keeps_the_stored_subaccount_form() {
    let mut s = collection(None);
    mint(&mut s, vec![request(account(1, Some([0u8; 32])))], 1).unwrap();
    assert_eq!(s.ledger.owner_of(0).unwrap().subaccount, Some([0u8; 32]));
}

#[test]
fn mint_refused_while_a_management_call_runs() {
    let mut s = collection(None);
    s.guards.insert(principal(9));
    let r = mint(&mut s, vec![request(account(1, None))], 1);
    assert!(matches!(r, Err(MintError::ConcurrentManagementCall)));
    assert_eq!(s.last_token_id, 0);
    assert_eq!(s.ledger.token_count(), 0);
}

#[test]
fn mint_refused_over_the_supply_cap() {
    let mut s = collection(Some(1));
    let r = mint(&mut s, vec![request(account(1, None)), request(account(2, None))], 1);
    assert!(matches!(r, Err(MintError::ExceedMaxAllowedSupplyCap)));
    assert_eq!(s.ledger.token_count(), 0);
    assert_eq!(s.last_token_id, 0);
}

#[test]
fn mint_refuses_content_that_was_never_uploaded() {
    let mut s = collection(None);
    let mut entries = KeyedMap::new();
    entries.insert("img".to_string(), "/missing.png".to_string());
    let mut req = request(account(1, None));
    req.public_content = Some(PublicMintContent { entries });
    let r = mint(&mut s, vec![request(account(2, None)), req], 1);
    assert!(matches!(r, Err(MintError::StorageCanisterError(_))));
    assert_eq!(s.ledger.token_count(), 0);
    assert_eq!(s.last_token_id, 0);
}

#[test]
fn append_file_needs_existing_tokens_and_a_free_guard() {
    let mut s = collection(None);
    mint(&mut s, vec![request(account(1, None))], 1).unwrap();
    let r = append_file(&s.guards, &s.ledger, &mut s.public, vec![AppendFileRequest { token_id: 5, public_content: None }]);
    assert!(matches!(r, Err(AppendFileError::TokenDoesNotExists)));
    let ok = append_file(&s.guards, &s.ledger, &mut s.public, vec![AppendFileRequest { token_id: 0, public_content: None }]);
    assert!(ok.is_ok());
    s.guards.insert(principal(9));
    let busy = append_file(&s.guards, &s.ledger, &mut s.public, vec![]);
    assert!(matches!(busy, Err(AppendFileError::ConcurrentManagementCall)));
}

fn cache_public_file(public: &mut PublicContentSystem, path: &str) {
    let p = path.to_string();
    public.init_upload_register(p.clone(), principal(7), p.clone(), 1, 3, 0).unwrap();
    public.upload_chunk_register(&p, 0, vec![1, 2, 3]).unwrap();
    public.finalize_upload_register(&p).unwrap();
}

fn cache_private_upload(private: &mut PrivateContentSystem, hash: [u8; 32], owner: u8) {
    private
        .init_premint_store(
            hash,
            vec![9],
            principal(owner),
            KeyedMap::new(),
            principal(7),
            "private/file.bin".to_string(),
            EncryptionMode::AES256,
            32,
            1,
            32,
            &KeyedMap::new(),
            0,
        )
        .unwrap();
    private.upload_chunk(&hash, 0, vec![1u8; 32]).unwrap();
    private.finalize_upload(&hash).unwrap();
}

#[test]
fn mint_refuses_an_over_long_memo() {
    let mut s = collection(None);
    s.settings.max_memo_size = Some(2);
    let mut req = request(account(1, None));
    req.memo = Some(vec![1, 2, 3]);
    let r = mint(&mut s, vec![request(account(2, None)), req], 1);
    assert!(matches!(r, Err(MintError::InvalidMemo)));
    assert_eq!(s.ledger.token_count(), 0);
}

#[test]
fn mint_refuses_a_plaintext_hash_named_twice() {
    let mut s = collection(None);
    cache_private_upload(&mut s.private, [1u8; 32], 2);
    let mut entries = KeyedMap::new();
    entries.insert("a".to_string(), [1u8; 32]);
    entries.insert("b".to_string(), [1u8; 32]);
    let mut req = request(account(2, None));
    req.private_content = Some(PrivateMintContent { default_readers: KeyedMap::new(), entries });
    match mint(&mut s, vec![req], 1) {
        Err(MintError::StorageCanisterError(m)) => assert!(m.starts_with("Duplicate private content hash")),
        _ => panic!("expected a repeated hash to be refused"),
    }
    assert!(s.private.premint_cache.contains_key(&[1u8; 32]));
}

#[test]
fn mint_moves_checked_content_to_the_new_token() {
    let mut s = collection(None);
    cache_private_upload(&mut s.private, [1u8; 32], 2);
    cache_public_file(&mut s.public, "/a.png");
    let mut private_entries = KeyedMap::new();
    private_entries.insert("secret".to_string(), [1u8; 32]);
    let mut public_entries = KeyedMap::new();
    public_entries.insert("img".to_string(), "/a.png".to_string());
    let mut req = request(account(2, None));
    req.private_content = Some(PrivateMintContent { default_readers: KeyedMap::new(), entries: private_entries });
    req.public_content = Some(PublicMintContent { entries: public_entries });
    let (first, _) = mint(&mut s, vec![req], 1).unwrap();
    assert_eq!(first, 0);
    assert!(s.private.nft_private.contains_key(&0));
    assert!(!s.private.premint_cache.contains_key(&[1u8; 32]));
    assert!(s.public.nft_public.get(&0).unwrap().entries.contains_key(&"img".to_string()));
    assert!(!s.public.temp_file_cache.contains_key(&"/a.png".to_string()));
}

#[test]
fn append_file_answers_the_first_failing_check() {
    let mut s = collection(None);
    cache_public_file(&mut s.public, "/a.png");
    cache_public_file(&mut s.public, "/b.png");
    let mut entries = KeyedMap::new();
    entries.insert("img".to_string(), "/a.png".to_string());
    let mut req = request(account(1, None));
    req.public_content = Some(PublicMintContent { entries });
    mint(&mut s, vec![req], 1).unwrap();
    let append = |name: &str, path: &str, token_id: u128| {
        let mut entries = KeyedMap::new();
        entries.insert(name.to_string(), path.to_string());
        AppendFileRequest { token_id, public_content: Some(PublicMintContent { entries }) }
    };
    let taken = append_file(&s.guards, &s.ledger, &mut s.public, vec![append("img", "/b.png", 0)]);
    assert!(matches!(taken, Err(AppendFileError::FileAlreadyExists)));
    let missing = append_file(&s.guards, &s.ledger, &mut s.public, vec![append("doc", "/nowhere.png", 0)]);
    assert!(matches!(missing, Err(AppendFileError::NotFound)));
    let first = append_file(
        &s.guards,
        &s.ledger,
        &mut s.public,
        vec![append("doc", "/b.png", 0), append("x", "/y.png", 9)],
    );
    assert!(matches!(first, Err(AppendFileError::TokenDoesNotExists)));
    assert!(s.public.temp_file_cache.contains_key(&"/b.png".to_string()));
    append_file(&s.guards, &s.ledger, &mut s.public, vec![append("doc", "/b.png", 0)]).unwrap();
    let record = s.public.nft_public.get(&0).unwrap();
    assert!(record.entries.contains_key(&"doc".to_string()));
    assert!(record.entries.contains_key(&"img".to_string()));
}

#[test]
fn burn_plan_and_done() {
    let mut s = collection(None);
    mint(&mut s, vec![request(account(1, None))], 1).unwrap();
    assert!(matches!(
        burn_nft_plan(&s.guards, &s.ledger, &s.private, &principal(2), 0),
        Err(BurnNftError::NotTokenOwner)
    ));
    assert!(matches!(
        burn_nft_plan(&s.guards, &s.ledger, &s.private, &principal(1), 5),
        Err(BurnNftError::TokenDoesNotExist)
    ));
    let (owner, files) = burn_nft_plan(&s.guards, &s.ledger, &s.private, &principal(1), 0).unwrap();
    assert_eq!(owner.owner.to_text(), principal(1).to_text());
    assert!(files.is_empty());
    burn_nft_done(&mut s.ledger, &mut s.private, 0);
    assert_eq!(s.ledger.token_count(), 0);
    s.guards.insert(principal(9));
    assert!(matches!(
        burn_nft_plan(&s.guards, &s.ledger, &s.private, &principal(1), 0),
        Err(BurnNftError::ConcurrentManagementCall)
    ));
}
