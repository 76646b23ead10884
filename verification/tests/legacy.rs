use core_nft::keyed::KeyedMap;
use core_nft::legacy::{
    migrate_internal_filestorage_into_public_content, stale_private_uploads, stale_public_uploads,
    InternalFile, STALE_UPLOAD_THRESHOLD_NS,
};
use core_nft::principal::PrincipalId;
use core_nft::private_content::{EncryptionMode, PrivateContentConfig, PrivateContentSystem};
use core_nft::public_content::PublicContentSystem;
use core_nft::upload::UploadState;

fn principal(bytes: &[u8]) -> PrincipalId {
    PrincipalId::from_bytes(bytes.to_vec()).unwrap()
}

fn file(state: UploadState, at: u64) -> InternalFile {
    InternalFile { init_timestamp: at, state, canister: principal(&[9]), path: "stored".to_string() }
}

#[test]
fn migration_caches_unknown_legacy_files_once() {
    let mut p = PublicContentSystem::new();
    p.init_upload_register("known".to_string(), principal(&[7]), "known".to_string(), 1, 1, 5).unwrap();
    let mut internal = KeyedMap::new();
    internal.insert("done".to_string(), file(UploadState::Finalized, 3));
    internal.insert("abandoned".to_string(), file(UploadState::InProgress, 4));
    internal.insert("known".to_string(), file(UploadState::Finalized, 6));
    assert_eq!(migrate_internal_filestorage_into_public_content(&mut p, &internal), 2);
    let done = p.temp_file_cache.get(&"done".to_string()).unwrap();
    assert_eq!(done.state, UploadState::Finalized);
    assert!(done.pending_upload.is_none());
    assert_eq!(done.file_size, 0);
    assert_eq!(done.storage_path, "stored");
    let abandoned = p.temp_file_cache.get(&"abandoned".to_string()).unwrap();
    assert_eq!(abandoned.pending_upload.as_ref().unwrap().timestamp_ns, 4);
    assert_eq!(abandoned.created_at_ns, 4);
    assert_eq!(p.temp_file_cache.get(&"known".to_string()).unwrap().created_at_ns, 5);
    assert_eq!(migrate_internal_filestorage_into_public_content(&mut p, &internal), 0);
    assert_eq!(p.temp_file_cache.len(), 3);
}

#[test]
fn stale_uploads_are_older_than_a_day() {
    let mut p = PublicContentSystem::new();
    p.init_upload_register("old".to_string(), principal(&[7]), "old-path".to_string(), 1, 1, 10).unwrap();
    p.init_upload_register("new".to_string(), principal(&[7]), "new-path".to_string(), 1, 1, 20).unwrap();
    let now = 11 + STALE_UPLOAD_THRESHOLD_NS;
    let stale = stale_public_uploads(&p, now);
    assert_eq!(stale.len(), 1);
    assert_eq!(stale[0].1, "old-path");
    assert_eq!(stale[0].2, "old");
    assert!(stale_public_uploads(&p, 10 + STALE_UPLOAD_THRESHOLD_NS).is_empty());

    let mut s = PrivateContentSystem {
        nft_private: KeyedMap::new(),
        premint_cache: KeyedMap::new(),
        config: PrivateContentConfig { vetkd_key_name: String::new(), vetkd_context: String::new() },
    };
    s.init_premint_store(
        [1u8; 32], vec![], principal(&[2]), KeyedMap::new(), principal(&[7]), "priv".to_string(),
        EncryptionMode::AES256, 16, 1, 16, &KeyedMap::new(), 0,
    )
    .unwrap();
    let stale = stale_private_uploads(&s, STALE_UPLOAD_THRESHOLD_NS + 1);
    assert_eq!(stale.len(), 1);
    assert_eq!(stale[0].2, [1u8; 32]);
    assert!(stale_private_uploads(&s, STALE_UPLOAD_THRESHOLD_NS).is_empty());
}
