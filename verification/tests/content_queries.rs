use core_nft::access::{AccessRights, ReaderInfo, Readers};
use core_nft::content_queries::{get_private_content_metadata, get_public_content_metadata};
use core_nft::keyed::KeyedMap;
use core_nft::principal::PrincipalId;
use core_nft::private_content::{
    EncryptionMode, PrivateContentConfig, PrivateContentStatus, PrivateContentSystem,
};
use core_nft::public_content::PublicContentSystem;
use core_nft::upload::UploadState;

fn principal(bytes: &[u8]) -> PrincipalId {
    PrincipalId::from_bytes(bytes.to_vec()).unwrap()
}

fn public_with_token() -> PublicContentSystem {
    let mut s = PublicContentSystem::new();
    for path in ["a.png", "b.png"] {
        s.init_upload_register(path.to_string(), principal(&[4]), path.to_string(), 1, 3, 0)
            .unwrap();
        s.upload_chunk_register(&path.to_string(), 0, vec![1, 2, 3]).unwrap();
        s.finalize_upload_register(&path.to_string()).unwrap();
    }
    let mut entries = KeyedMap::new();
    entries.insert("front".to_string(), "a.png".to_string());
    entries.insert("back".to_string(), "b.png".to_string());
    s.mint_public_content(entries, 12).unwrap();
    s
}

#[test]
fn public_metadata_of_one_or_all_entries() {
    let s = public_with_token();
    let one = get_public_content_metadata(&s, 12, &Some("front".to_string())).unwrap();
    assert_eq!(one.len(), 1);
    assert_eq!(one[0].name, "front");
    assert_eq!(one[0].storage_path, "a.png");
    assert_eq!(one[0].file_size, 3);
    assert_eq!(one[0].state, UploadState::Finalized);
    let mut names: Vec<String> = get_public_content_metadata(&s, 12, &None)
        .unwrap()
        .into_iter()
        .map(|d| d.name)
        .collect();
    names.sort();
    assert_eq!(names, vec!["back".to_string(), "front".to_string()]);
}

#[test]
fn public_metadata_errors() {
    let s = public_with_token();
    assert!(matches!(
        get_public_content_metadata(&s, 12, &Some("side".to_string())),
        Err(m) if m == "Public entry 'side' not found"
    ));
    assert!(matches!(
        get_public_content_metadata(&s, 1000, &None),
        Err(m) if m == "NFT 1_000 has no public content"
    ));
}

fn private_with_token() -> PrivateContentSystem {
    let mut s = PrivateContentSystem {
        nft_private: KeyedMap::new(),
        premint_cache: KeyedMap::new(),
        config: PrivateContentConfig {
            vetkd_key_name: "key".to_string(),
            vetkd_context: "ctx".to_string(),
        },
    };
    let mut readers: Readers = KeyedMap::new();
    readers.insert(principal(&[8]), ReaderInfo { rights: AccessRights::ReadWrite, alias: Some("bob".to_string()) });
    s.init_premint_store(
        [3u8; 32],
        vec![9],
        principal(&[2]),
        readers,
        principal(&[7]),
        "private/doc.bin".to_string(),
        EncryptionMode::AES256,
        32,
        1,
        32,
        &KeyedMap::new(),
        5,
    )
    .unwrap();
    s.upload_chunk(&[3u8; 32], 0, vec![0u8; 32]).unwrap();
    s.finalize_upload(&[3u8; 32]).unwrap();
    let mut entries = KeyedMap::new();
    entries.insert("doc".to_string(), [3u8; 32]);
    s.mint_private_content(KeyedMap::new(), entries, 5, principal(&[2])).unwrap();
    s
}

#[test]
fn private_metadata_lists_readers() {
    let s = private_with_token();
    let all = get_private_content_metadata(&s, 5, &None).unwrap();
    assert_eq!(all.len(), 1);
    let d = &all[0];
    assert_eq!(d.name, "doc");
    assert_eq!(d.status, PrivateContentStatus::Active);
    assert_eq!(d.plaintext_hash, [3u8; 32]);
    assert_eq!(d.storage_path, "private/doc.bin");
    assert_eq!(d.readers.len(), 1);
    assert_eq!(d.readers[0].principal.as_bytes(), &[8]);
    assert_eq!(d.readers[0].rights, AccessRights::ReadWrite);
    assert_eq!(d.readers[0].alias, Some("bob".to_string()));
}

#[test]
fn private_metadata_errors() {
    let s = private_with_token();
    assert!(matches!(
        get_private_content_metadata(&s, 5, &Some("x".to_string())),
        Err(m) if m == "Private entry 'x' not found"
    ));
    assert!(matches!(
        get_private_content_metadata(&s, 6, &None),
        Err(m) if m == "NFT 6 has no private content"
    ));
}
