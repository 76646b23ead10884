use core_nft::keyed::KeyedMap;
use core_nft::principal::PrincipalId;
use core_nft::public_content::{PublicContentError, PublicContentSystem};
use core_nft::upload::{
    AppendFileError, FinalizeUploadError, InitUploadError, StoreChunkError, UploadState,
    CHUNK_SIZE, MAX_CONTENT_SIZE,
};

fn dummy_principal() -> PrincipalId {
    PrincipalId::management()
}

fn make_system() -> PublicContentSystem {
    PublicContentSystem::new()
}

fn register_finalized_upload(system: &mut PublicContentSystem, file_path: &str, data: Vec<u8>) {
    let file_size = data.len() as u64;
    system
        .init_upload_register(
            file_path.to_string(),
            dummy_principal(),
            file_path.to_string(),
            1,
            file_size,
            0,
        )
        .unwrap();
    system.upload_chunk_register(&file_path.to_string(), 0, data).unwrap();
    system.finalize_upload_register(&file_path.to_string()).unwrap();
}

fn entries_of(pairs: &[(&str, &str)]) -> KeyedMap<String, String> {
    let mut entries = KeyedMap::new();
    for (name, path) in pairs {
        entries.insert(name.to_string(), path.to_string());
    }
    entries
}

#[test]
fn init_upload_validate_accepts_new_file() {
    let system = make_system();
    let result = system.init_upload_validate(&"file/path.png".to_string(), 100);
    assert!(result.is_ok());
}

#[test]
fn init_upload_validate_rejects_file_in_cache() {
    let mut system = make_system();
    let path = "file/path.png".to_string();
    system.init_upload_register(path.clone(), dummy_principal(), path.clone(), 1, 100, 0).unwrap();
    let result = system.init_upload_validate(&path, 100);
    assert!(matches!(result, Err(InitUploadError::FileAlreadyExists)));
}

#[test]
fn init_upload_validate_rejects_file_already_minted() {
    let mut system = make_system();
    let path = "file/path.png".to_string();
    let token_id: u128 = 1;
    register_finalized_upload(&mut system, &path, vec![0u8; 100]);
    system.mint_public_content(entries_of(&[("main", &path)]), token_id).unwrap();
    let result = system.init_upload_validate(&path, 100);
    assert!(matches!(result, Err(InitUploadError::FileAlreadyExists)));
}

#[test]
fn init_upload_validate_rejects_oversized_file() {
    let system = make_system();
    let result = system.init_upload_validate(&"big.bin".to_string(), MAX_CONTENT_SIZE + 1);
    assert!(matches!(result, Err(InitUploadError::ContentTooLarge)));
}

#[test]
fn init_upload_register_adds_entry_to_cache() {
    let mut system = make_system();
    let path = "audio/track.mp3".to_string();
    system.init_upload_register(path.clone(), dummy_principal(), path.clone(), 3, 300, 42).unwrap();
    let entry = system.temp_file_cache.get(&path).unwrap();
    assert_eq!(entry.state, UploadState::Init);
    assert_eq!(entry.file_size, 300);
    assert_eq!(entry.created_at_ns, 42);
    assert_eq!(entry.pending_upload.as_ref().unwrap().expected_chunks, 3);
}

#[test]
fn init_upload_register_rejects_duplicate_path() {
    let mut system = make_system();
    let path = "audio/track.mp3".to_string();
    system.init_upload_register(path.clone(), dummy_principal(), path.clone(), 1, 100, 0).unwrap();
    let result =
        system.init_upload_register(path.clone(), dummy_principal(), path.clone(), 1, 100, 0);
    assert!(matches!(result, Err(InitUploadError::FileAlreadyExists)));
}

#[test]
fn upload_chunk_register_transitions_state_to_in_progress() {
    let mut system = make_system();
    let path = "img/photo.jpg".to_string();
    let data = vec![1u8; 100];
    system.init_upload_register(path.clone(), dummy_principal(), path.clone(), 2, 200, 0).unwrap();
    system.upload_chunk_register(&path, 0, data).unwrap();
    let entry = system.temp_file_cache.get(&path).unwrap();
    assert_eq!(entry.state, UploadState::InProgress);
}

#[test]
fn upload_chunk_register_stores_multiple_chunks() {
    let mut system = make_system();
    let path = "doc/file.pdf".to_string();
    system.init_upload_register(path.clone(), dummy_principal(), path.clone(), 3, 300, 0).unwrap();
    for i in 0u64..3 {
        system.upload_chunk_register(&path, i as u128, vec![i as u8; 100]).unwrap();
    }
    let chunks = &system
        .temp_file_cache
        .get(&path)
        .unwrap()
        .pending_upload
        .as_ref()
        .unwrap()
        .received_chunks;
    assert_eq!(chunks.len(), 3);
}

#[test]
fn upload_chunk_register_rejects_out_of_bounds_chunk() {
    let mut system = make_system();
    let path = "img/photo.jpg".to_string();
    system.init_upload_register(path.clone(), dummy_principal(), path.clone(), 1, 100, 0).unwrap();
    let result = system.upload_chunk_register(&path, 1, vec![0u8; 100]);
    assert!(matches!(result, Err(StoreChunkError::InvalidChunkId)));
}

#[test]
fn upload_chunk_register_rejects_oversized_chunk() {
    let mut system = make_system();
    let path = "img/photo.jpg".to_string();
    system
        .init_upload_register(path.clone(), dummy_principal(), path.clone(), 1, CHUNK_SIZE as u64, 0)
        .unwrap();
    let oversized = vec![0u8; CHUNK_SIZE + 1];
    let result = system.upload_chunk_register(&path, 0, oversized);
    assert!(matches!(result, Err(StoreChunkError::InvalidChunkData)));
}

#[test]
fn upload_chunk_register_rejects_unknown_path() {
    let mut system = make_system();
    let result = system.upload_chunk_register(&"nonexistent.bin".to_string(), 0, vec![]);
    assert!(matches!(result, Err(StoreChunkError::InvalidFilePath)));
}

#[test]
fn finalize_upload_register_succeeds_with_all_chunks() {
    let mut system = make_system();
    let path = "vid/clip.mp4".to_string();
    let data = vec![42u8; 512];
    system.init_upload_register(path.clone(), dummy_principal(), path.clone(), 1, 512, 0).unwrap();
    system.upload_chunk_register(&path, 0, data).unwrap();
    system.finalize_upload_register(&path).unwrap();
    let entry = system.temp_file_cache.get(&path).unwrap();
    assert_eq!(entry.state, UploadState::Finalized);
    assert!(entry.pending_upload.is_none());
}

#[test]
fn finalize_upload_register_rejects_missing_chunks() {
    let mut system = make_system();
    let path = "vid/clip.mp4".to_string();
    system.init_upload_register(path.clone(), dummy_principal(), path.clone(), 2, 200, 0).unwrap();
    system.upload_chunk_register(&path, 0, vec![0u8; 100]).unwrap();
    let result = system.finalize_upload_register(&path);
    assert!(matches!(result, Err(FinalizeUploadError::IncompleteUpload)));
}

#[test]
fn finalize_upload_register_rejects_file_size_mismatch() {
    let mut system = make_system();
    let path = "vid/clip.mp4".to_string();
    system.init_upload_register(path.clone(), dummy_principal(), path.clone(), 1, 200, 0).unwrap();
    system.upload_chunk_register(&path, 0, vec![0u8; 100]).unwrap();
    let result = system.finalize_upload_register(&path);
    assert!(matches!(result, Err(FinalizeUploadError::FileSizeMismatch)));
}

#[test]
fn finalize_upload_register_rejects_unknown_path() {
    let mut system = make_system();
    let result = system.finalize_upload_register(&"ghost.bin".to_string());
    assert!(matches!(result, Err(FinalizeUploadError::UploadNotStarted)));
}

#[test]
fn cancel_upload_register_removes_entry() {
    let mut system = make_system();
    let path = "img/photo.jpg".to_string();
    system.init_upload_register(path.clone(), dummy_principal(), path.clone(), 1, 100, 0).unwrap();
    let _ = system.cancel_upload_register(&path);
    assert!(!system.temp_file_cache.contains_key(&path));
}

#[test]
fn cancel_upload_register_is_idempotent_on_unknown_path() {
    let mut system = make_system();
    let result = system.cancel_upload_register(&"nonexistent.png".to_string());
    assert!(result.is_ok());
}

#[test]
fn mint_public_content_moves_entry_to_nft_public() {
    let mut system = make_system();
    let path = "img/token.png".to_string();
    let token_id: u128 = 1;
    register_finalized_upload(&mut system, &path, vec![0xAB; 100]);
    system.mint_public_content(entries_of(&[("thumbnail", &path)]), token_id).unwrap();
    assert!(!system.temp_file_cache.contains_key(&path));
    assert!(system.nft_public.contains_key(&token_id));
    assert!(system
        .nft_public
        .get(&token_id)
        .unwrap()
        .entries
        .contains_key(&"thumbnail".to_string()));
    assert!(system.file_to_nfts.get(&path).unwrap().contains(&token_id));
    assert!(system.nft_to_files.get(&token_id).unwrap().contains(&path));
}

#[test]
fn mint_public_content_rejects_duplicate_token_id() {
    let mut system = make_system();
    let token_id: u128 = 1;
    let path1 = "img/a.png".to_string();
    register_finalized_upload(&mut system, &path1, vec![1u8; 50]);
    system.mint_public_content(entries_of(&[("a", &path1)]), token_id).unwrap();
    let path2 = "img/b.png".to_string();
    register_finalized_upload(&mut system, &path2, vec![2u8; 50]);
    let result = system.mint_public_content(entries_of(&[("b", &path2)]), token_id);
    assert!(matches!(result, Err(PublicContentError::FileAlreadyExists)));
}

#[test]
fn mint_public_content_rejects_non_finalized_entry() {
    let mut system = make_system();
    let path = "img/partial.png".to_string();
    let token_id: u128 = 2;
    system.init_upload_register(path.clone(), dummy_principal(), path.clone(), 1, 100, 0).unwrap();
    let result = system.mint_public_content(entries_of(&[("partial", &path)]), token_id);
    assert!(matches!(result, Err(PublicContentError::InvalidStateTransition)));
}

#[test]
fn mint_public_content_allows_shared_file_across_nfts() {
    let mut system = make_system();
    let path = "shared/logo.svg".to_string();
    register_finalized_upload(&mut system, &path, vec![0xCC; 64]);
    let token1: u128 = 10;
    system.mint_public_content(entries_of(&[("logo", &path)]), token1).unwrap();
    let token2: u128 = 11;
    system.mint_public_content(entries_of(&[("logo", &path)]), token2).unwrap();
    let set = system.file_to_nfts.get(&path).unwrap();
    assert!(set.contains(&token1));
    assert!(set.contains(&token2));
}

#[test]
fn append_register_links_entry_to_new_token_id() {
    let mut system = make_system();
    let path = "doc/readme.md".to_string();
    let token_id: u128 = 99;
    register_finalized_upload(&mut system, &path, vec![0u8; 50]);
    system.append_register(entries_of(&[("readme", &path)]), token_id).unwrap();
    assert!(system.nft_public.contains_key(&token_id));
    assert!(system.file_to_nfts.get(&path).unwrap().contains(&token_id));
    assert!(system.nft_to_files.get(&token_id).unwrap().contains(&path));
}

#[test]
fn append_register_rejects_duplicate_token() {
    let mut system = make_system();
    let path = "doc/readme.md".to_string();
    let token_id: u128 = 99;
    register_finalized_upload(&mut system, &path, vec![0u8; 50]);
    system.append_register(entries_of(&[("readme", &path)]), token_id).unwrap();
    let path2 = "doc/other.md".to_string();
    register_finalized_upload(&mut system, &path2, vec![0u8; 30]);
    let result = system.append_register(entries_of(&[("other", &path2)]), token_id);
    assert!(matches!(result, Err(AppendFileError::FileAlreadyExists)));
}

#[test]
fn burn_public_content_marks_burned_at_and_removes_indexes() {
    let mut system = make_system();
    let path = "img/burn_me.png".to_string();
    let token_id: u128 = 5;
    register_finalized_upload(&mut system, &path, vec![0u8; 100]);
    system.mint_public_content(entries_of(&[("img", &path)]), token_id).unwrap();
    let files_to_delete = system.burn_public_content(&token_id, 12345);
    assert_eq!(system.nft_public.get(&token_id).unwrap().burned_at_ns, Some(12345));
    assert!(!system.nft_to_files.contains_key(&token_id));
    assert_eq!(files_to_delete, vec![path.clone()]);
    assert!(!system.file_to_nfts.contains_key(&path));
}

#[test]
fn burn_public_content_keeps_shared_file_when_other_nft_references_it() {
    let mut system = make_system();
    let path = "shared/asset.png".to_string();
    register_finalized_upload(&mut system, &path, vec![0xAA; 64]);
    let token1: u128 = 1;
    system.mint_public_content(entries_of(&[("a", &path)]), token1).unwrap();
    let token2: u128 = 2;
    system.mint_public_content(entries_of(&[("a", &path)]), token2).unwrap();
    let files_to_delete = system.burn_public_content(&token1, 999);
    assert!(files_to_delete.is_empty());
    let remaining = system.file_to_nfts.get(&path).unwrap();
    assert!(remaining.contains(&token2));
    assert!(!remaining.contains(&token1));
}

#[test]
fn collect_expired_burned_returns_expired_entries() {
    let mut system = make_system();
    let path = "img/old.png".to_string();
    let token_id: u128 = 7;
    register_finalized_upload(&mut system, &path, vec![0u8; 100]);
    system.mint_public_content(entries_of(&[("old", &path)]), token_id).unwrap();
    system.burn_public_content(&token_id, 100);
    let expired = system.collect_expired_burned(200, 50);
    assert_eq!(expired.len(), 1);
    assert_eq!(expired[0].0, token_id);
}

#[test]
fn collect_expired_burned_ignores_not_yet_expired_entries() {
    let mut system = make_system();
    let path = "img/recent.png".to_string();
    let token_id: u128 = 8;
    register_finalized_upload(&mut system, &path, vec![0u8; 100]);
    system.mint_public_content(entries_of(&[("recent", &path)]), token_id).unwrap();
    system.burn_public_content(&token_id, 1000);
    let expired = system.collect_expired_burned(1499, 500);
    assert!(expired.is_empty());
}

#[test]
fn collect_expired_burned_skips_shared_files() {
    let mut system = make_system();
    let path = "shared/img.png".to_string();
    register_finalized_upload(&mut system, &path, vec![0xBB; 64]);
    let token1: u128 = 20;
    let token2: u128 = 21;
    system.mint_public_content(entries_of(&[("img", &path)]), token1).unwrap();
    system.mint_public_content(entries_of(&[("img", &path)]), token2).unwrap();
    system.burn_public_content(&token1, 10);
    let expired = system.collect_expired_burned(100, 5);
    let record = expired.iter().find(|(id, _)| id == &token1);
    if let Some((_, files)) = record {
        assert!(files.is_empty(), "Shared file must not appear in expired list");
    }
}

#[test]
fn remove_burned_record_clears_nft_public_entry() {
    let mut system = make_system();
    let path = "img/gone.png".to_string();
    let token_id: u128 = 55;
    register_finalized_upload(&mut system, &path, vec![0u8; 64]);
    system.mint_public_content(entries_of(&[("gone", &path)]), token_id).unwrap();
    system.burn_public_content(&token_id, 1);
    system.remove_burned_record(&token_id);
    assert!(!system.nft_public.contains_key(&token_id));
}

#[test]
fn get_nft_public_entry_returns_correct_entry() {
    let mut system = make_system();
    let path = "img/icon.png".to_string();
    let token_id: u128 = 1;
    register_finalized_upload(&mut system, &path, vec![0xDE; 64]);
    system.mint_public_content(entries_of(&[("icon", &path)]), token_id).unwrap();
    let entry = system.get_nft_public_entry(token_id, "icon").unwrap();
    assert_eq!(entry.storage_path, path);
}

#[test]
fn get_nft_public_entry_errors_on_missing_token() {
    let system = make_system();
    let result = system.get_nft_public_entry(999, "icon");
    assert!(result.is_err());
}

#[test]
fn get_nft_public_entry_errors_on_missing_entry_name() {
    let mut system = make_system();
    let path = "img/icon.png".to_string();
    let token_id: u128 = 1;
    register_finalized_upload(&mut system, &path, vec![0u8; 64]);
    system.mint_public_content(entries_of(&[("icon", &path)]), token_id).unwrap();
    let result = system.get_nft_public_entry(token_id, "banner");
    assert!(result.is_err());
}

#[test]
fn get_files_by_nft_returns_associated_files() {
    let mut system = make_system();
    let path = "img/photo.png".to_string();
    let token_id: u128 = 1;
    register_finalized_upload(&mut system, &path, vec![0u8; 64]);
    system.mint_public_content(entries_of(&[("photo", &path)]), token_id).unwrap();
    let files = system.get_files_by_nft(&token_id);
    assert_eq!(files, vec![path]);
}

#[test]
fn get_files_by_nft_returns_empty_for_unknown_token() {
    let system = make_system();
    let files = system.get_files_by_nft(&404);
    assert!(files.is_empty());
}

#[test]
fn get_public_file_by_path_returns_cached_entry() {
    let mut system = make_system();
    let path = "img/cached.png".to_string();
    system.init_upload_register(path.clone(), dummy_principal(), path.clone(), 1, 100, 0).unwrap();
    let entry = system.get_public_file_by_path(&path);
    assert!(entry.is_some());
}

#[test]
fn get_public_file_by_path_returns_minted_entry() {
    let mut system = make_system();
    let path = "img/minted.png".to_string();
    let token_id: u128 = 1;
    register_finalized_upload(&mut system, &path, vec![0u8; 64]);
    system.mint_public_content(entries_of(&[("minted", &path)]), token_id).unwrap();
    let entry = system.get_public_file_by_path(&path);
    assert!(entry.is_some());
    assert_eq!(entry.unwrap().storage_path, path);
}

#[test]
fn get_public_file_by_path_returns_none_for_unknown_path() {
    let system = make_system();
    assert!(system.get_public_file_by_path("unknown/file.png").is_none());
}

#[test]
fn remove_entry_by_path_removes_cached_entry() {
    let mut system = make_system();
    let path = "temp/upload.bin".to_string();
    system.init_upload_register(path.clone(), dummy_principal(), path.clone(), 1, 100, 0).unwrap();
    system.remove_entry_by_path(&path).unwrap();
    assert!(!system.temp_file_cache.contains_key(&path));
}

#[test]
fn remove_entry_by_path_rejects_minted_file() {
    let mut system = make_system();
    let path = "img/active.png".to_string();
    let token_id: u128 = 1;
    register_finalized_upload(&mut system, &path, vec![0u8; 64]);
    system.mint_public_content(entries_of(&[("active", &path)]), token_id).unwrap();
    let result = system.remove_entry_by_path(&path);
    assert!(matches!(result, Err(PublicContentError::InvalidStateTransition)));
}

#[test]
fn remove_entry_by_path_returns_not_found_for_unknown_path() {
    let mut system = make_system();
    let result = system.remove_entry_by_path(&"ghost.png".to_string());
    assert!(matches!(result, Err(PublicContentError::NotFound)));
}

fn page_has(page: &[(String, UploadState)], path: &str) -> bool {
    page.iter().any(|(p, _)| p == path)
}

#[test]
fn get_paginated_uploads_includes_cached_and_minted_entries() {
    let mut system = make_system();
    let path_cached = "img/cached.png".to_string();
    system
        .init_upload_register(path_cached.clone(), dummy_principal(), path_cached.clone(), 1, 100, 0)
        .unwrap();
    let path_minted = "img/minted.png".to_string();
    let token_id: u128 = 1;
    register_finalized_upload(&mut system, &path_minted, vec![0u8; 64]);
    system.mint_public_content(entries_of(&[("minted", &path_minted)]), token_id).unwrap();
    let page = system.get_paginated_uploads(None, None);
    assert!(page_has(&page, &path_cached));
    assert!(page_has(&page, &path_minted));
}

#[test]
fn get_paginated_uploads_respects_skip_and_take() {
    let mut system = make_system();
    for i in 0..5u64 {
        let path = format!("img/{i:04}.png");
        system.init_upload_register(path.clone(), dummy_principal(), path.clone(), 1, 10, 0).unwrap();
    }
    let page = system.get_paginated_uploads(Some(2), Some(2));
    assert_eq!(page.len(), 2);
}

#[test]
fn get_all_files_returns_both_cached_and_minted() {
    let mut system = make_system();
    let path_cached = "img/cached.png".to_string();
    system
        .init_upload_register(path_cached.clone(), dummy_principal(), path_cached.clone(), 1, 100, 0)
        .unwrap();
    let path_minted = "img/minted.png".to_string();
    let token_id: u128 = 1;
    register_finalized_upload(&mut system, &path_minted, vec![0u8; 64]);
    system.mint_public_content(entries_of(&[("minted", &path_minted)]), token_id).unwrap();
    let all = system.get_all_files();
    assert!(all.contains_key(&path_cached));
    assert!(all.contains_key(&path_minted));
}

#[test]
fn get_all_files_deduplicates_shared_files() {
    let mut system = make_system();
    let path = "shared/logo.svg".to_string();
    register_finalized_upload(&mut system, &path, vec![0xCC; 64]);
    for i in 1u64..=3 {
        let token_id = i as u128;
        system.mint_public_content(entries_of(&[("logo", &path)]), token_id).unwrap();
    }
    let all = system.get_all_files();
    let mut count = 0;
    for i in 0..all.len() {
        if *all.key_at(i) == path {
            count += 1;
        }
    }
    assert_eq!(count, 1);
}

#[test]
fn paginated_uploads_come_sorted_by_path_and_paged() {
    let mut system = make_system();
    for name in ["c.png", "a.png", "e.png", "b.png", "d.png"] {
        system
            .init_upload_register(name.to_string(), dummy_principal(), name.to_string(), 1, 10, 0)
            .unwrap();
    }
    let all = system.get_paginated_uploads(None, None);
    let paths: Vec<&str> = all.iter().map(|(p, _)| p.as_str()).collect();
    assert_eq!(paths, vec!["a.png", "b.png", "c.png", "d.png", "e.png"]);
    let page = system.get_paginated_uploads(Some(1), Some(2));
    let paths: Vec<&str> = page.iter().map(|(p, _)| p.as_str()).collect();
    assert_eq!(paths, vec!["b.png", "c.png"]);
    let past_end = system.get_paginated_uploads(Some(10), Some(2));
    assert!(past_end.is_empty());
}

#[test]
fn mint_of_missing_file_is_not_found_and_keeps_indexes() {
    let mut system = make_system();
    let result = system.mint_public_content(entries_of(&[("x", "nowhere.png")]), 3);
    assert!(matches!(result, Err(PublicContentError::NotFound)));
    assert!(!system.nft_public.contains_key(&3));
    assert!(system.file_to_nfts.is_empty());
    assert!(system.nft_to_files.is_empty());
}

#[test]
fn append_finds_files_held_by_tokens_by_hash() {
    let mut system = make_system();
    let path = "doc/shared.md".to_string();
    register_finalized_upload(&mut system, &path, vec![1u8; 20]);
    system.mint_public_content(entries_of(&[("doc", &path)]), 1).unwrap();
    system.append_register(entries_of(&[("copy", &path)]), 2).unwrap();
    let users = system.file_to_nfts.get(&path).unwrap();
    assert!(users.contains(&1) && users.contains(&2));
    let missing = system.append_register(entries_of(&[("x", "doc/none.md")]), 3);
    assert!(matches!(missing, Err(AppendFileError::NotFound)));
}

#[test]
fn chunk_for_minted_file_under_reupload_goes_to_its_entry() {
    let mut system = make_system();
    let path = "img/re.png".to_string();
    register_finalized_upload(&mut system, &path, vec![5u8; 10]);
    system.mint_public_content(entries_of(&[("re", &path)]), 4).unwrap();
    let finalized = system.upload_chunk_register(&path, 0, vec![1u8; 10]);
    assert!(matches!(finalized, Err(StoreChunkError::InvalidFilePath)));
}

#[test]
fn not_found_messages_name_the_token_and_entry() {
    let mut system = make_system();
    let missing = system.get_nft_public_entry(1234, "icon");
    assert_eq!(missing.err().unwrap(), "NFT 1_234 not found");
    let path = "img/icon.png".to_string();
    register_finalized_upload(&mut system, &path, vec![0u8; 8]);
    system.mint_public_content(entries_of(&[("icon", &path)]), 1).unwrap();
    let no_entry = system.get_nft_public_entry(1, "banner");
    assert_eq!(no_entry.err().unwrap(), "Public entry 'banner' not found for NFT 1");
}

#[test]
fn cancel_twice_leaves_the_same_state() {
    let mut system = make_system();
    let path = "img/x.png".to_string();
    system.init_upload_register(path.clone(), dummy_principal(), path.clone(), 1, 10, 0).unwrap();
    system.cancel_upload_register(&path).unwrap();
    system.cancel_upload_register(&path).unwrap();
    assert!(system.temp_file_cache.is_empty());
}
