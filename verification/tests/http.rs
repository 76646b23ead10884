use core_nft::http::{
    is_raw_request, rerender_media_redirections, resolve_media_url, resolve_storage_canister,
    route, Route,
};
use core_nft::keyed::KeyedMap;
use core_nft::legacy::InternalFile;
use core_nft::principal::PrincipalId;
use core_nft::private_content::{PrivateContentConfig, PrivateContentSystem};
use core_nft::public_content::PublicContentSystem;
use core_nft::upload::UploadState;

fn principal(bytes: &[u8]) -> PrincipalId {
    PrincipalId::from_bytes(bytes.to_vec()).unwrap()
}

fn private_system() -> PrivateContentSystem {
    PrivateContentSystem {
        nft_private: KeyedMap::new(),
        premint_cache: KeyedMap::new(),
        config: PrivateContentConfig { vetkd_key_name: String::new(), vetkd_context: String::new() },
    }
}

fn text(bytes: &[u8]) -> String {
    candid::Principal::from_slice(bytes).to_text()
}

#[test]
fn routes_by_path() {
    assert_eq!(route("/logs"), Route::Logs);
    assert_eq!(route("/traces"), Route::Traces);
    assert_eq!(route("/metrics"), Route::Metrics);
    assert_eq!(route("/metrics/x"), Route::Media);
    assert_eq!(route("/img/a.png"), Route::Media);
}

#[test]
fn raw_requests_are_recognised_by_host() {
    let raw = vec![("Host".to_string(), "abc.raw.icp0.io".to_string())];
    assert!(is_raw_request(&raw));
    let certified = vec![("host".to_string(), "abc.icp0.io".to_string())];
    assert!(!is_raw_request(&certified));
    let other_header = vec![("x-host".to_string(), "abc.raw.icp0.io".to_string())];
    assert!(!is_raw_request(&other_header));
    assert!(!is_raw_request(&vec![]));
}

#[test]
fn registered_redirections_win() {
    let mut redirections = KeyedMap::new();
    redirections.insert("/img/a.png".to_string(), "https://elsewhere/a".to_string());
    let url = resolve_media_url(
        &redirections,
        &None,
        false,
        &PublicContentSystem::new(),
        &KeyedMap::new(),
        &private_system(),
        "img/a.png",
    );
    assert_eq!(url.unwrap(), "https://elsewhere/a");
}

#[test]
fn unknown_paths_resolve_to_nothing() {
    let url = resolve_media_url(
        &KeyedMap::new(),
        &None,
        false,
        &PublicContentSystem::new(),
        &KeyedMap::new(),
        &private_system(),
        "/nope",
    );
    assert!(url.is_none());
}

#[test]
fn finalized_public_files_resolve_to_their_canister() {
    let mut p = PublicContentSystem::new();
    p.init_upload_register("img/a.png".to_string(), principal(&[7]), "img/a.png".to_string(), 1, 2, 0).unwrap();
    let unresolved = resolve_storage_canister(
        &p,
        &KeyedMap::new(),
        &private_system(),
        &"/img/a.png".to_string(),
        &"img/a.png".to_string(),
    );
    assert!(unresolved.is_none());
    p.upload_chunk_register(&"img/a.png".to_string(), 0, vec![1, 2]).unwrap();
    p.finalize_upload_register(&"img/a.png".to_string()).unwrap();
    let url = resolve_media_url(
        &KeyedMap::new(),
        &Some("https://{canister_id}.raw.icp0.io/".to_string()),
        false,
        &p,
        &KeyedMap::new(),
        &private_system(),
        "img/a.png",
    );
    assert_eq!(url.unwrap(), format!("https://{}.raw.icp0.io/img/a.png", text(&[7])));
}

#[test]
fn legacy_index_resolves_finalized_uploads() {
    let mut internal = KeyedMap::new();
    internal.insert(
        "/old.png".to_string(),
        InternalFile { init_timestamp: 1, state: UploadState::Finalized, canister: principal(&[9]), path: "/old.png".to_string() },
    );
    let url = resolve_media_url(
        &KeyedMap::new(),
        &None,
        true,
        &PublicContentSystem::new(),
        &internal,
        &private_system(),
        "old.png",
    );
    assert_eq!(url.unwrap(), format!("http://{}.localhost:4943/old.png", text(&[9])));
}

#[test]
fn rerender_moves_redirections_to_the_new_template() {
    let mut redirections = KeyedMap::new();
    redirections.insert("/old.png".to_string(), "https://stale/old.png".to_string());
    redirections.insert("/lost.png".to_string(), "https://stale/lost.png".to_string());
    let mut internal = KeyedMap::new();
    internal.insert(
        "old.png".to_string(),
        InternalFile { init_timestamp: 1, state: UploadState::InProgress, canister: principal(&[9]), path: "old.png".to_string() },
    );
    let p = PublicContentSystem::new();
    assert_eq!(rerender_media_redirections(&mut redirections, &None, &p, &internal), 0);
    let n = rerender_media_redirections(
        &mut redirections,
        &Some("https://{canister_id}.icp0.io".to_string()),
        &p,
        &internal,
    );
    assert_eq!(n, 1);
    assert_eq!(
        redirections.get(&"/old.png".to_string()).unwrap(),
        &format!("https://{}.icp0.io/old.png", text(&[9]))
    );
    assert_eq!(redirections.get(&"/lost.png".to_string()).unwrap(), "https://stale/lost.png");
}

#[test]
fn media_url_is_the_same_for_a_path_and_its_media_form() {
    let mut redirections = KeyedMap::new();
    redirections.insert("/a.png".to_string(), "https://elsewhere/a.png".to_string());
    let public = PublicContentSystem::new();
    let internal = KeyedMap::new();
    let private = private_system();
    let bare = resolve_media_url(&redirections, &None, false, &public, &internal, &private, "a.png");
    let slashed = resolve_media_url(&redirections, &None, false, &public, &internal, &private, "/a.png");
    assert_eq!(bare, slashed);
    assert_eq!(bare.unwrap(), "https://elsewhere/a.png");
    let none = resolve_media_url(&redirections, &None, false, &public, &internal, &private, "b.png");
    assert_eq!(none, resolve_media_url(&redirections, &None, false, &public, &internal, &private, "/b.png"));
    assert!(none.is_none());
}
