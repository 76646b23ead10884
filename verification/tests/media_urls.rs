use core_nft::media::{normalize_media_path, render_media_url, render_redirection_url};

#[test]
fn renders_template_with_canister_id() {
    assert_eq!(
        render_redirection_url("https://{canister_id}.raw.icp0.io", "aaaaa-aa", "/img/photo.png"),
        "https://aaaaa-aa.raw.icp0.io/img/photo.png"
    );
}

#[test]
fn strips_trailing_slash_from_base() {
    assert_eq!(
        render_redirection_url("https://{canister_id}.raw.icp0.io/", "aaaaa-aa", "/a.png"),
        "https://aaaaa-aa.raw.icp0.io/a.png"
    );
}

#[test]
fn renders_opaque_templates_verbatim() {
    assert_eq!(render_redirection_url("test", "aaaaa-aa", "/a.png"), "test/a.png");
}

#[test]
fn media_url_without_template_uses_raw_domain() {
    assert_eq!(
        render_media_url(&None, false, "aaaaa-aa", "/x.png"),
        "https://aaaaa-aa.raw.icp0.io/x.png"
    );
}

#[test]
fn media_url_without_template_in_test_mode_uses_local_replica() {
    assert_eq!(
        render_media_url(&None, true, "aaaaa-aa", "/x.png"),
        "http://aaaaa-aa.localhost:4943/x.png"
    );
}

#[test]
fn media_url_template_ignores_test_mode() {
    let template = Some("https://{canister_id}.icp0.io//".to_string());
    let a = render_media_url(&template, true, "ryjl3-tyaaa-aaaaa-aaaba-cai", "/f");
    let b = render_media_url(&template, false, "ryjl3-tyaaa-aaaaa-aaaba-cai", "/f");
    assert_eq!(a, b);
    assert_eq!(a, "https://ryjl3-tyaaa-aaaaa-aaaba-cai.icp0.io/f");
}

#[test]
fn media_url_replaces_every_placeholder() {
    assert_eq!(
        render_redirection_url("{canister_id}/{canister_id}", "abc", "/p"),
        "abc/abc/p"
    );
}

#[test]
fn normalize_adds_missing_leading_slash() {
    assert_eq!(normalize_media_path("img/a.png"), "/img/a.png");
    assert_eq!(normalize_media_path("/img/a.png"), "/img/a.png");
    assert_eq!(normalize_media_path(""), "/");
}
