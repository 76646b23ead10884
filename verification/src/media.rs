//! Media URLs: where a stored file is served from.
//!
//! Every place that hands out or registers a media URL goes through
//! [`render_media_url`], so that a path resolved later rebuilds exactly the
//! URL that was handed out when the upload was finalized.

use vstd::prelude::*;
use crate::text::{
    chars_of, push_all, replace_chars, spec_replace, spec_trim_end, string_from_chars,
    trim_end_chars,
};

verus! {

broadcast use vstd::string::group_string_axioms;

/// The placeholder that a base URL template carries for the storage canister.
pub open spec fn canister_id_placeholder() -> Seq<char> {
    "{canister_id}"@
}

/// The URL at which `file_path`, held by the storage canister whose textual id
/// is `canister_id`, is served.
pub open spec fn spec_render_media_url(
    base_url: Option<Seq<char>>,
    is_test_mode: bool,
    canister_id: Seq<char>,
    file_path: Seq<char>,
) -> Seq<char> {
    match base_url {
        Some(template) => spec_trim_end(
            spec_replace(template, canister_id_placeholder(), canister_id),
            '/',
        ) + file_path,
        None => if is_test_mode {
            "http://"@ + canister_id + ".localhost:4943"@ + file_path
        } else {
            "https://"@ + canister_id + ".raw.icp0.io"@ + file_path
        },
    }
}

/// A media path in the form the asset router and the redirections are keyed
/// by: always with a leading slash.
pub open spec fn spec_normalize_media_path(path: Seq<char>) -> Seq<char> {
    if path.len() > 0 && path[0] == '/' {
        path
    } else {
        seq!['/'] + path
    }
}

/// Renders the URL a stored file is served from.
///
/// `base_url` is a template carrying a `{canister_id}` placeholder, e.g.
/// `https://{canister_id}.raw.icp0.io`; the rendered base loses its trailing
/// slashes before `file_path`, which is expected to carry its leading slash,
/// is appended. Without a template the URL points at the local replica in test
/// mode and at the `raw.icp0.io` domain otherwise.
pub fn render_media_url(
    base_url: &Option<String>,
    is_test_mode: bool,
    storage_canister_id: &str,
    file_path: &str,
) -> (url: String)
    ensures
        url@ == spec_render_media_url(
            match base_url {
                Some(t) => Some(t@),
                None => None,
            },
            is_test_mode,
            storage_canister_id@,
            file_path@,
        ),
{
    let id = chars_of(storage_canister_id);
    let path = chars_of(file_path);
    let mut out: Vec<char>;
    match base_url {
        Some(template) => {
            let t = chars_of(template.as_str());
            let pat = chars_of("{canister_id}");
            proof {
                reveal_strlit("{canister_id}");
            }
            let replaced = replace_chars(&t, &pat, &id);
            out = trim_end_chars(&replaced, '/');
        },
        None => {
            if is_test_mode {
                out = chars_of("http://");
                push_all(&mut out, &id);
                let suffix = chars_of(".localhost:4943");
                push_all(&mut out, &suffix);
            } else {
                out = chars_of("https://");
                push_all(&mut out, &id);
                let suffix = chars_of(".raw.icp0.io");
                push_all(&mut out, &suffix);
            }
        },
    }
    push_all(&mut out, &path);
    string_from_chars(&out)
}

/// Renders a redirection target from a base URL template, exactly as the URL
/// handed out at upload finalization is built.
pub fn render_redirection_url(template: &str, canister_id: &str, path: &str) -> (url: String)
    ensures
        url@ == spec_render_media_url(Some(template@), false, canister_id@, path@),
{
    let t = chars_of(template);
    let owned = string_from_chars(&t);
    render_media_url(&Some(owned), false, canister_id, path)
}

/// A media path with its leading slash, the form the asset router and the
/// stored redirections are keyed by.
pub fn normalize_media_path(path: &str) -> (p: String)
    ensures
        p@ == spec_normalize_media_path(path@),
{
    let v = chars_of(path);
    if v.len() > 0 && v[0] == '/' {
        string_from_chars(&v)
    } else {
        let mut out: Vec<char> = Vec::new();
        out.push('/');
        push_all(&mut out, &v);
        string_from_chars(&out)
    }
}

/// With a base URL template configured, the rendered URL does not depend on
/// test mode: the redirection re-rendered after an upgrade and the URL handed
/// out at finalization agree.
pub proof fn lemma_template_ignores_test_mode(
    template: Seq<char>,
    test_a: bool,
    test_b: bool,
    canister_id: Seq<char>,
    file_path: Seq<char>,
)
    ensures
        spec_render_media_url(Some(template), test_a, canister_id, file_path)
            == spec_render_media_url(Some(template), test_b, canister_id, file_path),
{
}

/// Every rendered URL ends with the file path it was asked for.
pub proof fn lemma_url_ends_with_path(
    base_url: Option<Seq<char>>,
    is_test_mode: bool,
    canister_id: Seq<char>,
    file_path: Seq<char>,
)
    ensures
        ({
            let url = spec_render_media_url(base_url, is_test_mode, canister_id, file_path);
            &&& url.len() >= file_path.len()
            &&& url.subrange(url.len() - file_path.len(), url.len() as int) == file_path
        }),
{
    let url = spec_render_media_url(base_url, is_test_mode, canister_id, file_path);
    match base_url {
        Some(t) => {
            assert(url.subrange(url.len() - file_path.len(), url.len() as int) =~= file_path);
        },
        None => {
            assert(url.subrange(url.len() - file_path.len(), url.len() as int) =~= file_path);
        },
    }
}

/// A normalized media path starts with a slash, and normalizing it again
/// changes nothing.
pub proof fn lemma_normalize_media_path(path: Seq<char>)
    ensures
        spec_normalize_media_path(path).len() > 0,
        spec_normalize_media_path(path)[0] == '/',
        spec_normalize_media_path(spec_normalize_media_path(path)) == spec_normalize_media_path(
            path,
        ),
{
}

} // verus!
