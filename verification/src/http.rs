//! Answering HTTP requests for stored media: which handler a path goes to,
//! whether a request came through the raw domain, and where a file is served
//! from when no redirection was registered for it.

use vstd::prelude::*;
use crate::keyed::{KeyedMap, MapKey};
use crate::legacy::InternalFile;
use crate::legacy::InternalFileView;
use crate::media::{
    normalize_media_path, render_media_url, render_redirection_url, spec_normalize_media_path,
    spec_render_media_url,
};
use crate::principal::{principal_text, PrincipalId};
use crate::private_content::{NftPrivateRecord, PrivateContentSystem, PrivateContentView, PrivateEntry, Sha256Hash};
use crate::public_content::{path_lookup, public_file_at, PublicContentSystem, PublicContentView, PublicEntryView};
use crate::text::{
    chars_eq_ignore_ascii_case, chars_of, contains_chars, eq_ignore_ascii_case, seq_contains_sub,
    spec_trim_start, string_from_chars, trim_start_chars,
};
use crate::upload::UploadState;

verus! {

broadcast use vstd::string::group_string_axioms;

/// Where a request goes.
#[derive(Clone, Copy, Debug, PartialEq, Eq, Structural)]
pub enum Route {
    Logs,
    Traces,
    Metrics,
    Media,
}

/// The handler of the request path `path`.
pub fn route(path: &str) -> (r: Route)
    ensures
        r == if path@ == "/logs"@ {
            Route::Logs
        } else if path@ == "/traces"@ {
            Route::Traces
        } else if path@ == "/metrics"@ {
            Route::Metrics
        } else {
            Route::Media
        },
{
    let p = path.to_string();
    if p == "/logs".to_string() {
        Route::Logs
    } else if p == "/traces".to_string() {
        Route::Traces
    } else if p == "/metrics".to_string() {
        Route::Metrics
    } else {
        Route::Media
    }
}

/// A request whose `host` header names a `.raw.` domain.
pub open spec fn spec_is_raw_request(headers: Seq<(Seq<char>, Seq<char>)>) -> bool {
    exists|i: int|
        0 <= i < headers.len() && eq_ignore_ascii_case(#[trigger] headers[i].0, "host"@)
            && seq_contains_sub(headers[i].1, ".raw."@)
}

/// Whether a request with these headers came through the raw domain, where
/// nothing is certified.
pub fn is_raw_request(headers: &Vec<(String, String)>) -> (b: bool)
    ensures
        b == spec_is_raw_request(headers@.map_values(|h: (String, String)| (h.0@, h.1@))),
{
    let ghost hv = headers@.map_values(|h: (String, String)| (h.0@, h.1@));
    let host = chars_of("host");
    let raw = chars_of(".raw.");
    let mut i: usize = 0;
    while i < headers.len()
        invariant
            i <= headers@.len(),
            hv == headers@.map_values(|h: (String, String)| (h.0@, h.1@)),
            host@ == "host"@,
            raw@ == ".raw."@,
            forall|j: int|
                0 <= j < i ==> !(eq_ignore_ascii_case(#[trigger] hv[j].0, "host"@) && seq_contains_sub(
                    hv[j].1,
                    ".raw."@,
                )),
        decreases headers@.len() - i,
    {
        let k = chars_of(headers[i].0.as_str());
        let v = chars_of(headers[i].1.as_str());
        assert(hv[i as int] == (headers@[i as int].0@, headers@[i as int].1@));
        if chars_eq_ignore_ascii_case(&k, &host) && contains_chars(&v, &raw) {
            proof {
                assert(eq_ignore_ascii_case(hv[i as int].0, "host"@));
                assert(spec_is_raw_request(hv));
            }
            return true;
        }
        i += 1;
    }
    false
}

/// The entry `n` of the token `t` is stored at `s` or at `b`.
pub open spec fn minted_private_at_either(v: PrivateContentView, s: Seq<char>, b: Seq<char>, t: u128, n: Seq<char>) -> bool {
    &&& v.nft_private.contains_key(t)
    &&& v.nft_private[t].entries.contains_key(n)
    &&& (v.nft_private[t].entries[n].storage_path == s || v.nft_private[t].entries[n].storage_path == b)
}

/// The cached private upload of plaintext `h` is stored at `s` or at `b`.
pub open spec fn cached_private_at_either(v: PrivateContentView, s: Seq<char>, b: Seq<char>, h: Seq<u8>) -> bool {
    &&& v.premint_cache.contains_key(h)
    &&& (v.premint_cache[h].storage_path == s || v.premint_cache[h].storage_path == b)
}

/// A lookup of a public file that found a finalized one.
pub open spec fn finalized_found(found: Option<PublicEntryView>) -> bool {
    found matches Some(e) && e.state == UploadState::Finalized
}

/// A file of the index, at `p`, whose upload was finalized.
pub open spec fn finalized_internal(internal: Map<Seq<char>, InternalFileView>, p: Seq<char>) -> bool {
    internal.contains_key(p) && internal[p].state == UploadState::Finalized
}

/// Which storage canister the file at `slashed` (or `bare`, the same path
/// without its leading slashes) may be found on: a finalized public file,
/// looked up with the slash first; else a finalized upload of the file
/// index; else an entry of a minted token, else a cached private upload,
/// stored at either path.
pub open spec fn resolves_to(
    public: PublicContentView,
    internal: Map<Seq<char>, InternalFileView>,
    private: PrivateContentView,
    slashed: Seq<char>,
    bare: Seq<char>,
    found_s: Option<PublicEntryView>,
    found_b: Option<PublicEntryView>,
    r: Option<Seq<u8>>,
) -> bool {
    &&& path_lookup(public, slashed, found_s)
    &&& path_lookup(public, bare, found_b)
    &&& if finalized_found(found_s) {
        r == Some(found_s.unwrap().storage_canister_id)
    } else if finalized_found(found_b) {
        r == Some(found_b.unwrap().storage_canister_id)
    } else if finalized_internal(internal, slashed) {
        r == Some(internal[slashed].canister)
    } else if finalized_internal(internal, bare) {
        r == Some(internal[bare].canister)
    } else if exists|t: u128, n: Seq<char>| #[trigger] minted_private_at_either(private, slashed, bare, t, n) {
        exists|t: u128, n: Seq<char>|
            #[trigger] minted_private_at_either(private, slashed, bare, t, n) && r == Some(
                private.nft_private[t].entries[n].storage_canister_id,
            )
    } else if exists|h: Seq<u8>| #[trigger] cached_private_at_either(private, slashed, bare, h) {
        exists|h: Seq<u8>|
            #[trigger] cached_private_at_either(private, slashed, bare, h) && r == Some(
                private.premint_cache[h].storage_canister_id,
            )
    } else {
        r is None
    }
}

/// The view of an optional principal.
pub open spec fn principal_opt_view(p: Option<PrincipalId>) -> Option<Seq<u8>> {
    match p {
        Some(p) => Some(p@),
        None => None,
    }
}

/// The storage canister of the first private entry, from position `j` on,
/// of `es` that is stored at `s` or `b`.
pub open spec fn first_private_stored(es: KeyedMap<String, PrivateEntry>, s: Seq<char>, b: Seq<char>, j: int) -> Option<
    Seq<u8>,
>
    decreases es.spec_len() - j,
{
    if j < 0 || j >= es.spec_len() {
        None
    } else if es.spec_value_at(j).storage_path == s || es.spec_value_at(j).storage_path == b {
        Some(es.spec_value_at(j).storage_canister_id)
    } else {
        first_private_stored(es, s, b, j + 1)
    }
}

/// The storage canister of the first entry stored at `s` or `b` among the
/// records of minted tokens, from position `a` on, in the order held.
pub open spec fn first_minted_private(
    records: KeyedMap<u128, NftPrivateRecord>,
    s: Seq<char>,
    b: Seq<char>,
    a: int,
) -> Option<Seq<u8>>
    decreases records.spec_len() - a,
{
    if a < 0 || a >= records.spec_len() {
        None
    } else {
        match first_private_stored(records.spec_raw_value_at(a).entries, s, b, 0) {
            Some(c) => Some(c),
            None => first_minted_private(records, s, b, a + 1),
        }
    }
}

/// The storage canister of the first cached private upload, from position
/// `i` on, stored at `s` or `b`.
pub open spec fn first_cached_private(cache: KeyedMap<Sha256Hash, PrivateEntry>, s: Seq<char>, b: Seq<char>, i: int) -> Option<
    Seq<u8>,
>
    decreases cache.spec_len() - i,
{
    if i < 0 || i >= cache.spec_len() {
        None
    } else if cache.spec_value_at(i).storage_path == s || cache.spec_value_at(i).storage_path == b {
        Some(cache.spec_value_at(i).storage_canister_id)
    } else {
        first_cached_private(cache, s, b, i + 1)
    }
}

/// The storage canister the file at `slashed` (or `bare`) is found on, in
/// the order `resolves_to` gives and, among several candidates of a tier,
/// the first in the order the collection holds them.
pub open spec fn storage_canister_at(
    public: PublicContentSystem,
    internal: KeyedMap<String, InternalFile>,
    private: PrivateContentSystem,
    slashed: Seq<char>,
    bare: Seq<char>,
) -> Option<Seq<u8>> {
    let fs = public_file_at(public, slashed);
    let fb = public_file_at(public, bare);
    if finalized_found(fs) {
        Some(fs.unwrap().storage_canister_id)
    } else if finalized_found(fb) {
        Some(fb.unwrap().storage_canister_id)
    } else if finalized_internal(internal@, slashed) {
        Some(internal@[slashed].canister)
    } else if finalized_internal(internal@, bare) {
        Some(internal@[bare].canister)
    } else {
        match first_minted_private(private.nft_private, slashed, bare, 0) {
            Some(c) => Some(c),
            None => first_cached_private(private.premint_cache, slashed, bare, 0),
        }
    }
}

/// Finds the storage canister holding the file at `slashed` (or `bare`, the
/// same path without its leading slashes).
#[verifier::loop_isolation(false)]
pub fn resolve_storage_canister(
    public: &PublicContentSystem,
    internal: &KeyedMap<String, InternalFile>,
    private: &PrivateContentSystem,
    slashed: &String,
    bare: &String,
) -> (r: Option<PrincipalId>)
    ensures
        exists|found_s: Option<PublicEntryView>, found_b: Option<PublicEntryView>|
            #[trigger] resolves_to(
                public@,
                internal@,
                private@,
                slashed@,
                bare@,
                found_s,
                found_b,
                principal_opt_view(r),
            ),
        principal_opt_view(r) == storage_canister_at(*public, *internal, *private, slashed@, bare@),
{
    let fs = public.get_public_file_by_path(slashed.as_str());
    let fb = public.get_public_file_by_path(bare.as_str());
    let ghost found_s = match &fs {
        Some(e) => Some(e@),
        None => None,
    };
    let ghost found_b = match &fb {
        Some(e) => Some(e@),
        None => None,
    };
    let ghost done = |r: Option<Seq<u8>>|
        resolves_to(public@, internal@, private@, slashed@, bare@, found_s, found_b, r);
    match &fs {
        Some(e) => if e.state == UploadState::Finalized {
            let c = e.storage_canister_id.key_copy();
            proof {
                assert(done(Some(c@)));
                assert(Some(c@) == storage_canister_at(*public, *internal, *private, slashed@, bare@));
            }
            return Some(c);
        },
        None => {},
    }
    match &fb {
        Some(e) => if e.state == UploadState::Finalized {
            let c = e.storage_canister_id.key_copy();
            proof {
                assert(done(Some(c@)));
                assert(Some(c@) == storage_canister_at(*public, *internal, *private, slashed@, bare@));
            }
            return Some(c);
        },
        None => {},
    }
    match internal.get(slashed) {
        Some(f) => if f.state == UploadState::Finalized {
            let c = f.canister.key_copy();
            proof {
                assert(done(Some(c@)));
                assert(Some(c@) == storage_canister_at(*public, *internal, *private, slashed@, bare@));
            }
            return Some(c);
        },
        None => {},
    }
    match internal.get(bare) {
        Some(f) => if f.state == UploadState::Finalized {
            let c = f.canister.key_copy();
            proof {
                assert(done(Some(c@)));
                assert(Some(c@) == storage_canister_at(*public, *internal, *private, slashed@, bare@));
            }
            return Some(c);
        },
        None => {},
    }
    let m = private.nft_private.len();
    let mut a: usize = 0;
    while a < m
        invariant
            m == private.nft_private.spec_len(),
            private.nft_private.inv(),
            a <= m,
            first_minted_private(private.nft_private, slashed@, bare@, 0) == first_minted_private(
                private.nft_private,
                slashed@,
                bare@,
                a as int,
            ),
            forall|k: int, nm: Seq<char>|
                0 <= k < a ==> !#[trigger] minted_private_at_either(
                    private@,
                    slashed@,
                    bare@,
                    private.nft_private.spec_key_at(k),
                    nm,
                ),
        decreases m - a,
    {
        proof {
            private.nft_private.lemma_positions();
        }
        let record = private.nft_private.value_at(a);
        let ghost t = private.nft_private.spec_key_at(a as int);
        proof {
            assert(private@.nft_private.contains_key(t));
            assert(private@.nft_private[t] == record@);
        }
        let c = record.entries.len();
        let mut b: usize = 0;
        while b < c
            invariant
                c == record.entries.spec_len(),
                record.entries.inv(),
                b <= c,
                *record == private.nft_private.spec_raw_value_at(a as int),
                first_private_stored(record.entries, slashed@, bare@, 0) == first_private_stored(
                    record.entries,
                    slashed@,
                    bare@,
                    b as int,
                ),
                forall|k: int|
                    0 <= k < b ==> (#[trigger] record.entries.spec_value_at(k)).storage_path
                        != slashed@ && record.entries.spec_value_at(k).storage_path != bare@,
            decreases c - b,
        {
            let e = record.entries.value_at(b);
            if e.storage_path == *slashed || e.storage_path == *bare {
                let cid = e.storage_canister_id.key_copy();
                proof {
                    record.entries.lemma_positions();
                    let nm = record.entries.spec_key_at(b as int);
                    assert(record@.entries.contains_key(nm));
                    assert(minted_private_at_either(private@, slashed@, bare@, t, nm));
                    assert(done(Some(cid@)));
                assert(Some(cid@) == storage_canister_at(*public, *internal, *private, slashed@, bare@));
                }
                return Some(cid);
            }
            b += 1;
        }
        proof {
            record.entries.lemma_positions();
            assert forall|nm: Seq<char>| !#[trigger] minted_private_at_either(private@, slashed@, bare@, t, nm) by {
                if record@.entries.contains_key(nm) {
                    let k = record.entries.spec_index_of(nm);
                    assert(record.entries.spec_value_at(k).storage_path != slashed@);
                }
            }
        }
        a += 1;
    }
    proof {
        private.nft_private.lemma_positions();
        assert forall|t: u128, nm: Seq<char>| !#[trigger] minted_private_at_either(private@, slashed@, bare@, t, nm) by {
            if private@.nft_private.contains_key(t) {
                let k = private.nft_private.spec_index_of(t);
                assert(!minted_private_at_either(private@, slashed@, bare@, private.nft_private.spec_key_at(k), nm));
            }
        }
    }
    let n = private.premint_cache.len();
    let mut i: usize = 0;
    while i < n
        invariant
            n == private.premint_cache.spec_len(),
            private.premint_cache.inv(),
            i <= n,
            first_cached_private(private.premint_cache, slashed@, bare@, 0) == first_cached_private(
                private.premint_cache,
                slashed@,
                bare@,
                i as int,
            ),
            forall|j: int|
                0 <= j < i ==> (#[trigger] private.premint_cache.spec_value_at(j)).storage_path
                    != slashed@ && private.premint_cache.spec_value_at(j).storage_path != bare@,
        decreases n - i,
    {
        proof {
            private.premint_cache.lemma_positions();
        }
        let e = private.premint_cache.value_at(i);
        if e.storage_path == *slashed || e.storage_path == *bare {
            let cid = e.storage_canister_id.key_copy();
            proof {
                let h = private.premint_cache.spec_key_at(i as int);
                assert(private@.premint_cache.contains_key(h));
                assert(cached_private_at_either(private@, slashed@, bare@, h));
                assert(done(Some(cid@)));
                assert(Some(cid@) == storage_canister_at(*public, *internal, *private, slashed@, bare@));
            }
            return Some(cid);
        }
        i += 1;
    }
    proof {
        private.premint_cache.lemma_positions();
        assert forall|h: Seq<u8>| !#[trigger] cached_private_at_either(private@, slashed@, bare@, h) by {
            if private@.premint_cache.contains_key(h) {
                let j = private.premint_cache.spec_index_of(h);
                assert(private.premint_cache.spec_value_at(j).storage_path != slashed@);
            }
        }
        assert(done(None));
                assert(None::<Seq<u8>> == storage_canister_at(*public, *internal, *private, slashed@, bare@));
    }
    None
}

/// What the file at `path` may be served from: the redirection registered
/// for it (with or without its leading slash), else the URL rendered for
/// the storage canister holding it (`r` is `None` when the collection does
/// not know the path).
pub open spec fn media_url_outcome(
    redirections: Map<Seq<char>, Seq<char>>,
    base_url: Option<Seq<char>>,
    is_test_mode: bool,
    public: PublicContentView,
    internal: Map<Seq<char>, InternalFileView>,
    private: PrivateContentView,
    path: Seq<char>,
    r: Option<Seq<char>>,
) -> bool {
    let slashed = spec_normalize_media_path(path);
    let bare = spec_trim_start(path, '/');
    if redirections.contains_key(slashed) {
        r == Some(redirections[slashed])
    } else if redirections.contains_key(bare) {
        r == Some(redirections[bare])
    } else {
        exists|found_s: Option<PublicEntryView>, found_b: Option<PublicEntryView>, c: Option<Seq<u8>>|
            #[trigger] resolves_to(public, internal, private, slashed, bare, found_s, found_b, c)
                && match c {
                None => r is None,
                Some(c) => r == Some(spec_render_media_url(base_url, is_test_mode, principal_text(c), slashed)),
            }
    }
}

/// Where the file at `path` is served from: the redirection registered for
/// it (with or without its leading slash), else the URL rendered for the
/// storage canister `storage_canister_at` finds; `None` when the collection
/// does not know the path.
pub open spec fn media_url_at(
    redirections: Map<Seq<char>, Seq<char>>,
    base_url: Option<Seq<char>>,
    is_test_mode: bool,
    public: PublicContentSystem,
    internal: KeyedMap<String, InternalFile>,
    private: PrivateContentSystem,
    path: Seq<char>,
) -> Option<Seq<char>> {
    let slashed = spec_normalize_media_path(path);
    let bare = spec_trim_start(path, '/');
    if redirections.contains_key(slashed) {
        Some(redirections[slashed])
    } else if redirections.contains_key(bare) {
        Some(redirections[bare])
    } else {
        match storage_canister_at(public, internal, private, slashed, bare) {
            None => None,
            Some(c) => Some(spec_render_media_url(base_url, is_test_mode, principal_text(c), slashed)),
        }
    }
}

/// A path and its media form (with a leading slash) are served from the
/// same place.
pub proof fn lemma_media_url_ignores_leading_slash(
    redirections: Map<Seq<char>, Seq<char>>,
    base_url: Option<Seq<char>>,
    is_test_mode: bool,
    public: PublicContentSystem,
    internal: KeyedMap<String, InternalFile>,
    private: PrivateContentSystem,
    path: Seq<char>,
)
    ensures
        media_url_at(redirections, base_url, is_test_mode, public, internal, private, path) == media_url_at(
            redirections,
            base_url,
            is_test_mode,
            public,
            internal,
            private,
            spec_normalize_media_path(path),
        ),
{
    let n = spec_normalize_media_path(path);
    assert(spec_normalize_media_path(n) == n);
    if !(path.len() > 0 && path[0] == '/') {
        assert(n.drop_first() =~= path);
        assert(spec_trim_start(n, '/') == spec_trim_start(path, '/'));
    }
}

/// Where the file at `path` is served from, as `media_url_at` says; every
/// answer is one that `media_url_outcome` allows.
pub fn resolve_media_url(
    redirections: &KeyedMap<String, String>,
    base_url: &Option<String>,
    is_test_mode: bool,
    public: &PublicContentSystem,
    internal: &KeyedMap<String, InternalFile>,
    private: &PrivateContentSystem,
    path: &str,
) -> (r: Option<String>)
    ensures
        media_url_outcome(
            redirections@,
            match base_url {
                Some(t) => Some(t@),
                None => None,
            },
            is_test_mode,
            public@,
            internal@,
            private@,
            path@,
            match r {
                Some(u) => Some(u@),
                None => None,
            },
        ),
        match r {
            Some(u) => Some(u@),
            None => None,
        } == media_url_at(
            redirections@,
            match base_url {
                Some(t) => Some(t@),
                None => None,
            },
            is_test_mode,
            *public,
            *internal,
            *private,
            path@,
        ),
{
    let slashed = normalize_media_path(path);
    let pv = chars_of(path);
    let bare = string_from_chars(&trim_start_chars(&pv, '/'));
    match redirections.get(&slashed) {
        Some(u) => {
            return Some(u.clone());
        },
        None => {},
    }
    match redirections.get(&bare) {
        Some(u) => {
            return Some(u.clone());
        },
        None => {},
    }
    let c = resolve_storage_canister(public, internal, private, &slashed, &bare);
    match c {
        None => None,
        Some(c) => {
            let id = c.to_text();
            Some(render_media_url(base_url, is_test_mode, id.as_str(), slashed.as_str()))
        },
    }
}

/// The storage canister a registered redirection at `p` (or `t`, the same
/// path without its leading slashes) is re-rendered for: the public file at
/// `p`, else at `t`, else the file index at `p`, else at `t`.
pub open spec fn rerender_canister(
    public: PublicContentView,
    internal: Map<Seq<char>, InternalFileView>,
    p: Seq<char>,
    t: Seq<char>,
    found_p: Option<PublicEntryView>,
    found_t: Option<PublicEntryView>,
    c: Option<Seq<u8>>,
) -> bool {
    &&& path_lookup(public, p, found_p)
    &&& path_lookup(public, t, found_t)
    &&& c == if found_p is Some {
        Some(found_p.unwrap().storage_canister_id)
    } else if found_t is Some {
        Some(found_t.unwrap().storage_canister_id)
    } else if internal.contains_key(p) {
        Some(internal[p].canister)
    } else if internal.contains_key(t) {
        Some(internal[t].canister)
    } else {
        None
    }
}

/// The public content or the file index knows the path `p` (or `t`).
pub open spec fn can_locate(
    public: PublicContentView,
    internal: Map<Seq<char>, InternalFileView>,
    p: Seq<char>,
    t: Seq<char>,
) -> bool {
    crate::public_content::has_linked_entry(public, p) || public.temp_file_cache.contains_key(p)
        || crate::public_content::has_linked_entry(public, t) || public.temp_file_cache.contains_key(t)
        || internal.contains_key(p) || internal.contains_key(t)
}

/// The redirection at `p` once re-rendered against `template`: `old` when
/// the file cannot be located.
pub open spec fn rerendered(
    public: PublicContentView,
    internal: Map<Seq<char>, InternalFileView>,
    template: Seq<char>,
    p: Seq<char>,
    old: Seq<char>,
    new: Seq<char>,
) -> bool {
    exists|found_p: Option<PublicEntryView>, found_t: Option<PublicEntryView>, c: Option<Seq<u8>>|
        #[trigger] rerender_canister(public, internal, p, spec_trim_start(p, '/'), found_p, found_t, c)
            && new == match c {
            Some(c) => spec_render_media_url(Some(template), false, principal_text(c), p),
            None => old,
        }
}

/// Re-renders every registered media redirection against the base URL
/// template, so that stored files move with the serving domain; a
/// redirection whose file cannot be located is left as it is. Without a
/// template nothing changes. Answers how many were re-rendered.
#[verifier::loop_isolation(false)]
pub fn rerender_media_redirections(
    redirections: &mut KeyedMap<String, String>,
    base_url: &Option<String>,
    public: &PublicContentSystem,
    internal: &KeyedMap<String, InternalFile>,
) -> (count: usize)
    ensures
        base_url is None ==> final(redirections)@ == old(redirections)@ && count == 0,
        base_url matches Some(template) ==> {
            &&& final(redirections)@.dom() == old(redirections)@.dom()
            &&& forall|p: Seq<char>|
                #[trigger] old(redirections)@.contains_key(p) ==> rerendered(
                    public@,
                    internal@,
                    template@,
                    p,
                    old(redirections)@[p],
                    final(redirections)@[p],
                )
            &&& count == Set::new(
                |p: Seq<char>|
                    old(redirections)@.contains_key(p) && can_locate(
                        public@,
                        internal@,
                        p,
                        spec_trim_start(p, '/'),
                    ),
            ).len()
        },
{
    let template = match base_url {
        Some(t) => t,
        None => {
            return 0;
        },
    };
    proof {
        use_type_invariant(&*redirections);
        redirections.lemma_positions();
    }
    let ghost r0 = redirections@;
    let n = redirections.len();
    let mut paths: Vec<String> = Vec::new();
    let mut i: usize = 0;
    while i < n
        invariant
            n == redirections.spec_len(),
            redirections.inv(),
            redirections@ == r0,
            i <= n,
            paths@.len() == i,
            forall|j: int| 0 <= j < i ==> (#[trigger] paths@[j])@ == redirections.spec_key_at(j),
        decreases n - i,
    {
        paths.push(redirections.key_at(i).clone());
        i += 1;
    }
    let ghost keys = Seq::new(n as nat, |j: int| redirections.spec_key_at(j));
    proof {
        redirections.lemma_positions();
        assert forall|q: Seq<char>| #[trigger] r0.contains_key(q) implies exists|j: int| 0 <= j < n && keys[j] == q by {
            let j = redirections.spec_index_of(q);
            assert(keys[j] == q);
        }
    }
    let mut count: usize = 0;
    let ghost mut done = Set::<Seq<char>>::empty();
    let ghost mut located = Set::<Seq<char>>::empty();
    let mut k: usize = 0;
    while k < n
        invariant
            k <= n,
            paths@.len() == n,
            keys.len() == n,
            forall|j: int| 0 <= j < n ==> (#[trigger] paths@[j])@ == keys[j],
            forall|a: int, b: int| 0 <= a < b < n ==> keys[a] != keys[b],
            forall|j: int| 0 <= j < n ==> r0.contains_key(#[trigger] keys[j]),
            forall|q: Seq<char>| #[trigger] r0.contains_key(q) ==> exists|j: int| 0 <= j < n && keys[j] == q,
            done == Set::new(|p: Seq<char>| exists|j: int| 0 <= j < k && keys[j] == p),
            located == Set::new(
                |p: Seq<char>| done.contains(p) && can_locate(public@, internal@, p, spec_trim_start(p, '/')),
            ),
            located.finite(),
            count == located.len(),
            count <= k,
            redirections@.dom() == r0.dom(),
            forall|p: Seq<char>|
                #[trigger] r0.contains_key(p) && !done.contains(p) ==> redirections@[p] == r0[p],
            forall|p: Seq<char>|
                #[trigger] r0.contains_key(p) && done.contains(p) ==> rerendered(
                    public@,
                    internal@,
                    template@,
                    p,
                    r0[p],
                    redirections@[p],
                ),
        decreases n - k,
    {
        let path = &paths[k];
        let ghost p = path@;
        let pc = chars_of(path.as_str());
        let trimmed = string_from_chars(&trim_start_chars(&pc, '/'));
        let fp = public.get_public_file_by_path(path.as_str());
        let ft = public.get_public_file_by_path(trimmed.as_str());
        let ghost found_p = match &fp {
            Some(e) => Some(e@),
            None => None,
        };
        let ghost found_t = match &ft {
            Some(e) => Some(e@),
            None => None,
        };
        let canister: Option<PrincipalId> = match &fp {
            Some(e) => Some(e.storage_canister_id.key_copy()),
            None => match &ft {
                Some(e) => Some(e.storage_canister_id.key_copy()),
                None => match internal.get(path) {
                    Some(f) => Some(f.canister.key_copy()),
                    None => match internal.get(&trimmed) {
                        Some(f) => Some(f.canister.key_copy()),
                        None => None,
                    },
                },
            },
        };
        let ghost c = principal_opt_view(canister);
        proof {
            assert(rerender_canister(public@, internal@, p, spec_trim_start(p, '/'), found_p, found_t, c));
            assert(!done.contains(p)) by {
                if done.contains(p) {
                    let j = choose|j: int| 0 <= j < k && keys[j] == p;
                    assert(keys[j] != keys[k as int]);
                }
            }
            assert(c is Some <==> can_locate(public@, internal@, p, spec_trim_start(p, '/')));
        }
        let ghost before = redirections@;
        let ghost next = done.insert(p);
        let ghost next_located = if c is Some {
            located.insert(p)
        } else {
            located
        };
        match canister {
            Some(cid) => {
                let id = cid.to_text();
                let url = render_redirection_url(template.as_str(), id.as_str(), path.as_str());
                redirections.insert(path.clone(), url);
                count += 1;
                proof {
                    assert(rerendered(public@, internal@, template@, p, r0[p], redirections@[p]));
                }
            },
            None => {
                proof {
                    assert(rerendered(public@, internal@, template@, p, r0[p], redirections@[p]));
                }
            },
        }
        proof {
            assert(next =~= Set::new(|q: Seq<char>| exists|j: int| 0 <= j < k + 1 && keys[j] == q));
            assert(next_located =~= Set::new(
                |q: Seq<char>| next.contains(q) && can_locate(public@, internal@, q, spec_trim_start(q, '/')),
            ));
            assert(redirections@.dom() =~= r0.dom());
            done = next;
            located = next_located;
        }
        k += 1;
    }
    proof {
        assert(done =~= r0.dom()) by {
            assert forall|q: Seq<char>| r0.contains_key(q) implies done.contains(q) by {
                let j = choose|j: int| 0 <= j < n && keys[j] == q;
                assert(keys[j] == q);
            }
        }
        assert(located =~= Set::new(
            |p: Seq<char>|
                r0.contains_key(p) && can_locate(public@, internal@, p, spec_trim_start(p, '/')),
        ));
    }
    count
}

} // verus!
