//! The steps of the upload endpoints around their calls to a storage
//! canister: what is decided before the call, and what is recorded once it
//! has answered.

use vstd::prelude::*;
use crate::keyed::KeyedMap;
use crate::media::{normalize_media_path, render_media_url, spec_normalize_media_path, spec_render_media_url};
use crate::principal::{principal_text, PrincipalId};
use crate::public_content::{finalize_register_outcome, PublicContentSystem, PublicContentView, PublicEntry, PublicEntryView};
use crate::upload::{
    UploadState,
    finalize_refusal_answer, store_refusal_answer, FinalizePrivateContentUploadError, FinalizeUploadError,
    StoreChunkError, StorePrivateContentChunkError,
};
use crate::access::AccessRights;
use crate::guards::{entry_readers, has_write_access};
use crate::private_content::{
    chunk_refusal, finalize_refusal, finalized_into, has_private_entry, with_cached_private, with_chunk, with_private_entry,
    PrivateContentError, PrivateContentStatus, PrivateContentSystem, PrivateContentView, Sha256Hash,
};
use crate::keyed::{DeepCopy, MapKey};
use crate::legacy::{InternalFile, InternalFileView};
use crate::access::{is_canonical_identity, Readers};
use crate::management::{hex_encode, hex_text};
use crate::private_content::{spec_premint_entry, EncryptionMode, PendingUploadView, PrivateEntryView, CHUNK_SIZE, MAX_PRIVATE_CONTENT_SIZE};

verus! {

/// An optional text by its characters.
pub open spec fn opt_chars(s: Option<String>) -> Option<Seq<char>> {
    match s {
        Some(t) => Some(t@),
        None => None,
    }
}

/// The canister's own file index once the upload of `file_path`, whose file
/// is `target`, is finalized: a known upload becomes finalized, an unknown
/// one is recorded as finalized.
pub open spec fn finalized_in_index(
    internal: Map<Seq<char>, InternalFileView>,
    file_path: Seq<char>,
    target: PublicEntryView,
) -> Map<Seq<char>, InternalFileView> {
    internal.insert(
        file_path,
        if internal.contains_key(file_path) {
            InternalFileView { state: UploadState::Finalized, ..internal[file_path] }
        } else {
            InternalFileView {
                init_timestamp: target.created_at_ns,
                state: UploadState::Finalized,
                canister: target.storage_canister_id,
                path: target.storage_path,
            }
        },
    )
}

/// Once the storage canister has finalized the upload of `file_path`, whose
/// file is `target`: the upload is finalized in the collection and in the
/// canister's own file index, the media path (the stored path with a
/// leading slash) redirects to the URL of the file on its storage canister,
/// and the URL of the file on this canister (`self_id`) is handed back.
pub fn finalize_upload_done(
    public: &mut PublicContentSystem,
    redirections: &mut KeyedMap<String, String>,
    internal: &mut KeyedMap<String, InternalFile>,
    base_url: &Option<String>,
    test_mode: bool,
    self_id: &PrincipalId,
    file_path: &String,
    target: &PublicEntry,
) -> (url: String)
    ensures
        exists|r: Result<(), FinalizeUploadError>|
            finalize_register_outcome(old(public)@, file_path@, final(public)@, r),
        final(redirections)@ == old(redirections)@.insert(
            spec_normalize_media_path(target.storage_path@),
            spec_render_media_url(
                opt_chars(*base_url),
                test_mode,
                principal_text(target.storage_canister_id@),
                spec_normalize_media_path(target.storage_path@),
            ),
        ),
        final(internal)@ == finalized_in_index(old(internal)@, file_path@, target@),
        url@ == spec_render_media_url(
            opt_chars(*base_url),
            test_mode,
            principal_text(self_id@),
            spec_normalize_media_path(target.storage_path@),
        ),
{
    let path = normalize_media_path(target.storage_path.as_str());
    let storage_id = target.storage_canister_id.to_text();
    let redirection_url = render_media_url(base_url, test_mode, storage_id.as_str(), path.as_str());
    let _ = public.finalize_upload_register(file_path);
    let own_id = self_id.to_text();
    let url = render_media_url(base_url, test_mode, own_id.as_str(), path.as_str());
    redirections.insert(path, redirection_url);
    let indexed = match internal.remove(file_path) {
        Some(f) => InternalFile { state: UploadState::Finalized, ..f },
        None => InternalFile {
            init_timestamp: target.created_at_ns,
            state: UploadState::Finalized,
            canister: target.storage_canister_id.deep_copy(),
            path: target.storage_path.clone(),
        },
    };
    internal.insert(file_path.clone(), indexed);
    proof {
        assert(internal@ =~= finalized_in_index(old(internal)@, file_path@, target@));
    }
    url
}

/// The collection knows the storage canister `id`: it is one of `cs`.
pub open spec fn knows_canister(cs: Seq<PrincipalId>, id: Seq<u8>) -> bool {
    exists|i: int| 0 <= i < cs.len() && #[trigger] cs[i]@ == id
}

/// Whether the storage canister `id` is one of `canisters`.
pub fn storage_canister_known(canisters: &Vec<PrincipalId>, id: &PrincipalId) -> (b: bool)
    ensures
        b == knows_canister(canisters@, id@),
{
    let mut i: usize = 0;
    while i < canisters.len()
        invariant
            i <= canisters@.len(),
            forall|j: int| 0 <= j < i ==> (#[trigger] canisters@[j])@ != id@,
        decreases canisters@.len() - i,
    {
        if canisters[i].key_eq(id) {
            return true;
        }
        i += 1;
    }
    false
}

/// Once the storage canister of the upload of `file_path` turned out to be
/// unknown to the collection: the upload leaves the cache and is refused.
pub fn finalize_upload_canister_missing(public: &mut PublicContentSystem, file_path: &String) -> (r:
    FinalizeUploadError)
    ensures
        r matches FinalizeUploadError::StorageCanisterError(m) && m@
            == "Storage canister not found. Cancelling the upload."@,
        final(public)@ == (PublicContentView {
            temp_file_cache: old(public)@.temp_file_cache.remove(file_path@),
            ..old(public)@
        }),
{
    public.temp_file_cache.remove(file_path);
    FinalizeUploadError::StorageCanisterError("Storage canister not found. Cancelling the upload.".to_string())
}

/// Whether `caller` may write the private entry `name` of the token `t`:
/// it owns the token (`owns`), or its resolved rights on the entry allow
/// writing.
pub open spec fn may_write(owns: bool, v: PrivateContentView, t: u128, name: Seq<char>, caller: Seq<u8>) -> bool {
    owns || ({
        &&& v.nft_private.contains_key(t)
        &&& v.nft_private[t].entries.contains_key(name)
        &&& entry_readers(v, t, name).contains_key(caller)
        &&& entry_readers(v, t, name)[caller].rights != AccessRights::Read
    })
}

/// The storage canister of the private content a call goes to: the entry
/// `name` of the token `t`, or, before minting, the cached upload of the
/// plaintext `hash`.
pub open spec fn private_target(v: PrivateContentView, token_id: Option<u128>, name: Option<Seq<char>>, hash: Seq<u8>) -> Option<
    Seq<u8>,
> {
    match token_id {
        Some(t) => match name {
            Some(n) => if has_private_entry(v, t, n) {
                Some(v.nft_private[t].entries[n].storage_canister_id)
            } else {
                None
            },
            None => None,
        },
        None => if v.premint_cache.contains_key(hash) {
            Some(v.premint_cache[hash].storage_canister_id)
        } else {
            None
        },
    }
}

/// A chunk of private content, for a minted token's entry (re-upload) or,
/// with no token, for the cached upload of `plaintext_hash`.
pub struct StorePrivateChunkArgs {
    pub token_id_opt: Option<u128>,
    pub entry_name: Option<String>,
    pub plaintext_hash: Sha256Hash,
    pub storage_path: String,
    pub chunk_index: u128,
    pub chunk_data: Vec<u8>,
}

/// What a private chunk is answered before the storage canister is called:
/// the canister to send it to, or why it is refused.
pub open spec fn chunk_plan_outcome(
    v: PrivateContentView,
    owns: bool,
    permission: Result<(), String>,
    args: StorePrivateChunkArgs,
    canisters: Seq<PrincipalId>,
    caller: Seq<u8>,
    r: Result<PrincipalId, StorePrivateContentChunkError>,
) -> bool {
    let checked = match args.token_id_opt {
        Some(t) => match args.entry_name {
            None => Some(r matches Err(StorePrivateContentChunkError::NotFound)),
            Some(n) => if !may_write(owns, v, t, n@, caller) {
                Some(r matches Err(StorePrivateContentChunkError::StorageCanisterError(m)) && m@ == "Unauthorized"@)
            } else {
                None
            },
        },
        None => match permission {
            Err(e) => Some(r matches Err(StorePrivateContentChunkError::StorageCanisterError(m)) && m@ == e@),
            Ok(_) => None,
        },
    };
    match checked {
        Some(answer) => answer,
        None => if args.chunk_index > usize::MAX {
            r matches Err(StorePrivateContentChunkError::InvalidChunk)
        } else {
            match private_target(v, args.token_id_opt, opt_chars(args.entry_name), args.plaintext_hash@) {
                None => r matches Err(StorePrivateContentChunkError::NotFound),
                Some(c) => if knows_canister(canisters, c) {
                r matches Ok(x) && x@ == c
            } else {
                r matches Err(StorePrivateContentChunkError::StorageCanisterError(m)) && m@ == "Canister not found"@
            },
            }
        },
    }
}

/// The storage canister of the private content a call goes to, as
/// `private_target` says.
fn private_target_of(
    private: &PrivateContentSystem,
    token_id: Option<u128>,
    entry_name: &Option<String>,
    hash: &Sha256Hash,
) -> (r: Option<PrincipalId>)
    ensures
        match private_target(private@, token_id, opt_chars(*entry_name), hash@) {
            None => r is None,
            Some(c) => r matches Some(x) && x@ == c,
        },
{
    match token_id {
        Some(t) => match entry_name {
            Some(n) => match private.get_nft_private_entry(t, n.as_str()) {
                Ok(e) => Some(e.storage_canister_id),
                Err(_) => None,
            },
            None => None,
        },
        None => match private.premint_cache.get(hash) {
            Some(e) => Some(e.storage_canister_id.deep_copy()),
            None => None,
        },
    }
}

/// Before a chunk of private content goes to its storage canister: for a
/// minted token, the entry must be named and the caller (`token_owner` is
/// the token's owner) must be allowed to write it; without a token, the
/// caller must hold the upload permission (`upload_permission`). The chunk
/// index must fit the machine, and the content must exist; the canister
/// that holds it is handed back.
pub fn store_private_chunk_plan(
    private: &PrivateContentSystem,
    token_owner: Option<&PrincipalId>,
    storage_canisters: &Vec<PrincipalId>,
    caller: &PrincipalId,
    upload_permission: &Result<(), String>,
    args: &StorePrivateChunkArgs,
) -> (r: Result<PrincipalId, StorePrivateContentChunkError>)
    ensures
        chunk_plan_outcome(
            private@,
            token_owner matches Some(o) && o@ == caller@,
            *upload_permission,
            *args,
            storage_canisters@,
            caller@,
            r,
        ),
{
    match args.token_id_opt {
        Some(t) => match &args.entry_name {
            None => {
                return Err(StorePrivateContentChunkError::NotFound);
            },
            Some(n) => {
                if !has_write_access(token_owner, private, t, n.as_str(), caller) {
                    return Err(StorePrivateContentChunkError::StorageCanisterError("Unauthorized".to_string()));
                }
            },
        },
        None => match upload_permission {
            Err(e) => {
                return Err(StorePrivateContentChunkError::StorageCanisterError(e.clone()));
            },
            Ok(_) => {},
        },
    }
    if args.chunk_index > usize::MAX as u128 {
        return Err(StorePrivateContentChunkError::InvalidChunk);
    }
    match private_target_of(private, args.token_id_opt, &args.entry_name, &args.plaintext_hash) {
        Some(c) => if storage_canister_known(storage_canisters, &c) {
            Ok(c)
        } else {
            Err(StorePrivateContentChunkError::StorageCanisterError("Canister not found".to_string()))
        },
        None => Err(StorePrivateContentChunkError::NotFound),
    }
}

/// What a chunk is answered when the private content refused to take it
/// with `err`.
pub open spec fn chunk_error_answer(err: PrivateContentError, r: Result<(), StorePrivateContentChunkError>) -> bool {
    match err {
        PrivateContentError::NotFound => r matches Err(StorePrivateContentChunkError::NotFound),
        PrivateContentError::InvalidChunk => r matches Err(StorePrivateContentChunkError::InvalidChunk),
        PrivateContentError::ContentTooLarge => r matches Err(StorePrivateContentChunkError::ContentTooLarge),
        PrivateContentError::InvalidStateTransition => r matches Err(
            StorePrivateContentChunkError::StorageCanisterError(m),
        ) && m@ == "InvalidStateTransition"@,
        _ => false,
    }
}

/// The private content `w` and answer `r` once the storage canister has
/// stored the chunk of `args` into the content `v`: a re-upload chunk goes
/// to the token's entry, any other to the cached upload of its plaintext.
pub open spec fn chunk_register_outcome(
    v: PrivateContentView,
    args: StorePrivateChunkArgs,
    w: PrivateContentView,
    r: Result<(), StorePrivateContentChunkError>,
) -> bool {
    if args.chunk_index > usize::MAX {
        r matches Err(StorePrivateContentChunkError::InvalidChunk) && w == v
    } else {
        let i = args.chunk_index as usize;
        let data = args.chunk_data@;
        match args.token_id_opt {
            Some(t) => match args.entry_name {
                None => r matches Err(StorePrivateContentChunkError::NotFound) && w == v,
                Some(n) => if !has_private_entry(v, t, n@) {
                    r matches Err(StorePrivateContentChunkError::NotFound) && w == v
                } else {
                    let e = v.nft_private[t].entries[n@];
                    match chunk_refusal(e, PrivateContentStatus::PendingReencryption, i, data.len()) {
                        Some(err) => chunk_error_answer(err, r) && w == v,
                        None => r is Ok && w == with_private_entry(v, t, n@, with_chunk(e, i, data)),
                    }
                },
            },
            None => {
                let h = args.plaintext_hash@;
                if !v.premint_cache.contains_key(h) {
                    r matches Err(StorePrivateContentChunkError::NotFound) && w == v
                } else {
                    let e = v.premint_cache[h];
                    match chunk_refusal(e, PrivateContentStatus::PendingUpload, i, data.len()) {
                        Some(err) => chunk_error_answer(err, r) && w == v,
                        None => r is Ok && w == with_cached_private(v, h, with_chunk(e, i, data)),
                    }
                }
            },
        }
    }
}

/// The answer to a chunk that the private content took (`Ok`) or refused.
fn chunk_answer(r: Result<(), PrivateContentError>) -> (a: Result<(), StorePrivateContentChunkError>)
    ensures
        r is Ok ==> a is Ok,
        r matches Err(PrivateContentError::NotFound) ==> chunk_error_answer(PrivateContentError::NotFound, a),
        r matches Err(PrivateContentError::InvalidChunk) ==> chunk_error_answer(PrivateContentError::InvalidChunk, a),
        r matches Err(PrivateContentError::ContentTooLarge) ==> chunk_error_answer(
            PrivateContentError::ContentTooLarge,
            a,
        ),
        r matches Err(PrivateContentError::InvalidStateTransition) ==> chunk_error_answer(
            PrivateContentError::InvalidStateTransition,
            a,
        ),
{
    match r {
        Ok(()) => Ok(()),
        Err(PrivateContentError::NotFound) => Err(StorePrivateContentChunkError::NotFound),
        Err(PrivateContentError::InvalidChunk) => Err(StorePrivateContentChunkError::InvalidChunk),
        Err(PrivateContentError::ContentTooLarge) => Err(StorePrivateContentChunkError::ContentTooLarge),
        Err(e) => Err(StorePrivateContentChunkError::StorageCanisterError(private_error_name(&e))),
    }
}

/// The name of the kind of `e`.
fn private_error_name(e: &PrivateContentError) -> (s: String)
    ensures
        e matches PrivateContentError::InvalidStateTransition ==> s@ == "InvalidStateTransition"@,
        e matches PrivateContentError::ContentTooLarge ==> s@ == "ContentTooLarge"@,
{
    match e {
        PrivateContentError::AlreadyExists => "AlreadyExists".to_string(),
        PrivateContentError::InvalidStateTransition => "InvalidStateTransition".to_string(),
        PrivateContentError::NotEnabled => "NotEnabled".to_string(),
        PrivateContentError::NotFound => "NotFound".to_string(),
        PrivateContentError::Unauthorized => "Unauthorized".to_string(),
        PrivateContentError::InvalidStatus => "InvalidStatus".to_string(),
        PrivateContentError::TooManyReaders => "TooManyReaders".to_string(),
        PrivateContentError::ContentTooLarge => "ContentTooLarge".to_string(),
        PrivateContentError::InvalidChunk => "InvalidChunk".to_string(),
        PrivateContentError::StorageError(_) => "StorageError".to_string(),
        PrivateContentError::VetkdNotConfigured => "VetkdNotConfigured".to_string(),
        PrivateContentError::VetkdError(_) => "VetkdError".to_string(),
    }
}

/// Once the storage canister has answered a chunk of private content
/// (`outcome`): a refusal is passed on and nothing changes; a stored chunk
/// is recorded in the entry of a minted token (re-upload) or in the cached
/// upload of its plaintext.
pub fn store_private_chunk_done(
    private: &mut PrivateContentSystem,
    args: StorePrivateChunkArgs,
    outcome: Result<(), StoreChunkError>,
) -> (r: Result<(), StorePrivateContentChunkError>)
    ensures
        outcome matches Err(e) ==> (r matches Err(x) && store_refusal_answer(e, x)) && final(private)@
            == old(private)@,
        outcome is Ok ==> chunk_register_outcome(old(private)@, args, final(private)@, r),
{
    match outcome {
        Err(e) => {
            return Err(StorePrivateContentChunkError::from(e));
        },
        Ok(()) => {},
    }
    if args.chunk_index > usize::MAX as u128 {
        return Err(StorePrivateContentChunkError::InvalidChunk);
    }
    let index = args.chunk_index as usize;
    match args.token_id_opt {
        Some(t) => match &args.entry_name {
            None => Err(StorePrivateContentChunkError::NotFound),
            Some(n) => {
                let r = private.reupload_chunk(&t, n.as_str(), index, args.chunk_data);
                chunk_answer(r)
            },
        },
        None => {
            let r = private.upload_chunk(&args.plaintext_hash, index, args.chunk_data);
            chunk_answer(r)
        },
    }
}

/// The end of a private upload, for a minted token's entry (re-upload) or,
/// with no token, for the cached upload of the plaintext `hash`.
pub struct FinalizePrivateUploadArgs {
    pub token_id_opt: Option<u128>,
    pub entry_name: Option<String>,
    pub hash: Sha256Hash,
    pub storage_path: String,
}

/// What the end of a private upload is answered before the storage
/// canister is called: the canister that holds the file, or why it is
/// refused.
pub open spec fn finalize_plan_outcome(
    v: PrivateContentView,
    owns: bool,
    permission: Result<(), String>,
    args: FinalizePrivateUploadArgs,
    canisters: Seq<PrincipalId>,
    caller: Seq<u8>,
    r: Result<PrincipalId, FinalizePrivateContentUploadError>,
) -> bool {
    let checked = match args.token_id_opt {
        Some(t) => match args.entry_name {
            None => Some(r matches Err(FinalizePrivateContentUploadError::NotFound)),
            Some(n) => if !may_write(owns, v, t, n@, caller) {
                Some(r matches Err(FinalizePrivateContentUploadError::StorageCanisterError(m)) && m@ == "Unauthorized"@)
            } else {
                None
            },
        },
        None => match permission {
            Err(e) => Some(r matches Err(FinalizePrivateContentUploadError::StorageCanisterError(m)) && m@ == e@),
            Ok(_) => None,
        },
    };
    match checked {
        Some(answer) => answer,
        None => match private_target(v, args.token_id_opt, opt_chars(args.entry_name), args.hash@) {
            None => r matches Err(FinalizePrivateContentUploadError::NotFound),
            Some(c) => if knows_canister(canisters, c) {
                r matches Ok(x) && x@ == c
            } else {
                r matches Err(FinalizePrivateContentUploadError::StorageCanisterError(m)) && m@
                    == "Canister not found"@
            },
        },
    }
}

/// Before the end of a private upload is sent to its storage canister: the
/// same checks as for a chunk (an entry name and write rights for a minted
/// token, the upload permission otherwise), and the content must exist; the
/// canister that holds it is handed back.
pub fn finalize_private_upload_plan(
    private: &PrivateContentSystem,
    token_owner: Option<&PrincipalId>,
    storage_canisters: &Vec<PrincipalId>,
    caller: &PrincipalId,
    upload_permission: &Result<(), String>,
    args: &FinalizePrivateUploadArgs,
) -> (r: Result<PrincipalId, FinalizePrivateContentUploadError>)
    ensures
        finalize_plan_outcome(
            private@,
            token_owner matches Some(o) && o@ == caller@,
            *upload_permission,
            *args,
            storage_canisters@,
            caller@,
            r,
        ),
{
    match args.token_id_opt {
        Some(t) => match &args.entry_name {
            None => {
                return Err(FinalizePrivateContentUploadError::NotFound);
            },
            Some(n) => {
                if !has_write_access(token_owner, private, t, n.as_str(), caller) {
                    return Err(FinalizePrivateContentUploadError::StorageCanisterError("Unauthorized".to_string()));
                }
            },
        },
        None => match upload_permission {
            Err(e) => {
                return Err(FinalizePrivateContentUploadError::StorageCanisterError(e.clone()));
            },
            Ok(_) => {},
        },
    }
    match private_target_of(private, args.token_id_opt, &args.entry_name, &args.hash) {
        Some(c) => if storage_canister_known(storage_canisters, &c) {
            Ok(c)
        } else {
            Err(FinalizePrivateContentUploadError::StorageCanisterError("Canister not found".to_string()))
        },
        None => Err(FinalizePrivateContentUploadError::NotFound),
    }
}

/// What the end of a private upload is answered when the private content
/// refused it with `err`.
pub open spec fn finalize_error_answer(err: PrivateContentError, r: Result<(), FinalizePrivateContentUploadError>) -> bool {
    match err {
        PrivateContentError::NotFound => r matches Err(FinalizePrivateContentUploadError::NotFound),
        PrivateContentError::InvalidStateTransition => r matches Err(
            FinalizePrivateContentUploadError::InvalidStateTransition,
        ),
        PrivateContentError::InvalidChunk => r matches Err(FinalizePrivateContentUploadError::IncompleteUpload),
        PrivateContentError::ContentTooLarge => r matches Err(
            FinalizePrivateContentUploadError::StorageCanisterError(m),
        ) && m@ == "ContentTooLarge"@,
        _ => false,
    }
}

/// The private content `w` and answer `r` once the storage canister has
/// finalized the file of `args` in the content `v`: a re-uploaded entry
/// becomes active again, a cached upload waits to be minted.
pub open spec fn finalize_private_outcome(
    v: PrivateContentView,
    args: FinalizePrivateUploadArgs,
    w: PrivateContentView,
    r: Result<(), FinalizePrivateContentUploadError>,
) -> bool {
    match args.token_id_opt {
        Some(t) => match args.entry_name {
            None => r matches Err(FinalizePrivateContentUploadError::NotFound) && w == v,
            Some(n) => if !has_private_entry(v, t, n@) {
                r matches Err(FinalizePrivateContentUploadError::NotFound) && w == v
            } else {
                let e = v.nft_private[t].entries[n@];
                match finalize_refusal(e, PrivateContentStatus::PendingReencryption) {
                    Some(err) => finalize_error_answer(err, r) && w == v,
                    None => r is Ok && w == with_private_entry(
                        v,
                        t,
                        n@,
                        finalized_into(e, PrivateContentStatus::Active),
                    ),
                }
            },
        },
        None => {
            let h = args.hash@;
            if !v.premint_cache.contains_key(h) {
                r matches Err(FinalizePrivateContentUploadError::NotFound) && w == v
            } else {
                let e = v.premint_cache[h];
                match finalize_refusal(e, PrivateContentStatus::PendingUpload) {
                    Some(err) => finalize_error_answer(err, r) && w == v,
                    None => r is Ok && w == with_cached_private(
                        v,
                        h,
                        finalized_into(e, PrivateContentStatus::PendingMinting),
                    ),
                }
            }
        },
    }
}

/// The answer to the end of an upload that the private content took (`Ok`)
/// or refused.
fn finalize_answer(r: Result<(), PrivateContentError>) -> (a: Result<(), FinalizePrivateContentUploadError>)
    ensures
        r is Ok ==> a is Ok,
        r matches Err(PrivateContentError::NotFound) ==> finalize_error_answer(PrivateContentError::NotFound, a),
        r matches Err(PrivateContentError::InvalidStateTransition) ==> finalize_error_answer(
            PrivateContentError::InvalidStateTransition,
            a,
        ),
        r matches Err(PrivateContentError::InvalidChunk) ==> finalize_error_answer(PrivateContentError::InvalidChunk, a),
        r matches Err(PrivateContentError::ContentTooLarge) ==> finalize_error_answer(
            PrivateContentError::ContentTooLarge,
            a,
        ),
{
    match r {
        Ok(()) => Ok(()),
        Err(PrivateContentError::NotFound) => Err(FinalizePrivateContentUploadError::NotFound),
        Err(PrivateContentError::InvalidStateTransition) => Err(FinalizePrivateContentUploadError::InvalidStateTransition),
        Err(PrivateContentError::InvalidChunk) => Err(FinalizePrivateContentUploadError::IncompleteUpload),
        Err(e) => Err(FinalizePrivateContentUploadError::StorageCanisterError(private_error_name(&e))),
    }
}

/// Once the storage canister `storage_canister_id` has answered the end of
/// a private upload (`outcome`): a refusal is passed on and nothing changes;
/// otherwise the media path (the stored path with a leading slash) first
/// redirects to the file on its storage canister, and then the upload is
/// finalized in the private content.
pub fn finalize_private_upload_done(
    private: &mut PrivateContentSystem,
    redirections: &mut KeyedMap<String, String>,
    base_url: &Option<String>,
    test_mode: bool,
    storage_canister_id: &PrincipalId,
    args: &FinalizePrivateUploadArgs,
    outcome: Result<(), FinalizeUploadError>,
) -> (r: Result<(), FinalizePrivateContentUploadError>)
    ensures
        outcome matches Err(e) ==> (r matches Err(x) && finalize_refusal_answer(e, x)) && final(private)@
            == old(private)@ && final(redirections)@ == old(redirections)@,
        outcome is Ok ==> final(redirections)@ == old(redirections)@.insert(
            spec_normalize_media_path(args.storage_path@),
            spec_render_media_url(
                opt_chars(*base_url),
                test_mode,
                principal_text(storage_canister_id@),
                spec_normalize_media_path(args.storage_path@),
            ),
        ) && finalize_private_outcome(old(private)@, *args, final(private)@, r),
{
    match outcome {
        Err(e) => {
            return Err(FinalizePrivateContentUploadError::from(e));
        },
        Ok(()) => {},
    }
    let path = normalize_media_path(args.storage_path.as_str());
    let storage_id = storage_canister_id.to_text();
    let redirection_url = render_media_url(base_url, test_mode, storage_id.as_str(), path.as_str());
    redirections.insert(path, redirection_url);
    match args.token_id_opt {
        Some(t) => match &args.entry_name {
            None => Err(FinalizePrivateContentUploadError::NotFound),
            Some(n) => {
                let r = private.finalize_reupload(&t, n.as_str());
                finalize_answer(r)
            },
        },
        None => {
            let r = private.finalize_upload(&args.hash);
            finalize_answer(r)
        },
    }
}

/// The start of a private upload: a re-upload of a minted token's entry,
/// or, with no token, a new upload cached under its plaintext hash until it
/// is minted.
pub struct InitPrivateUploadArgs {
    pub token_id_opt: Option<u128>,
    pub entry_name: Option<String>,
    pub plaintext_hash: Sha256Hash,
    pub plaintext_size: u64,
    pub salt: Vec<u8>,
    pub file_hash: Sha256Hash,
    pub readers: Readers,
    pub default_readers: Readers,
    pub storage_canister_id: PrincipalId,
    pub storage_path: String,
    pub expected_chunks: usize,
    pub chunk_size: Option<u64>,
    pub file_size: u64,
    pub encryption_mode: EncryptionMode,
}

/// Why a re-upload of the entry `e` with `args` is refused, if it is: an
/// entry that awaits no re-encryption (`Some(None)`), or the message of a
/// storage error.
pub open spec fn reupload_refusal(e: PrivateEntryView, args: InitPrivateUploadArgs) -> Option<Option<Seq<char>>> {
    if e.status != PrivateContentStatus::PendingReencryption {
        Some(None)
    } else if e.hash != args.plaintext_hash@ {
        Some(Some("Plaintext hash mismatch"@))
    } else if e.plaintext_size != args.plaintext_size {
        Some(Some("Plaintext size mismatch"@))
    } else if e.file_size != args.file_size {
        Some(Some("File size mismatch"@))
    } else if args.storage_path@ != e.storage_path {
        Some(Some("Cannot change storage path during reupload"@))
    } else {
        None
    }
}

/// What the start of a private upload is answered before a storage canister
/// is called: on success, the canister that holds the entry being
/// re-uploaded (none for a new upload, whose canister is still to be
/// chosen) and the file hash in hexadecimal; otherwise why it is refused.
pub open spec fn init_plan_outcome(
    v: PrivateContentView,
    owns: bool,
    permission: Result<(), String>,
    args: InitPrivateUploadArgs,
    canisters: Seq<PrincipalId>,
    caller: Seq<u8>,
    r: Result<(Option<PrincipalId>, String), PrivateContentError>,
) -> bool {
    let hx = hex_text(args.file_hash@);
    match args.token_id_opt {
        Some(t) => match args.entry_name {
            None => r matches Err(PrivateContentError::NotFound),
            Some(n) => if !may_write(owns, v, t, n@, caller) {
                r matches Err(PrivateContentError::StorageError(m)) && m@ == "Unauthorized"@
            } else if !has_private_entry(v, t, n@) {
                r matches Err(PrivateContentError::NotFound)
            } else {
                let e = v.nft_private[t].entries[n@];
                match reupload_refusal(e, args) {
                    Some(None) => r matches Err(PrivateContentError::InvalidStateTransition),
                    Some(Some(msg)) => r matches Err(PrivateContentError::StorageError(m)) && m@ == msg,
                    None => if knows_canister(canisters, e.storage_canister_id) {
                        r matches Ok((Some(c), x)) && c@ == e.storage_canister_id && x@ == hx
                    } else {
                        r matches Err(PrivateContentError::StorageError(m)) && m@ == "Canister not found"@
                    },
                }
            },
        },
        None => match permission {
            Err(e) => r matches Err(PrivateContentError::StorageError(m)) && m@ == e@,
            Ok(_) => if v.premint_cache.contains_key(args.plaintext_hash@) {
                r matches Err(PrivateContentError::AlreadyExists)
            } else if args.file_size > MAX_PRIVATE_CONTENT_SIZE {
                r matches Err(PrivateContentError::ContentTooLarge)
            } else if args.file_size % 16 != 0 {
                r matches Err(PrivateContentError::StorageError(m)) && m@
                    == "Encrypted content size must be divisible by 16 bytes (AES block size)"@
            } else {
                r matches Ok((None, x)) && x@ == hx
            },
        },
    }
}

/// Before a private upload starts on a storage canister. A re-upload needs
/// an entry name and write rights on it (`token_owner` is the token's
/// owner), the entry must await re-encryption of the same plaintext into a
/// file of the same size, and the stored path must not change. A new upload
/// needs the upload permission (`upload_permission`), a plaintext not cached
/// yet and a size that the encryption allows.
pub fn init_private_upload_plan(
    private: &PrivateContentSystem,
    token_owner: Option<&PrincipalId>,
    storage_canisters: &Vec<PrincipalId>,
    caller: &PrincipalId,
    upload_permission: &Result<(), String>,
    args: &InitPrivateUploadArgs,
) -> (r: Result<(Option<PrincipalId>, String), PrivateContentError>)
    ensures
        init_plan_outcome(
            private@,
            token_owner matches Some(o) && o@ == caller@,
            *upload_permission,
            *args,
            storage_canisters@,
            caller@,
            r,
        ),
{
    match args.token_id_opt {
        Some(t) => {
            let n = match &args.entry_name {
                None => {
                    return Err(PrivateContentError::NotFound);
                },
                Some(n) => n,
            };
            if !has_write_access(token_owner, private, t, n.as_str(), caller) {
                return Err(PrivateContentError::StorageError("Unauthorized".to_string()));
            }
            match private.reencryption_validate(
                &t,
                n.as_str(),
                &args.plaintext_hash,
                args.plaintext_size,
                args.file_size,
            ) {
                Err(e) => {
                    return Err(e);
                },
                Ok(()) => {},
            }
            let entry = match private.get_nft_private_entry(t, n.as_str()) {
                Ok(e) => e,
                Err(_) => {
                    return Err(PrivateContentError::StorageError("Private entry not found".to_string()));
                },
            };
            if !args.storage_path.key_eq(&entry.storage_path) {
                return Err(
                    PrivateContentError::StorageError("Cannot change storage path during reupload".to_string()),
                );
            }
            if !storage_canister_known(storage_canisters, &entry.storage_canister_id) {
                return Err(PrivateContentError::StorageError("Canister not found".to_string()));
            }
            Ok((Some(entry.storage_canister_id), hex_encode(args.file_hash.as_slice())))
        },
        None => {
            match upload_permission {
                Err(e) => {
                    return Err(PrivateContentError::StorageError(e.clone()));
                },
                Ok(_) => {},
            }
            match private.init_premint_validate(&args.plaintext_hash, args.encryption_mode, args.file_size) {
                Err(e) => {
                    return Err(e);
                },
                Ok(()) => {},
            }
            Ok((None, hex_encode(args.file_hash.as_slice())))
        },
    }
}

/// The private content `w` and answer `r` once a storage canister has
/// started the upload of `args` by `caller`, on the canister `canister` for
/// a new upload: a re-uploaded entry awaits its chunks, a new upload is
/// cached under its plaintext hash.
pub open spec fn init_register_outcome(
    v: PrivateContentView,
    args: InitPrivateUploadArgs,
    caller: Seq<u8>,
    canister: Seq<u8>,
    timestamp: u64,
    w: PrivateContentView,
    r: Result<(), PrivateContentError>,
) -> bool {
    match args.token_id_opt {
        Some(t) => match args.entry_name {
            None => r matches Err(PrivateContentError::NotFound) && w == v,
            Some(n) => if !has_private_entry(v, t, n@) {
                r matches Err(PrivateContentError::NotFound) && w == v
            } else {
                r is Ok && w == with_private_entry(
                    v,
                    t,
                    n@,
                    PrivateEntryView {
                        pending_upload: Some(
                            PendingUploadView {
                                expected_chunks: args.expected_chunks,
                                received_chunks: Map::empty(),
                                chunk_size: CHUNK_SIZE,
                                timestamp_ns: timestamp,
                            },
                        ),
                        ..v.nft_private[t].entries[n@]
                    },
                )
            },
        },
        None => {
            let h = args.plaintext_hash@;
            if v.premint_cache.contains_key(h) {
                r matches Err(PrivateContentError::AlreadyExists) && w == v
            } else {
                r is Ok && exists|id: Seq<u8>|
                    #[trigger] is_canonical_identity(
                        caller,
                        args.default_readers@.union_prefer_right(args.readers@).dom(),
                        id,
                    ) && w == with_cached_private(
                        v,
                        h,
                        spec_premint_entry(
                            h,
                            args.salt@,
                            args.readers@,
                            canister,
                            args.storage_path@,
                            args.encryption_mode,
                            args.plaintext_size,
                            args.expected_chunks,
                            args.file_size,
                            id,
                            timestamp,
                        ),
                    )
            }
        },
    }
}

/// Once a storage canister has answered the start of a private upload
/// (`outcome`; for a new upload, the canister that was chosen), at time
/// `timestamp`: a refusal is answered as a storage error and nothing
/// changes; otherwise the upload is recorded, with `caller` as the owner the
/// new content is encrypted for.
pub fn init_private_upload_done(
    private: &mut PrivateContentSystem,
    caller: &PrincipalId,
    args: InitPrivateUploadArgs,
    outcome: Result<PrincipalId, String>,
    timestamp: u64,
) -> (r: Result<(), PrivateContentError>)
    ensures
        outcome matches Err(e) ==> (r matches Err(PrivateContentError::StorageError(m)) && m@ == e@)
            && final(private)@ == old(private)@,
        outcome matches Ok(c) ==> init_register_outcome(
            old(private)@,
            args,
            caller@,
            c@,
            timestamp,
            final(private)@,
            r,
        ),
{
    let canister = match outcome {
        Err(e) => {
            return Err(PrivateContentError::StorageError(e));
        },
        Ok(c) => c,
    };
    match args.token_id_opt {
        Some(t) => match &args.entry_name {
            None => Err(PrivateContentError::NotFound),
            Some(n) => private.init_reencryption_store(&t, n.as_str(), args.expected_chunks, timestamp),
        },
        None => private.init_premint_store(
            args.plaintext_hash,
            args.salt,
            caller.deep_copy(),
            args.readers,
            canister,
            args.storage_path,
            args.encryption_mode,
            args.plaintext_size,
            args.expected_chunks,
            args.file_size,
            &args.default_readers,
            timestamp,
        ),
    }
}

} // verus!
