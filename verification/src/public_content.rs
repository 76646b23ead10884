//! Public content of the collection: files uploaded in chunks, held in a
//! cache until they are minted into (or appended to) a token, and the indexes
//! between files and the tokens that use them.

use vstd::prelude::*;
use crate::display::{nat_text, nat_to_text};
use crate::keyed::{DeepCopy, KeyedMap, KeyedSet, MapKey, total_len};
use crate::principal::PrincipalId;
use crate::text::{chars_of, push_all, string_from_chars};
use crate::upload::{
    AppendFileError, CancelUploadResp, FinalizeUploadError, InitUploadError, InitUploadResp,
    StoreChunkError, UploadState, CHUNK_SIZE, MAX_CONTENT_SIZE,
};

verus! {

broadcast use vstd::string::group_string_axioms;

/// A chunked upload that has not been finalized yet.
pub struct PendingUpload {
    pub expected_chunks: usize,
    pub received_chunks: KeyedMap<u128, Vec<u8>>,
    pub chunk_size: usize,
    pub timestamp_ns: u64,
}

pub struct PendingUploadView {
    pub expected_chunks: usize,
    pub received_chunks: Map<u128, Seq<u8>>,
    pub chunk_size: usize,
    pub timestamp_ns: u64,
}

impl View for PendingUpload {
    type V = PendingUploadView;

    open spec fn view(&self) -> PendingUploadView {
        PendingUploadView {
            expected_chunks: self.expected_chunks,
            received_chunks: self.received_chunks@,
            chunk_size: self.chunk_size,
            timestamp_ns: self.timestamp_ns,
        }
    }
}

impl DeepCopy for PendingUpload {
    fn deep_copy(&self) -> (c: Self) {
        PendingUpload {
            expected_chunks: self.expected_chunks,
            received_chunks: self.received_chunks.deep_copy(),
            chunk_size: self.chunk_size,
            timestamp_ns: self.timestamp_ns,
        }
    }
}

/// A public file: where it is stored and how far its upload went.
pub struct PublicEntry {
    pub state: UploadState,
    pub hash: String,
    pub file_size: u64,
    pub storage_canister_id: PrincipalId,
    pub storage_path: String,
    pub pending_upload: Option<PendingUpload>,
    pub format_version: u8,
    pub created_at_ns: u64,
}

pub struct PublicEntryView {
    pub state: UploadState,
    pub hash: Seq<char>,
    pub file_size: u64,
    pub storage_canister_id: Seq<u8>,
    pub storage_path: Seq<char>,
    pub pending_upload: Option<PendingUploadView>,
    pub format_version: u8,
    pub created_at_ns: u64,
}

impl View for PublicEntry {
    type V = PublicEntryView;

    open spec fn view(&self) -> PublicEntryView {
        PublicEntryView {
            state: self.state,
            hash: self.hash@,
            file_size: self.file_size,
            storage_canister_id: self.storage_canister_id@,
            storage_path: self.storage_path@,
            pending_upload: match self.pending_upload {
                Some(p) => Some(p@),
                None => None,
            },
            format_version: self.format_version,
            created_at_ns: self.created_at_ns,
        }
    }
}

impl DeepCopy for PublicEntry {
    fn deep_copy(&self) -> (c: Self) {
        let pending_upload = match &self.pending_upload {
            Some(p) => Some(p.deep_copy()),
            None => None,
        };
        PublicEntry {
            state: self.state,
            hash: self.hash.clone(),
            file_size: self.file_size,
            storage_canister_id: self.storage_canister_id.deep_copy(),
            storage_path: self.storage_path.clone(),
            pending_upload,
            format_version: self.format_version,
            created_at_ns: self.created_at_ns,
        }
    }
}

/// The public files of one minted token, by entry name.
pub struct NftPublicRecord {
    pub entries: KeyedMap<String, PublicEntry>,
    pub burned_at_ns: Option<u64>,
}

pub struct NftPublicRecordView {
    pub entries: Map<Seq<char>, PublicEntryView>,
    pub burned_at_ns: Option<u64>,
}

impl View for NftPublicRecord {
    type V = NftPublicRecordView;

    open spec fn view(&self) -> NftPublicRecordView {
        NftPublicRecordView { entries: self.entries@, burned_at_ns: self.burned_at_ns }
    }
}

impl DeepCopy for NftPublicRecord {
    fn deep_copy(&self) -> (c: Self) {
        NftPublicRecord { entries: self.entries.deep_copy(), burned_at_ns: self.burned_at_ns }
    }
}

impl NftPublicRecord {
    /// A record with no entries that is not burned.
    pub fn new() -> (r: Self)
        ensures
            r@.entries == Map::<Seq<char>, PublicEntryView>::empty(),
            r@.burned_at_ns is None,
    {
        NftPublicRecord { entries: KeyedMap::new(), burned_at_ns: None }
    }
}

/// Why an operation on public content failed.
#[derive(Debug)]
pub enum PublicContentError {
    FileAlreadyExists,
    InvalidStateTransition,
    NotEnabled,
    NotFound,
    Unauthorized,
    InvalidStatus,
    ContentTooLarge,
    InvalidChunk,
    ConcurrentManagementCall,
    StorageCanisterError(String),
}

/// The public content of the collection.
///
/// `temp_file_cache` holds uploads by file path until they are minted;
/// `nft_public` holds the entries of minted tokens; `file_to_nfts` and
/// `nft_to_files` index which tokens use which stored file.
pub struct PublicContentSystem {
    pub nft_public: KeyedMap<u128, NftPublicRecord>,
    pub temp_file_cache: KeyedMap<String, PublicEntry>,
    pub file_to_nfts: KeyedMap<String, KeyedSet<u128>>,
    pub nft_to_files: KeyedMap<u128, KeyedSet<String>>,
    pub all_files_index: KeyedMap<String, PublicEntry>,
}

pub struct PublicContentView {
    pub nft_public: Map<u128, NftPublicRecordView>,
    pub temp_file_cache: Map<Seq<char>, PublicEntryView>,
    pub file_to_nfts: Map<Seq<char>, Set<u128>>,
    pub nft_to_files: Map<u128, Set<Seq<char>>>,
    pub all_files_index: Map<Seq<char>, PublicEntryView>,
}

impl View for PublicContentSystem {
    type V = PublicContentView;

    open spec fn view(&self) -> PublicContentView {
        PublicContentView {
            nft_public: self.nft_public@,
            temp_file_cache: self.temp_file_cache@,
            file_to_nfts: self.file_to_nfts@,
            nft_to_files: self.nft_to_files@,
            all_files_index: self.all_files_index@,
        }
    }
}

/// Token `t` uses the stored file `p` through its entry `name`.
pub open spec fn linked_at(v: PublicContentView, p: Seq<char>, t: u128, name: Seq<char>) -> bool {
    &&& v.file_to_nfts.contains_key(p)
    &&& v.file_to_nfts[p].contains(t)
    &&& v.nft_public.contains_key(t)
    &&& v.nft_public[t].entries.contains_key(name)
    &&& v.nft_public[t].entries[name].storage_path == p
}

/// Some minted token uses the stored file `p`.
pub open spec fn has_linked_entry(v: PublicContentView, p: Seq<char>) -> bool {
    exists|t: u128, name: Seq<char>| #[trigger] linked_at(v, p, t, name)
}

/// The entry that a lookup of the stored file `p` may answer with.
pub open spec fn is_linked_entry(v: PublicContentView, p: Seq<char>, e: PublicEntryView) -> bool {
    exists|t: u128, name: Seq<char>| #[trigger]
        linked_at(v, p, t, name) && v.nft_public[t].entries[name] == e
}

/// What a lookup of the stored file `p` may answer: an entry of a minted
/// token that uses it when there is one, the cached upload otherwise.
pub open spec fn path_lookup(v: PublicContentView, p: Seq<char>, r: Option<PublicEntryView>) -> bool {
    match r {
        Some(e) => is_linked_entry(v, p, e) || (!has_linked_entry(v, p) && v.temp_file_cache.contains_key(p)
            && e == v.temp_file_cache[p]),
        None => !has_linked_entry(v, p) && !v.temp_file_cache.contains_key(p),
    }
}

/// The first entry, from position `j` on, of the entries `es` that is
/// stored at `p`.
pub open spec fn first_stored_at(es: KeyedMap<String, PublicEntry>, p: Seq<char>, j: int) -> Option<PublicEntryView>
    decreases es.spec_len() - j,
{
    if j < 0 || j >= es.spec_len() {
        None
    } else if es.spec_value_at(j).storage_path == p {
        Some(es.spec_value_at(j))
    } else {
        first_stored_at(es, p, j + 1)
    }
}

/// The entry stored at `p` that the lookup through the file index finds,
/// trying the tokens that `users` lists from position `i` on, in order.
pub open spec fn first_linked_from(
    sys: PublicContentSystem,
    users: KeyedSet<u128>,
    p: Seq<char>,
    i: int,
) -> Option<PublicEntryView>
    decreases users.spec_len() - i,
{
    if i < 0 || i >= users.spec_len() {
        None
    } else {
        let t = users.spec_at(i);
        let found = if sys.nft_public@.contains_key(t) {
            first_stored_at(sys.nft_public.spec_raw_get(t).entries, p, 0)
        } else {
            None
        };
        match found {
            Some(e) => Some(e),
            None => first_linked_from(sys, users, p, i + 1),
        }
    }
}

/// What a lookup of the stored file `p` answers, in the order the
/// collection holds its records: the first entry of a minted token that
/// uses it, else the cached upload.
pub open spec fn public_file_at(sys: PublicContentSystem, p: Seq<char>) -> Option<PublicEntryView> {
    let linked = if sys.file_to_nfts@.contains_key(p) {
        first_linked_from(sys, sys.file_to_nfts.spec_raw_get(p), p, 0)
    } else {
        None
    };
    match linked {
        Some(e) => Some(e),
        None => if sys.temp_file_cache@.contains_key(p) {
            Some(sys.temp_file_cache@[p])
        } else {
            None
        },
    }
}

/// The message of a lookup that found no token.
pub open spec fn nft_not_found_message(token_id: u128) -> Seq<char> {
    "NFT "@ + nat_text(token_id) + " not found"@
}

/// The message of a lookup that found the token but not the entry.
pub open spec fn entry_not_found_message(entry_name: Seq<char>, token_id: u128) -> Seq<char> {
    "Public entry '"@ + entry_name + "' not found for NFT "@ + nat_text(token_id)
}

/// Where a cached upload starts: nothing received yet.
pub open spec fn spec_new_cache_entry(
    storage_canister_id: Seq<u8>,
    storage_path: Seq<char>,
    file_path: Seq<char>,
    expected_chunks: usize,
    file_size: u64,
    timestamp: u64,
) -> PublicEntryView {
    PublicEntryView {
        state: UploadState::Init,
        hash: file_path,
        file_size,
        storage_canister_id,
        storage_path,
        pending_upload: Some(
            PendingUploadView {
                expected_chunks,
                received_chunks: Map::empty(),
                chunk_size: CHUNK_SIZE,
                timestamp_ns: timestamp,
            },
        ),
        format_version: 1,
        created_at_ns: timestamp,
    }
}

/// A state from which a chunk can be stored.
pub open spec fn accepts_chunks(s: UploadState) -> bool {
    s == UploadState::Init || s == UploadState::InProgress || s == UploadState::ReuploadInit
}

/// Whether an entry of a minted token is the one a chunk for its file goes
/// to (`for_finalize` false) or the one a finalization goes to (true).
pub open spec fn is_target_state(s: UploadState, for_finalize: bool) -> bool {
    if for_finalize {
        s == UploadState::InProgress || s == UploadState::Init
    } else {
        s == UploadState::ReuploadInit || s == UploadState::InProgress
    }
}

/// Every entry of a minted token that uses `p` is in a target state.
pub open spec fn all_linked_targets(v: PublicContentView, p: Seq<char>, for_finalize: bool) -> bool {
    forall|t: u128, name: Seq<char>| #[trigger]
        linked_at(v, p, t, name) ==> is_target_state(
            v.nft_public[t].entries[name].state,
            for_finalize,
        )
}

/// The outcome of a check made before an entry is changed.
pub enum Check {
    Accept,
    BadState,
    BadIndex,
    BadData,
    NotStarted,
    Incomplete,
    SizeMismatch,
}

/// What storing a chunk of `len` bytes at `index` into `e` comes to.
pub open spec fn chunk_check(e: PublicEntryView, index: u128, len: nat) -> Check {
    if !accepts_chunks(e.state) {
        Check::BadState
    } else {
        match e.pending_upload {
            None => Check::BadState,
            Some(pu) => if index >= pu.expected_chunks {
                Check::BadIndex
            } else if len > CHUNK_SIZE {
                Check::BadData
            } else {
                Check::Accept
            },
        }
    }
}

/// `e` once the chunk `data` is stored at `index`.
pub open spec fn chunk_stored(e: PublicEntryView, index: u128, data: Seq<u8>) -> PublicEntryView {
    let pu = e.pending_upload.unwrap();
    PublicEntryView {
        state: if e.state == UploadState::Init || e.state == UploadState::ReuploadInit {
            UploadState::InProgress
        } else {
            e.state
        },
        pending_upload: Some(
            PendingUploadView { received_chunks: pu.received_chunks.insert(index, data), ..pu },
        ),
        ..e
    }
}

/// The answer to storing a chunk, given the check.
pub open spec fn chunk_answer(c: Check, r: Result<(), StoreChunkError>) -> bool {
    match c {
        Check::Accept => r is Ok,
        Check::BadIndex => r matches Err(StoreChunkError::InvalidChunkId),
        Check::BadData => r matches Err(StoreChunkError::InvalidChunkData),
        _ => r matches Err(StoreChunkError::InvalidStateTransition),
    }
}

/// What finalizing the upload of `e` comes to.
pub open spec fn finalize_check(e: PublicEntryView) -> Check {
    if e.state != UploadState::Init && e.state != UploadState::InProgress {
        Check::BadState
    } else {
        match e.pending_upload {
            None => Check::NotStarted,
            Some(pu) => if pu.received_chunks.len() != pu.expected_chunks {
                Check::Incomplete
            } else if total_len(pu.received_chunks) != e.file_size {
                Check::SizeMismatch
            } else {
                Check::Accept
            },
        }
    }
}

/// `e` once its upload is finalized.
pub open spec fn finalized(e: PublicEntryView) -> PublicEntryView {
    PublicEntryView { state: UploadState::Finalized, pending_upload: None, ..e }
}

/// The answer to finalizing an upload, given the check.
pub open spec fn finalize_answer(c: Check, r: Result<(), FinalizeUploadError>) -> bool {
    match c {
        Check::Accept => r is Ok,
        Check::BadState => r matches Err(FinalizeUploadError::UploadAlreadyFinalized),
        Check::Incomplete => r matches Err(FinalizeUploadError::IncompleteUpload),
        Check::SizeMismatch => r matches Err(FinalizeUploadError::FileSizeMismatch),
        _ => r matches Err(FinalizeUploadError::UploadNotStarted),
    }
}

/// `v` with the cached upload at `p` replaced by `e`.
pub open spec fn with_cache_entry(v: PublicContentView, p: Seq<char>, e: PublicEntryView) -> PublicContentView {
    PublicContentView { temp_file_cache: v.temp_file_cache.insert(p, e), ..v }
}

/// `v` with the entry `name` of the minted token `t` replaced by `e`.
pub open spec fn with_nft_entry(
    v: PublicContentView,
    t: u128,
    name: Seq<char>,
    e: PublicEntryView,
) -> PublicContentView {
    PublicContentView {
        nft_public: v.nft_public.insert(
            t,
            NftPublicRecordView {
                entries: v.nft_public[t].entries.insert(name, e),
                ..v.nft_public[t]
            },
        ),
        ..v
    }
}

/// Stores the chunk `data` at `chunk_index` into the upload `e`, if the
/// upload accepts it.
fn store_chunk_in_entry(e: &mut PublicEntry, chunk_index: u128, data: Vec<u8>) -> (r: Result<
    (),
    StoreChunkError,
>)
    ensures
        chunk_answer(chunk_check(old(e)@, chunk_index, data@.len()), r),
        chunk_check(old(e)@, chunk_index, data@.len()) is Accept ==> final(e)@ == chunk_stored(
            old(e)@,
            chunk_index,
            data@,
        ),
        !(chunk_check(old(e)@, chunk_index, data@.len()) is Accept) ==> final(e)@ == old(e)@,
{
    if !(e.state == UploadState::Init || e.state == UploadState::InProgress || e.state
        == UploadState::ReuploadInit) {
        return Err(StoreChunkError::InvalidStateTransition);
    }
    match &mut e.pending_upload {
        None => {
            return Err(StoreChunkError::InvalidStateTransition);
        },
        Some(pending) => {
            if chunk_index >= pending.expected_chunks as u128 {
                return Err(StoreChunkError::InvalidChunkId);
            }
            if data.len() > CHUNK_SIZE {
                return Err(StoreChunkError::InvalidChunkData);
            }
            pending.received_chunks.insert(chunk_index, data);
        },
    }
    if e.state == UploadState::Init || e.state == UploadState::ReuploadInit {
        e.state = UploadState::InProgress;
    }
    Ok(())
}

/// Finalizes the upload `e`, if all its chunks came and they add up to its size.
fn finalize_entry(e: &mut PublicEntry) -> (r: Result<(), FinalizeUploadError>)
    ensures
        finalize_answer(finalize_check(old(e)@), r),
        finalize_check(old(e)@) is Accept ==> final(e)@ == finalized(old(e)@),
        !(finalize_check(old(e)@) is Accept) ==> final(e)@ == old(e)@,
{
    if e.state != UploadState::Init && e.state != UploadState::InProgress {
        return Err(FinalizeUploadError::UploadAlreadyFinalized);
    }
    match &e.pending_upload {
        None => {
            return Err(FinalizeUploadError::UploadNotStarted);
        },
        Some(pending) => {
            if pending.received_chunks.len() != pending.expected_chunks {
                return Err(FinalizeUploadError::IncompleteUpload);
            }
            let actual_size = pending.received_chunks.total_len();
            if actual_size != e.file_size as u128 {
                return Err(FinalizeUploadError::FileSizeMismatch);
            }
        },
    }
    e.state = UploadState::Finalized;
    e.pending_upload = None;
    Ok(())
}

/// The file index once the token `t` stops using the files in `files`: each
/// such file loses `t`, and a file that no token uses any more leaves the index.
pub open spec fn index_without_token(
    f2n: Map<Seq<char>, Set<u128>>,
    files: Set<Seq<char>>,
    t: u128,
) -> Map<Seq<char>, Set<u128>> {
    Map::new(
        |f: Seq<char>| f2n.contains_key(f) && !(files.contains(f) && f2n[f].remove(t).is_empty()),
        |f: Seq<char>| if files.contains(f) { f2n[f].remove(t) } else { f2n[f] },
    )
}

/// The files among `files` that only the token `t` used.
pub open spec fn orphaned_files(
    f2n: Map<Seq<char>, Set<u128>>,
    files: Set<Seq<char>>,
    t: u128,
) -> Set<Seq<char>> {
    Set::new(
        |f: Seq<char>| files.contains(f) && f2n.contains_key(f) && f2n[f].remove(t).is_empty(),
    )
}

/// The files that the token `t` uses, by the token index.
pub open spec fn files_of(v: PublicContentView, t: u128) -> Set<Seq<char>> {
    if v.nft_to_files.contains_key(t) {
        v.nft_to_files[t]
    } else {
        Set::empty()
    }
}

/// `v` once the token `t` is burned at `timestamp`.
pub open spec fn spec_burned(v: PublicContentView, t: u128, timestamp: u64) -> PublicContentView {
    PublicContentView {
        nft_public: if v.nft_public.contains_key(t) {
            v.nft_public.insert(
                t,
                NftPublicRecordView { burned_at_ns: Some(timestamp), ..v.nft_public[t] },
            )
        } else {
            v.nft_public
        },
        file_to_nfts: index_without_token(v.file_to_nfts, files_of(v, t), t),
        nft_to_files: v.nft_to_files.remove(t),
        ..v
    }
}

/// A file of a burned token that can be deleted: (entry name, storage
/// canister, storage path).
pub type ExpiredFile = (String, PrincipalId, String);

/// The files of the record of `t` that no token uses any more.
pub open spec fn unused_files_of(v: PublicContentView, t: u128) -> Set<(Seq<char>, Seq<u8>, Seq<char>)> {
    Set::new(
        |x: (Seq<char>, Seq<u8>, Seq<char>)|
            v.nft_public[t].entries.contains_key(x.0) && x.1
                == v.nft_public[t].entries[x.0].storage_canister_id && x.2
                == v.nft_public[t].entries[x.0].storage_path && !v.file_to_nfts.contains_key(x.2),
    )
}

/// The record of `t` was burned at least `threshold_ns` before `now_ns`.
pub open spec fn burn_expired(v: PublicContentView, t: u128, now_ns: u64, threshold_ns: u64) -> bool {
    &&& v.nft_public.contains_key(t)
    &&& v.nft_public[t].burned_at_ns is Some
    &&& v.nft_public[t].burned_at_ns.unwrap() + threshold_ns <= now_ns
}

/// The view of an expired file.
pub open spec fn expired_file_view(x: ExpiredFile) -> (Seq<char>, Seq<u8>, Seq<char>) {
    (x.0@, x.1@, x.2@)
}

/// Finalizing the upload of `p` took the system from `v` to `fin` with the
/// answer `r`: the cached upload at `p`, or else an entry of a minted token
/// that stores its file at `p` and is being uploaded, is finalized if it
/// may be.
pub open spec fn finalize_register_outcome(
    v: PublicContentView,
    p: Seq<char>,
    fin: PublicContentView,
    r: Result<(), FinalizeUploadError>,
) -> bool {
    &&& v.temp_file_cache.contains_key(p) ==> ({
        let e = v.temp_file_cache[p];
        let c = finalize_check(e);
        &&& finalize_answer(c, r)
        &&& fin == if c is Accept {
            with_cache_entry(v, p, finalized(e))
        } else {
            v
        }
    })
    &&& !v.temp_file_cache.contains_key(p) ==> ({
        ||| {
            &&& r matches Err(FinalizeUploadError::UploadNotStarted)
            &&& fin == v
            &&& !(has_linked_entry(v, p) && all_linked_targets(v, p, true))
        }
        ||| exists|t: u128, name: Seq<char>|
            {
                let e = v.nft_public[t].entries[name];
                let c = finalize_check(e);
                &&& #[trigger] linked_at(v, p, t, name)
                &&& is_target_state(e.state, true)
                &&& finalize_answer(c, r)
                &&& fin == if c is Accept {
                    with_nft_entry(v, t, name, finalized(e))
                } else {
                    v
                }
            }
    })
}

impl DeepCopy for PublicContentSystem {
    fn deep_copy(&self) -> (c: Self) {
        PublicContentSystem {
            nft_public: self.nft_public.deep_copy(),
            temp_file_cache: self.temp_file_cache.deep_copy(),
            file_to_nfts: self.file_to_nfts.deep_copy(),
            nft_to_files: self.nft_to_files.deep_copy(),
            all_files_index: self.all_files_index.deep_copy(),
        }
    }
}

impl PublicContentSystem {
    /// A system with no content at all.
    pub fn new() -> (s: Self)
        ensures
            s@.nft_public == Map::<u128, NftPublicRecordView>::empty(),
            s@.temp_file_cache == Map::<Seq<char>, PublicEntryView>::empty(),
            s@.file_to_nfts == Map::<Seq<char>, Set<u128>>::empty(),
            s@.nft_to_files == Map::<u128, Set<Seq<char>>>::empty(),
            s@.all_files_index == Map::<Seq<char>, PublicEntryView>::empty(),
    {
        PublicContentSystem {
            nft_public: KeyedMap::new(),
            temp_file_cache: KeyedMap::new(),
            file_to_nfts: KeyedMap::new(),
            nft_to_files: KeyedMap::new(),
            all_files_index: KeyedMap::new(),
        }
    }

    /// The entry `entry_name` of the minted token `token_id`.
    pub fn get_nft_public_entry(&self, token_id: u128, entry_name: &str) -> (r: Result<
        PublicEntry,
        String,
    >)
        ensures
            match r {
                Ok(e) => self@.nft_public.contains_key(token_id)
                    && self@.nft_public[token_id].entries.contains_key(entry_name@) && e@
                    == self@.nft_public[token_id].entries[entry_name@],
                Err(msg) => if !self@.nft_public.contains_key(token_id) {
                    msg@ == nft_not_found_message(token_id)
                } else {
                    !self@.nft_public[token_id].entries.contains_key(entry_name@) && msg@
                        == entry_not_found_message(entry_name@, token_id)
                },
            },
    {
        match self.nft_public.get(&token_id) {
            None => {
                let mut m = chars_of("NFT ");
                let n = chars_of(nat_to_text(token_id).as_str());
                push_all(&mut m, &n);
                let tail = chars_of(" not found");
                push_all(&mut m, &tail);
                Err(string_from_chars(&m))
            },
            Some(record) => {
                let key = entry_name.to_owned();
                match record.entries.get(&key) {
                    Some(e) => Ok(e.deep_copy()),
                    None => {
                        let mut m = chars_of("Public entry '");
                        let name = chars_of(entry_name);
                        push_all(&mut m, &name);
                        let mid = chars_of("' not found for NFT ");
                        push_all(&mut m, &mid);
                        let n = chars_of(nat_to_text(token_id).as_str());
                        push_all(&mut m, &n);
                        Err(string_from_chars(&m))
                    },
                }
            },
        }
    }

    /// The stored files that the token `token_id` uses, each once.
    pub fn get_files_by_nft(&self, token_id: &u128) -> (files: Vec<String>)
        ensures
            files@.map_values(|f: String| f@).no_duplicates(),
            files@.map_values(|f: String| f@).to_set() == (if self@.nft_to_files.contains_key(
                *token_id,
            ) {
                self@.nft_to_files[*token_id]
            } else {
                Set::<Seq<char>>::empty()
            }),
    {
        let mut out: Vec<String> = Vec::new();
        match self.nft_to_files.get(token_id) {
            None => {
                assert(out@.map_values(|f: String| f@) =~= Seq::<Seq<char>>::empty());
                assert(out@.map_values(|f: String| f@).to_set() =~= Set::<Seq<char>>::empty());
            },
            Some(files) => {
                let n = files.len();
                let mut i: usize = 0;
                while i < n
                    invariant
                        n == files.spec_len(),
                        files.inv(),
                        i <= n,
                        out@.len() == i,
                        forall|j: int| 0 <= j < i ==> #[trigger] out@[j]@ == files.spec_at(j),
                    decreases n - i,
                {
                    out.push(files.at(i).clone());
                    i += 1;
                }
                proof {
                    files.lemma_positions();
                    let s = out@.map_values(|f: String| f@);
                    assert forall|a: int, b: int| 0 <= a < b < s.len() implies s[a] != s[b] by {
                        assert(s[a] == files.spec_at(a));
                        assert(s[b] == files.spec_at(b));
                    }
                    assert forall|q: Seq<char>| s.to_set().contains(q) <==> files@.contains(q) by {
                        if files@.contains(q) {
                            let j = files.spec_index_of(q);
                            assert(s[j] == q);
                        }
                        if s.to_set().contains(q) {
                            let j = choose|j: int| 0 <= j < s.len() && s[j] == q;
                            assert(files.spec_at(j) == q);
                        }
                    }
                    assert(s.to_set() =~= files@);
                }
            },
        }
        out
    }

    /// The stored file at `file_path`: an entry of a minted token that uses
    /// it when there is one, the cached upload otherwise.
    pub fn get_public_file_by_path(&self, file_path: &str) -> (r: Option<PublicEntry>)
        ensures
            path_lookup(
                self@,
                file_path@,
                match r {
                    Some(e) => Some(e@),
                    None => None,
                },
            ),
            match r {
                Some(e) => Some(e@),
                None => None,
            } == public_file_at(*self, file_path@),
    {
        let key = file_path.to_owned();
        match self.find_linked_entry(&key) {
            Some(e) => {
                return Some(e.deep_copy());
            },
            None => {},
        }
        match self.temp_file_cache.get(&key) {
            Some(e) => Some(e.deep_copy()),
            None => None,
        }
    }

    /// An entry of a minted token that uses the stored file `p`, if any.
    #[verifier::loop_isolation(false)]
    fn find_linked_entry(&self, p: &String) -> (r: Option<&PublicEntry>)
        ensures
            match r {
                Some(e) => is_linked_entry(self@, p@, e@),
                None => !has_linked_entry(self@, p@),
            },
            match r {
                Some(e) => Some(e@),
                None => None,
            } == (if self@.file_to_nfts.contains_key(p@) {
                first_linked_from(*self, self.file_to_nfts.spec_raw_get(p@), p@, 0)
            } else {
                None
            }),
    {
        let nfts = match self.file_to_nfts.get(p) {
            Some(nfts) => nfts,
            None => {
                return None;
            },
        };
        let n = nfts.len();
        let mut i: usize = 0;
        while i < n
            invariant
                n == nfts.spec_len(),
                nfts.inv(),
                i <= n,
                self@.file_to_nfts.contains_key(p@),
                nfts@ == self@.file_to_nfts[p@],
                *nfts == self.file_to_nfts.spec_raw_get(p@),
                first_linked_from(*self, *nfts, p@, 0) == first_linked_from(*self, *nfts, p@, i as int),
                forall|j: int, name: Seq<char>|
                    0 <= j < i ==> !#[trigger] linked_at(self@, p@, nfts.spec_at(j), name),
            decreases n - i,
        {
            let tid = nfts.at(i);
            match self.nft_public.get(tid) {
                Some(record) => {
                    let m = record.entries.len();
                    let mut j: usize = 0;
                    while j < m
                        invariant
                            m == record.entries.spec_len(),
                            record.entries.inv(),
                            j <= m,
                            first_stored_at(record.entries, p@, 0) == first_stored_at(record.entries, p@, j as int),
                            forall|k: int|
                                0 <= k < j ==> (#[trigger] record.entries.spec_value_at(
                                    k,
                                )).storage_path != p@,
                        decreases m - j,
                    {
                        let e = record.entries.value_at(j);
                        if e.storage_path.key_eq(p) {
                            proof {
                                record.entries.lemma_positions();
                                nfts.lemma_positions();
                                let name = record.entries.spec_key_at(j as int);
                                assert(self@.file_to_nfts.contains_key(p@));
                                assert(self@.file_to_nfts[p@].contains(tid@));
                                assert(self@.nft_public.contains_key(tid@));
                                assert(self@.nft_public[tid@].entries.contains_key(name));
                                assert(self@.nft_public[tid@].entries[name].storage_path == p@);
                                assert(linked_at(self@, p@, tid@, name));
                            }
                            return Some(e);
                        }
                        j += 1;
                    }
                    proof {
                        record.entries.lemma_positions();
                        assert forall|name: Seq<char>| !#[trigger] linked_at(
                            self@,
                            p@,
                            nfts.spec_at(i as int),
                            name,
                        ) by {
                            if record@.entries.contains_key(name) {
                                let k = record.entries.spec_index_of(name);
                                assert(record.entries.spec_value_at(k).storage_path != p@);
                            }
                        }
                    }
                },
                None => {},
            }
            i += 1;
        }
        proof {
            nfts.lemma_positions();
            assert forall|t: u128, name: Seq<char>| !#[trigger] linked_at(self@, p@, t, name) by {
                if nfts@.contains(t) {
                    let j = nfts.spec_index_of(t);
                    assert(!linked_at(self@, p@, nfts.spec_at(j), name));
                }
            }
        }
        None
    }

    /// Drops the cached upload at `file_path`, unless a minted token uses it.
    pub fn remove_entry_by_path(&mut self, file_path: &String) -> (r: Result<(), PublicContentError>)
        ensures
            old(self)@.file_to_nfts.contains_key(file_path@) ==> (r matches Err(
                PublicContentError::InvalidStateTransition,
            )) && final(self)@ == old(self)@,
            !old(self)@.file_to_nfts.contains_key(file_path@) && !old(self)@.temp_file_cache.contains_key(
                file_path@,
            ) ==> (r matches Err(PublicContentError::NotFound)) && final(self)@ == old(self)@,
            !old(self)@.file_to_nfts.contains_key(file_path@) && old(self)@.temp_file_cache.contains_key(
                file_path@,
            ) ==> r is Ok && final(self)@ == (PublicContentView {
                temp_file_cache: old(self)@.temp_file_cache.remove(file_path@),
                ..old(self)@
            }),
    {
        if self.file_to_nfts.contains_key(file_path) {
            return Err(PublicContentError::InvalidStateTransition);
        }
        match self.temp_file_cache.remove(file_path) {
            Some(_) => Ok(()),
            None => {
                assert(old(self)@.temp_file_cache.remove(file_path@) =~= old(self)@.temp_file_cache);
                Err(PublicContentError::NotFound)
            },
        }
    }

    /// Whether an upload of `file_size` bytes to `file_path` may start: the
    /// path is neither cached nor used by a minted token, and the file is not
    /// too large.
    pub fn init_upload_validate(&self, file_path: &String, file_size: u64) -> (r: Result<
        InitUploadResp,
        InitUploadError,
    >)
        ensures
            (self@.temp_file_cache.contains_key(file_path@) || self@.file_to_nfts.contains_key(
                file_path@,
            )) ==> r matches Err(InitUploadError::FileAlreadyExists),
            !self@.temp_file_cache.contains_key(file_path@) && !self@.file_to_nfts.contains_key(
                file_path@,
            ) && file_size > MAX_CONTENT_SIZE ==> r matches Err(InitUploadError::ContentTooLarge),
            !self@.temp_file_cache.contains_key(file_path@) && !self@.file_to_nfts.contains_key(
                file_path@,
            ) && file_size <= MAX_CONTENT_SIZE ==> r is Ok,
    {
        if self.temp_file_cache.contains_key(file_path) {
            return Err(InitUploadError::FileAlreadyExists);
        }
        if self.file_to_nfts.contains_key(file_path) {
            return Err(InitUploadError::FileAlreadyExists);
        }
        if file_size > MAX_CONTENT_SIZE {
            return Err(InitUploadError::ContentTooLarge);
        }
        Ok(InitUploadResp {})
    }

    /// Registers the start of an upload to `file_path` in the cache.
    pub fn init_upload_register(
        &mut self,
        file_path: String,
        storage_canister_id: PrincipalId,
        storage_path: String,
        expected_chunks: usize,
        file_size: u64,
        timestamp: u64,
    ) -> (r: Result<InitUploadResp, InitUploadError>)
        ensures
            old(self)@.temp_file_cache.contains_key(file_path@) ==> (r matches Err(
                InitUploadError::FileAlreadyExists,
            )) && final(self)@ == old(self)@,
            !old(self)@.temp_file_cache.contains_key(file_path@) ==> r is Ok && final(self)@ == (
            PublicContentView {
                temp_file_cache: old(self)@.temp_file_cache.insert(
                    file_path@,
                    spec_new_cache_entry(
                        storage_canister_id@,
                        storage_path@,
                        file_path@,
                        expected_chunks,
                        file_size,
                        timestamp,
                    ),
                ),
                ..old(self)@
            }),
    {
        if self.temp_file_cache.contains_key(&file_path) {
            return Err(InitUploadError::FileAlreadyExists);
        }
        let entry = PublicEntry {
            state: UploadState::Init,
            hash: file_path.clone(),
            file_size,
            storage_canister_id,
            storage_path,
            pending_upload: Some(
                PendingUpload {
                    expected_chunks,
                    received_chunks: KeyedMap::new(),
                    chunk_size: CHUNK_SIZE,
                    timestamp_ns: timestamp,
                },
            ),
            format_version: 1,
            created_at_ns: timestamp,
        };
        self.temp_file_cache.insert(file_path, entry);
        Ok(InitUploadResp {})
    }

    /// Drops the cached upload at `file_path`, if there is one.
    pub fn cancel_upload_register(&mut self, file_path: &String) -> (r: Result<
        CancelUploadResp,
        crate::upload::CancelUploadError,
    >)
        ensures
            r is Ok,
            final(self)@ == (PublicContentView {
                temp_file_cache: old(self)@.temp_file_cache.remove(file_path@),
                ..old(self)@
            }),
    {
        self.temp_file_cache.remove(file_path);
        Ok(CancelUploadResp {})
    }

    /// Forgets the record of the token `token_id`.
    pub fn remove_burned_record(&mut self, token_id: &u128)
        ensures
            final(self)@ == (PublicContentView {
                nft_public: old(self)@.nft_public.remove(*token_id),
                ..old(self)@
            }),
    {
        self.nft_public.remove(token_id);
    }

    /// The minted entry that a chunk (or a finalization) for the stored file
    /// `p` goes to: for each token that uses `p`, the first of its entries
    /// with that storage path, if that entry is in a target state.
    #[verifier::loop_isolation(false)]
    fn find_target(&self, p: &String, for_finalize: bool) -> (r: Option<(u128, String)>)
        ensures
            match r {
                Some((t, name)) => linked_at(self@, p@, t, name@) && is_target_state(
                    self@.nft_public[t].entries[name@].state,
                    for_finalize,
                ),
                None => !(has_linked_entry(self@, p@) && all_linked_targets(
                    self@,
                    p@,
                    for_finalize,
                )),
            },
    {
        let nfts = match self.file_to_nfts.get(p) {
            Some(nfts) => nfts,
            None => {
                return None;
            },
        };
        let n = nfts.len();
        let mut i: usize = 0;
        let ghost mut saw_other = false;
        while i < n
            invariant
                n == nfts.spec_len(),
                nfts.inv(),
                i <= n,
                saw_other ==> !all_linked_targets(self@, p@, for_finalize),
                !saw_other ==> forall|j: int, name: Seq<char>|
                    0 <= j < i ==> !#[trigger] linked_at(self@, p@, nfts.spec_at(j), name),
            decreases n - i,
        {
            let tid = nfts.at(i);
            proof {
                nfts.lemma_positions();
            }
            match self.nft_public.get(tid) {
                Some(record) => {
                    let m = record.entries.len();
                    let mut j: usize = 0;
                    let mut hit: Option<usize> = None;
                    while j < m
                        invariant
                            m == record.entries.spec_len(),
                            record.entries.inv(),
                            j <= m,
                            hit is None,
                            forall|k: int|
                                0 <= k < j ==> (#[trigger] record.entries.spec_value_at(
                                    k,
                                )).storage_path != p@,
                        decreases m - j,
                    {
                        if record.entries.value_at(j).storage_path.key_eq(p) {
                            hit = Some(j);
                            break;
                        }
                        j += 1;
                    }
                    proof {
                        record.entries.lemma_positions();
                    }
                    match hit {
                        Some(k) => {
                            let e = record.entries.value_at(k);
                            let ghost name = record.entries.spec_key_at(k as int);
                            proof {
                                assert(self@.file_to_nfts.contains_key(p@));
                                assert(self@.file_to_nfts[p@].contains(tid@));
                                assert(self@.nft_public.contains_key(tid@));
                                assert(self@.nft_public[tid@].entries.contains_key(name));
                                assert(self@.nft_public[tid@].entries[name].storage_path == p@);
                                assert(linked_at(self@, p@, tid@, name));
                            }
                            let good = if for_finalize {
                                e.state == UploadState::InProgress || e.state == UploadState::Init
                            } else {
                                e.state == UploadState::ReuploadInit || e.state
                                    == UploadState::InProgress
                            };
                            if good {
                                let name_copy = record.entries.key_at(k).key_copy();
                                return Some((*tid, name_copy));
                            }
                            proof {
                                saw_other = true;
                            }
                        },
                        None => {
                            proof {
                                assert forall|name: Seq<char>| !#[trigger] linked_at(
                                    self@,
                                    p@,
                                    nfts.spec_at(i as int),
                                    name,
                                ) by {
                                    if record@.entries.contains_key(name) {
                                        let k = record.entries.spec_index_of(name);
                                        assert(record.entries.spec_value_at(k).storage_path != p@);
                                    }
                                }
                            }
                        },
                    }
                },
                None => {},
            }
            i += 1;
        }
        proof {
            nfts.lemma_positions();
            if !saw_other {
                assert forall|t: u128, name: Seq<char>| !#[trigger] linked_at(self@, p@, t, name) by {
                    if nfts@.contains(t) {
                        let j = nfts.spec_index_of(t);
                        assert(!linked_at(self@, p@, nfts.spec_at(j), name));
                    }
                }
            }
        }
        None
    }

    /// Records the chunk `data` at `chunk_index` of the upload of `file_path`:
    /// the cached upload at that path, or else an entry of a minted token that
    /// stores its file there and is being re-uploaded.
    pub fn upload_chunk_register(
        &mut self,
        file_path: &String,
        chunk_index: u128,
        data: Vec<u8>,
    ) -> (r: Result<(), StoreChunkError>)
        ensures
            old(self)@.temp_file_cache.contains_key(file_path@) ==> ({
                let e = old(self)@.temp_file_cache[file_path@];
                let c = chunk_check(e, chunk_index, data@.len());
                &&& chunk_answer(c, r)
                &&& final(self)@ == if c is Accept {
                    with_cache_entry(old(self)@, file_path@, chunk_stored(e, chunk_index, data@))
                } else {
                    old(self)@
                }
            }),
            !old(self)@.temp_file_cache.contains_key(file_path@) ==> ({
                ||| {
                    &&& r matches Err(StoreChunkError::InvalidFilePath)
                    &&& final(self)@ == old(self)@
                    &&& !(has_linked_entry(old(self)@, file_path@) && all_linked_targets(
                        old(self)@,
                        file_path@,
                        false,
                    ))
                }
                ||| exists|t: u128, name: Seq<char>|
                    {
                        let e = old(self)@.nft_public[t].entries[name];
                        let c = chunk_check(e, chunk_index, data@.len());
                        &&& #[trigger] linked_at(old(self)@, file_path@, t, name)
                        &&& is_target_state(e.state, false)
                        &&& chunk_answer(c, r)
                        &&& final(self)@ == if c is Accept {
                            with_nft_entry(old(self)@, t, name, chunk_stored(e, chunk_index, data@))
                        } else {
                            old(self)@
                        }
                    }
            }),
    {
        if self.temp_file_cache.contains_key(file_path) {
            let mut entry = self.temp_file_cache.remove(file_path).unwrap();
            let r = store_chunk_in_entry(&mut entry, chunk_index, data);
            self.temp_file_cache.insert(file_path.clone(), entry);
            proof {
                if !(chunk_check(old(self)@.temp_file_cache[file_path@], chunk_index, data@.len()) is Accept) {
                    assert(self@.temp_file_cache =~= old(self)@.temp_file_cache);
                } else {
                    assert(self@.temp_file_cache =~= old(self)@.temp_file_cache.insert(file_path@, entry@));
                }
            }
            return r;
        }
        match self.find_target(file_path, false) {
            None => Err(StoreChunkError::InvalidFilePath),
            Some((t, name)) => {
                let mut record = self.nft_public.remove(&t).unwrap();
                let mut entry = record.entries.remove(&name).unwrap();
                let r = store_chunk_in_entry(&mut entry, chunk_index, data);
                record.entries.insert(name, entry);
                self.nft_public.insert(t, record);
                proof {
                    let e = old(self)@.nft_public[t].entries[name@];
                    if !(chunk_check(e, chunk_index, data@.len()) is Accept) {
                        assert(record@.entries =~= old(self)@.nft_public[t].entries);
                        assert(self@.nft_public =~= old(self)@.nft_public);
                    } else {
                        assert(record@.entries =~= old(self)@.nft_public[t].entries.insert(name@, entry@));
                        assert(self@.nft_public =~= old(self)@.nft_public.insert(t, record@));
                        assert(self@ == with_nft_entry(old(self)@, t, name@, chunk_stored(e, chunk_index, data@)));
                    }
                    assert(linked_at(old(self)@, file_path@, t, name@));
                }
                r
            },
        }
    }

    /// Finalizes the upload of `file_path`: the cached upload at that path,
    /// or else an entry of a minted token that stores its file there and is
    /// being uploaded.
    pub fn finalize_upload_register(&mut self, file_path: &String) -> (r: Result<
        (),
        FinalizeUploadError,
    >)
        ensures
            finalize_register_outcome(old(self)@, file_path@, final(self)@, r),
            old(self)@.temp_file_cache.contains_key(file_path@) ==> ({
                let e = old(self)@.temp_file_cache[file_path@];
                let c = finalize_check(e);
                &&& finalize_answer(c, r)
                &&& final(self)@ == if c is Accept {
                    with_cache_entry(old(self)@, file_path@, finalized(e))
                } else {
                    old(self)@
                }
            }),
            !old(self)@.temp_file_cache.contains_key(file_path@) ==> ({
                ||| {
                    &&& r matches Err(FinalizeUploadError::UploadNotStarted)
                    &&& final(self)@ == old(self)@
                    &&& !(has_linked_entry(old(self)@, file_path@) && all_linked_targets(
                        old(self)@,
                        file_path@,
                        true,
                    ))
                }
                ||| exists|t: u128, name: Seq<char>|
                    {
                        let e = old(self)@.nft_public[t].entries[name];
                        let c = finalize_check(e);
                        &&& #[trigger] linked_at(old(self)@, file_path@, t, name)
                        &&& is_target_state(e.state, true)
                        &&& finalize_answer(c, r)
                        &&& final(self)@ == if c is Accept {
                            with_nft_entry(old(self)@, t, name, finalized(e))
                        } else {
                            old(self)@
                        }
                    }
            }),
    {
        if self.temp_file_cache.contains_key(file_path) {
            let mut entry = self.temp_file_cache.remove(file_path).unwrap();
            let r = finalize_entry(&mut entry);
            self.temp_file_cache.insert(file_path.clone(), entry);
            proof {
                if !(finalize_check(old(self)@.temp_file_cache[file_path@]) is Accept) {
                    assert(self@.temp_file_cache =~= old(self)@.temp_file_cache);
                } else {
                    assert(self@.temp_file_cache =~= old(self)@.temp_file_cache.insert(file_path@, entry@));
                }
            }
            return r;
        }
        match self.find_target(file_path, true) {
            None => Err(FinalizeUploadError::UploadNotStarted),
            Some((t, name)) => {
                let mut record = self.nft_public.remove(&t).unwrap();
                let mut entry = record.entries.remove(&name).unwrap();
                let r = finalize_entry(&mut entry);
                record.entries.insert(name, entry);
                self.nft_public.insert(t, record);
                proof {
                    let e = old(self)@.nft_public[t].entries[name@];
                    if !(finalize_check(e) is Accept) {
                        assert(record@.entries =~= old(self)@.nft_public[t].entries);
                        assert(self@.nft_public =~= old(self)@.nft_public);
                    } else {
                        assert(record@.entries =~= old(self)@.nft_public[t].entries.insert(name@, entry@));
                        assert(self@.nft_public =~= old(self)@.nft_public.insert(t, record@));
                        assert(self@ == with_nft_entry(old(self)@, t, name@, finalized(e)));
                    }
                    assert(linked_at(old(self)@, file_path@, t, name@));
                }
                r
            },
        }
    }

    /// Marks the token `token_id` burned at `timestamp` and takes it out of the
    /// file indexes; answers the files that no token uses any more, each once.
    #[verifier::loop_isolation(false)]
    pub fn burn_public_content(&mut self, token_id: &u128, timestamp: u64) -> (files_to_delete: Vec<
        String,
    >)
        ensures
            final(self)@ == spec_burned(old(self)@, *token_id, timestamp),
            files_to_delete@.map_values(|f: String| f@).no_duplicates(),
            files_to_delete@.map_values(|f: String| f@).to_set() == orphaned_files(
                old(self)@.file_to_nfts,
                files_of(old(self)@, *token_id),
                *token_id,
            ),
    {
        let mut files_to_delete: Vec<String> = Vec::new();
        let t = *token_id;
        match self.nft_public.remove(&t) {
            Some(mut record) => {
                record.burned_at_ns = Some(timestamp);
                self.nft_public.insert(t, record);
                assert(self@.nft_public =~= old(self)@.nft_public.insert(
                    t,
                    NftPublicRecordView { burned_at_ns: Some(timestamp), ..old(self)@.nft_public[t] },
                ));
            },
            None => {
                assert(self@.nft_public =~= old(self)@.nft_public);
            },
        }
        let ghost f2n0 = old(self)@.file_to_nfts;
        let ghost all_files = files_of(old(self)@, t);
        match self.nft_to_files.remove(&t) {
            Some(files) => {
                let n = files.len();
                let mut i: usize = 0;
                while i < n
                    invariant
                        n == files.spec_len(),
                        files.inv(),
                        files@ == all_files,
                        i <= n,
                        self@.file_to_nfts == index_without_token(
                            f2n0,
                            Set::new(|f: Seq<char>| exists|j: int| 0 <= j < i && files.spec_at(j) == f),
                            t,
                        ),
                        files_to_delete@.map_values(|f: String| f@).no_duplicates(),
                        files_to_delete@.map_values(|f: String| f@).to_set() == orphaned_files(
                            f2n0,
                            Set::new(|f: Seq<char>| exists|j: int| 0 <= j < i && files.spec_at(j) == f),
                            t,
                        ),
                        self@.nft_public == spec_burned(old(self)@, t, timestamp).nft_public,
                        self@.nft_to_files == old(self)@.nft_to_files.remove(t),
                        self@.temp_file_cache == old(self)@.temp_file_cache,
                        self@.all_files_index == old(self)@.all_files_index,
                    decreases n - i,
                {
                    proof {
                        files.lemma_positions();
                    }
                    let file_id = files.at(i);
                    let ghost f = file_id@;
                    let ghost done = Set::new(|g: Seq<char>| exists|j: int| 0 <= j < i && files.spec_at(j) == g);
                    let ghost next = Set::new(|g: Seq<char>| exists|j: int| 0 <= j < i + 1 && files.spec_at(j) == g);
                    proof {
                        assert(!done.contains(f)) by {
                            if done.contains(f) {
                                let j = choose|j: int| 0 <= j < i && files.spec_at(j) == f;
                                assert(files.spec_at(j) == files.spec_at(i as int));
                            }
                        }
                        assert(next =~= done.insert(f));
                    }
                    let ghost before_f2n = self@.file_to_nfts;
                    let ghost before_out = files_to_delete@.map_values(|g: String| g@);
                    match self.file_to_nfts.remove(file_id) {
                        Some(mut set) => {
                            set.remove(&t);
                            if set.is_empty() {
                                files_to_delete.push(file_id.clone());
                                proof {
                                    let out = files_to_delete@.map_values(|g: String| g@);
                                    assert(out =~= before_out.push(f));
                                    assert(!before_out.contains(f)) by {
                                        if before_out.contains(f) {
                                            let k = choose|k: int| 0 <= k < before_out.len() && before_out[k] == f;
                                            assert(before_out.to_set().contains(f));
                                        }
                                    }
                                    assert(before_f2n.contains_key(f));
                                    assert(f2n0.contains_key(f) && before_f2n[f] == f2n0[f]);
                                    assert(f2n0[f].remove(t) =~= Set::<u128>::empty());
                                    assert(orphaned_files(f2n0, next, t) =~= orphaned_files(f2n0, done, t).insert(f));
                                    before_out.lemma_push_to_set_commute(f);
                                    assert(out.to_set() =~= before_out.to_set().insert(f));
                                    assert(out.to_set() =~= orphaned_files(f2n0, next, t));
                                    assert(self@.file_to_nfts =~= index_without_token(f2n0, next, t));
                                }
                            } else {
                                self.file_to_nfts.insert(file_id.clone(), set);
                                proof {
                                    assert(self@.file_to_nfts =~= index_without_token(f2n0, next, t));
                                    assert(orphaned_files(f2n0, next, t) =~= orphaned_files(f2n0, done, t));
                                }
                            }
                        },
                        None => {
                            proof {
                                assert(self@.file_to_nfts =~= index_without_token(f2n0, next, t));
                                assert(orphaned_files(f2n0, next, t) =~= orphaned_files(f2n0, done, t));
                            }
                        },
                    }
                    i += 1;
                }
                proof {
                    files.lemma_positions();
                    let done = Set::new(|f: Seq<char>| exists|j: int| 0 <= j < n && files.spec_at(j) == f);
                    assert(done =~= all_files) by {
                        assert forall|f: Seq<char>| all_files.contains(f) implies done.contains(f) by {
                            let j = files.spec_index_of(f);
                            assert(files.spec_at(j) == f);
                        }
                    }
                }
            },
            None => {
                proof {
                    assert(all_files =~= Set::<Seq<char>>::empty());
                    assert(self@.file_to_nfts =~= index_without_token(f2n0, all_files, t));
                    assert(files_to_delete@.map_values(|f: String| f@).to_set() =~= orphaned_files(
                        f2n0,
                        all_files,
                        t,
                    ));
                }
            },
        }
        files_to_delete
    }
}

} // verus!
