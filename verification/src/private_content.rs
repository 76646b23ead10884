//! Private content: encrypted files uploaded in chunks into a pre-mint cache
//! keyed by the plaintext hash, moved onto a token at mint, and re-encrypted
//! when its readers change.

use vstd::prelude::*;
use crate::access::{
    construct_canonical_identity, is_canonical_identity, readers_equal, ReaderInfo,
    ReaderInfoView, Readers,
};
use crate::display::{nat_text, nat_to_text};
use crate::keyed::{DeepCopy, KeyedMap, MapKey, total_len};
use crate::principal::{bytes_equal, PrincipalId};
use crate::text::{chars_of, push_all, string_from_chars};

verus! {

broadcast use vstd::string::group_string_axioms;

/// The largest private file, in bytes.
pub const MAX_PRIVATE_CONTENT_SIZE: u64 = 100 * 1024 * 1024;

/// The most readers an entry can have besides its owner.
pub const MAX_READERS_PER_ENTRY: usize = 100;

/// The largest chunk, in bytes, that a private upload accepts.
pub const CHUNK_SIZE: usize = 1024 * 1024;

/// The SHA-256 hash of a plaintext.
pub type Sha256Hash = [u8; 32];

/// Where private content stands.
#[derive(Clone, Copy, Debug, PartialEq, Eq, Structural)]
pub enum PrivateContentStatus {
    PendingUpload,
    PendingMinting,
    Active,
    PendingReencryption,
}

/// How private content is encrypted.
#[derive(Clone, Copy, Debug, PartialEq, Eq, Structural)]
pub enum EncryptionMode {
    AES256,
}

/// Why an operation on private content failed.
#[derive(Debug)]
pub enum PrivateContentError {
    AlreadyExists,
    InvalidStateTransition,
    NotEnabled,
    NotFound,
    Unauthorized,
    InvalidStatus,
    TooManyReaders,
    ContentTooLarge,
    InvalidChunk,
    StorageError(String),
    VetkdNotConfigured,
    VetkdError(String),
}

/// A chunked upload of private content that has not been finalized yet.
pub struct PendingUpload {
    pub expected_chunks: usize,
    pub received_chunks: KeyedMap<usize, Vec<u8>>,
    pub chunk_size: usize,
    pub timestamp_ns: u64,
}

pub struct PendingUploadView {
    pub expected_chunks: usize,
    pub received_chunks: Map<usize, Seq<u8>>,
    pub chunk_size: usize,
    pub timestamp_ns: u64,
}

impl View for PendingUpload {
    type V = PendingUploadView;

    open spec fn view(&self) -> PendingUploadView {
        PendingUploadView {
            expected_chunks: self.expected_chunks,
            received_chunks: self.received_chunks@,
            chunk_size: self.chunk_size,
            timestamp_ns: self.timestamp_ns,
        }
    }
}

impl DeepCopy for PendingUpload {
    fn deep_copy(&self) -> (c: Self) {
        PendingUpload {
            expected_chunks: self.expected_chunks,
            received_chunks: self.received_chunks.deep_copy(),
            chunk_size: self.chunk_size,
            timestamp_ns: self.timestamp_ns,
        }
    }
}

/// A private file: who may read it, what identity it is encrypted for, and
/// where it is stored.
pub struct PrivateEntry {
    pub status: PrivateContentStatus,
    pub readers: Readers,
    pub hash: Sha256Hash,
    pub salt: Vec<u8>,
    pub plaintext_size: u64,
    pub file_size: u64,
    pub encryption_mode: EncryptionMode,
    pub canonical_identity: Vec<u8>,
    pub previous_canonical_identity: Option<Vec<u8>>,
    pub storage_canister_id: PrincipalId,
    pub storage_path: String,
    pub pending_upload: Option<PendingUpload>,
    pub format_version: u8,
}

pub struct PrivateEntryView {
    pub status: PrivateContentStatus,
    pub readers: Map<Seq<u8>, ReaderInfoView>,
    pub hash: Seq<u8>,
    pub salt: Seq<u8>,
    pub plaintext_size: u64,
    pub file_size: u64,
    pub encryption_mode: EncryptionMode,
    pub canonical_identity: Seq<u8>,
    pub previous_canonical_identity: Option<Seq<u8>>,
    pub storage_canister_id: Seq<u8>,
    pub storage_path: Seq<char>,
    pub pending_upload: Option<PendingUploadView>,
    pub format_version: u8,
}

impl View for PrivateEntry {
    type V = PrivateEntryView;

    open spec fn view(&self) -> PrivateEntryView {
        PrivateEntryView {
            status: self.status,
            readers: self.readers@,
            hash: self.hash@,
            salt: self.salt@,
            plaintext_size: self.plaintext_size,
            file_size: self.file_size,
            encryption_mode: self.encryption_mode,
            canonical_identity: self.canonical_identity@,
            previous_canonical_identity: match self.previous_canonical_identity {
                Some(p) => Some(p@),
                None => None,
            },
            storage_canister_id: self.storage_canister_id@,
            storage_path: self.storage_path@,
            pending_upload: match self.pending_upload {
                Some(p) => Some(p@),
                None => None,
            },
            format_version: self.format_version,
        }
    }
}

impl DeepCopy for PrivateEntry {
    fn deep_copy(&self) -> (c: Self) {
        let previous_canonical_identity = match &self.previous_canonical_identity {
            Some(p) => Some(p.deep_copy()),
            None => None,
        };
        let pending_upload = match &self.pending_upload {
            Some(p) => Some(p.deep_copy()),
            None => None,
        };
        PrivateEntry {
            status: self.status,
            readers: self.readers.deep_copy(),
            hash: self.hash,
            salt: self.salt.deep_copy(),
            plaintext_size: self.plaintext_size,
            file_size: self.file_size,
            encryption_mode: self.encryption_mode,
            canonical_identity: self.canonical_identity.deep_copy(),
            previous_canonical_identity,
            storage_canister_id: self.storage_canister_id.deep_copy(),
            storage_path: self.storage_path.clone(),
            pending_upload,
            format_version: self.format_version,
        }
    }
}

/// The private content of one minted token.
pub struct NftPrivateRecord {
    pub default_readers: Readers,
    pub entries: KeyedMap<String, PrivateEntry>,
}

pub struct NftPrivateRecordView {
    pub default_readers: Map<Seq<u8>, ReaderInfoView>,
    pub entries: Map<Seq<char>, PrivateEntryView>,
}

impl View for NftPrivateRecord {
    type V = NftPrivateRecordView;

    open spec fn view(&self) -> NftPrivateRecordView {
        NftPrivateRecordView { default_readers: self.default_readers@, entries: self.entries@ }
    }
}

impl DeepCopy for NftPrivateRecord {
    fn deep_copy(&self) -> (c: Self) {
        NftPrivateRecord { default_readers: self.default_readers.deep_copy(), entries: self.entries.deep_copy() }
    }
}

impl DeepCopy for PrivateContentSystem {
    fn deep_copy(&self) -> (c: Self) {
        PrivateContentSystem {
            nft_private: self.nft_private.deep_copy(),
            premint_cache: self.premint_cache.deep_copy(),
            config: PrivateContentConfig {
                vetkd_key_name: self.config.vetkd_key_name.clone(),
                vetkd_context: self.config.vetkd_context.clone(),
            },
        }
    }
}

impl NftPrivateRecord {
    /// A record with no default readers and no entries.
    pub fn new() -> (r: Self)
        ensures
            r@.default_readers == Map::<Seq<u8>, ReaderInfoView>::empty(),
            r@.entries == Map::<Seq<char>, PrivateEntryView>::empty(),
    {
        NftPrivateRecord { default_readers: KeyedMap::new(), entries: KeyedMap::new() }
    }
}

/// The vetKD key name and derivation context of the collection.
pub struct PrivateContentConfig {
    pub vetkd_key_name: String,
    pub vetkd_context: String,
}

impl PrivateContentConfig {
    /// Takes the key name and the derivation context an upgrade gives, each
    /// when it is given.
    pub fn apply_upgrade(&mut self, vetkd_key_name: Option<String>, vetkd_context: Option<String>)
        ensures
            final(self).vetkd_key_name@ == match vetkd_key_name {
                Some(k) => k@,
                None => old(self).vetkd_key_name@,
            },
            final(self).vetkd_context@ == match vetkd_context {
                Some(c) => c@,
                None => old(self).vetkd_context@,
            },
    {
        if let Some(k) = vetkd_key_name {
            self.vetkd_key_name = k;
        }
        if let Some(c) = vetkd_context {
            self.vetkd_context = c;
        }
    }
}

/// The private content of the collection: the pre-mint cache by plaintext
/// hash, and the records of minted tokens.
pub struct PrivateContentSystem {
    pub nft_private: KeyedMap<u128, NftPrivateRecord>,
    pub premint_cache: KeyedMap<Sha256Hash, PrivateEntry>,
    pub config: PrivateContentConfig,
}

pub struct PrivateContentView {
    pub nft_private: Map<u128, NftPrivateRecordView>,
    pub premint_cache: Map<Seq<u8>, PrivateEntryView>,
    pub vetkd_key_name: Seq<char>,
    pub vetkd_context: Seq<char>,
}

impl View for PrivateContentSystem {
    type V = PrivateContentView;

    open spec fn view(&self) -> PrivateContentView {
        PrivateContentView {
            nft_private: self.nft_private@,
            premint_cache: self.premint_cache@,
            vetkd_key_name: self.config.vetkd_key_name@,
            vetkd_context: self.config.vetkd_context@,
        }
    }
}

/// The message of a lookup that found no token.
pub open spec fn private_nft_not_found_message(token_id: u128) -> Seq<char> {
    "NFT "@ + nat_text(token_id) + " not found"@
}

/// The message of a lookup that found the token but not the entry.
pub open spec fn private_entry_not_found_message(entry_name: Seq<char>, token_id: u128) -> Seq<char> {
    "Private entry '"@ + entry_name + "' not found for NFT "@ + nat_text(token_id)
}

/// Why a chunk cannot be stored into `e`, which must be in `required` status,
/// at `index` with `len` bytes; `None` when it can.
pub open spec fn chunk_refusal(
    e: PrivateEntryView,
    required: PrivateContentStatus,
    index: usize,
    len: nat,
) -> Option<PrivateContentError> {
    if e.status != required {
        Some(PrivateContentError::InvalidStateTransition)
    } else {
        match e.pending_upload {
            None => Some(PrivateContentError::InvalidStateTransition),
            Some(pu) => if index >= pu.expected_chunks {
                Some(PrivateContentError::InvalidChunk)
            } else if len > CHUNK_SIZE {
                Some(PrivateContentError::ContentTooLarge)
            } else {
                None
            },
        }
    }
}

/// `e` once the chunk `data` is stored at `index`.
pub open spec fn with_chunk(e: PrivateEntryView, index: usize, data: Seq<u8>) -> PrivateEntryView {
    let pu = e.pending_upload.unwrap();
    PrivateEntryView {
        pending_upload: Some(
            PendingUploadView { received_chunks: pu.received_chunks.insert(index, data), ..pu },
        ),
        ..e
    }
}

/// Why the upload of `e`, which must be in `required` status, cannot be
/// finalized; `None` when it can.
pub open spec fn finalize_refusal(e: PrivateEntryView, required: PrivateContentStatus) -> Option<
    PrivateContentError,
> {
    if e.status != required {
        Some(PrivateContentError::InvalidStateTransition)
    } else {
        match e.pending_upload {
            None => Some(PrivateContentError::InvalidStateTransition),
            Some(pu) => if pu.received_chunks.len() != pu.expected_chunks {
                Some(PrivateContentError::InvalidChunk)
            } else if total_len(pu.received_chunks) != e.file_size {
                Some(PrivateContentError::ContentTooLarge)
            } else {
                None
            },
        }
    }
}

/// `e` once its upload is finalized into `status`.
pub open spec fn finalized_into(e: PrivateEntryView, status: PrivateContentStatus) -> PrivateEntryView {
    PrivateEntryView { status, pending_upload: None, ..e }
}

/// `v` with the entry `name` of the token `t` replaced by `e`.
pub open spec fn with_private_entry(
    v: PrivateContentView,
    t: u128,
    name: Seq<char>,
    e: PrivateEntryView,
) -> PrivateContentView {
    PrivateContentView {
        nft_private: v.nft_private.insert(
            t,
            NftPrivateRecordView { entries: v.nft_private[t].entries.insert(name, e), ..v.nft_private[t] },
        ),
        ..v
    }
}

/// `v` with the cached entry of `hash` replaced by `e`.
pub open spec fn with_cached_private(v: PrivateContentView, hash: Seq<u8>, e: PrivateEntryView) -> PrivateContentView {
    PrivateContentView { premint_cache: v.premint_cache.insert(hash, e), ..v }
}

/// The token `t` has an entry `name`.
pub open spec fn has_private_entry(v: PrivateContentView, t: u128, name: Seq<char>) -> bool {
    v.nft_private.contains_key(t) && v.nft_private[t].entries.contains_key(name)
}

/// An error without a message, as the error value it stands for.
pub open spec fn same_error(r: Result<(), PrivateContentError>, err: PrivateContentError) -> bool {
    match err {
        PrivateContentError::AlreadyExists => r matches Err(PrivateContentError::AlreadyExists),
        PrivateContentError::InvalidStateTransition => r matches Err(PrivateContentError::InvalidStateTransition),
        PrivateContentError::NotFound => r matches Err(PrivateContentError::NotFound),
        PrivateContentError::InvalidChunk => r matches Err(PrivateContentError::InvalidChunk),
        PrivateContentError::ContentTooLarge => r matches Err(PrivateContentError::ContentTooLarge),
        _ => false,
    }
}

/// A cached private upload as it starts: nothing received yet.
pub open spec fn spec_premint_entry(
    hash: Seq<u8>,
    salt: Seq<u8>,
    readers: Map<Seq<u8>, ReaderInfoView>,
    storage_canister_id: Seq<u8>,
    storage_path: Seq<char>,
    encryption_mode: EncryptionMode,
    plaintext_size: u64,
    expected_chunks: usize,
    file_size: u64,
    canonical_identity: Seq<u8>,
    timestamp: u64,
) -> PrivateEntryView {
    PrivateEntryView {
        status: PrivateContentStatus::PendingUpload,
        readers,
        hash,
        salt,
        plaintext_size,
        file_size,
        encryption_mode,
        canonical_identity,
        previous_canonical_identity: None,
        storage_canister_id,
        storage_path,
        pending_upload: Some(
            PendingUploadView {
                expected_chunks,
                received_chunks: Map::empty(),
                chunk_size: CHUNK_SIZE,
                timestamp_ns: timestamp,
            },
        ),
        format_version: 1,
    }
}

/// Stores the chunk `data` at `index` into `e`, if `e` is in `required` status
/// and accepts it.
fn store_private_chunk(
    e: &mut PrivateEntry,
    required: PrivateContentStatus,
    index: usize,
    data: Vec<u8>,
) -> (r: Result<(), PrivateContentError>)
    ensures
        match chunk_refusal(old(e)@, required, index, data@.len()) {
            Some(err) => same_error(r, err) && final(e)@ == old(e)@,
            None => r is Ok && final(e)@ == with_chunk(old(e)@, index, data@),
        },
{
    if e.status != required {
        return Err(PrivateContentError::InvalidStateTransition);
    }
    match &mut e.pending_upload {
        None => Err(PrivateContentError::InvalidStateTransition),
        Some(pending) => {
            if index >= pending.expected_chunks {
                return Err(PrivateContentError::InvalidChunk);
            }
            if data.len() > CHUNK_SIZE {
                return Err(PrivateContentError::ContentTooLarge);
            }
            pending.received_chunks.insert(index, data);
            Ok(())
        },
    }
}

/// Finalizes the upload of `e` into `status`, if `e` is in `required` status
/// and all its chunks came and add up to its size.
fn finalize_private(
    e: &mut PrivateEntry,
    required: PrivateContentStatus,
    status: PrivateContentStatus,
) -> (r: Result<(), PrivateContentError>)
    ensures
        match finalize_refusal(old(e)@, required) {
            Some(err) => same_error(r, err) && final(e)@ == old(e)@,
            None => r is Ok && final(e)@ == finalized_into(old(e)@, status),
        },
{
    if e.status != required {
        return Err(PrivateContentError::InvalidStateTransition);
    }
    match &e.pending_upload {
        None => {
            return Err(PrivateContentError::InvalidStateTransition);
        },
        Some(pending) => {
            if pending.received_chunks.len() != pending.expected_chunks {
                return Err(PrivateContentError::InvalidChunk);
            }
            let actual_size = pending.received_chunks.total_len();
            if actual_size != e.file_size as u128 {
                return Err(PrivateContentError::ContentTooLarge);
            }
        },
    }
    e.status = status;
    e.pending_upload = None;
    Ok(())
}

impl PrivateContentSystem {
    /// The entry `entry_name` of the minted token `token_id`.
    pub fn get_nft_private_entry(&self, token_id: u128, entry_name: &str) -> (r: Result<
        PrivateEntry,
        String,
    >)
        ensures
            match r {
                Ok(e) => has_private_entry(self@, token_id, entry_name@) && e@
                    == self@.nft_private[token_id].entries[entry_name@],
                Err(msg) => if !self@.nft_private.contains_key(token_id) {
                    msg@ == private_nft_not_found_message(token_id)
                } else {
                    !self@.nft_private[token_id].entries.contains_key(entry_name@) && msg@
                        == private_entry_not_found_message(entry_name@, token_id)
                },
            },
    {
        match self.nft_private.get(&token_id) {
            None => {
                let mut m = chars_of("NFT ");
                let n = chars_of(nat_to_text(token_id).as_str());
                push_all(&mut m, &n);
                let tail = chars_of(" not found");
                push_all(&mut m, &tail);
                Err(string_from_chars(&m))
            },
            Some(record) => {
                let key = entry_name.to_owned();
                match record.entries.get(&key) {
                    Some(e) => Ok(e.deep_copy()),
                    None => {
                        let mut m = chars_of("Private entry '");
                        let name = chars_of(entry_name);
                        push_all(&mut m, &name);
                        let mid = chars_of("' not found for NFT ");
                        push_all(&mut m, &mid);
                        let n = chars_of(nat_to_text(token_id).as_str());
                        push_all(&mut m, &n);
                        Err(string_from_chars(&m))
                    },
                }
            },
        }
    }

    /// Whether an upload of `file_size` encrypted bytes for the plaintext
    /// `hash` may start.
    pub fn init_premint_validate(
        &self,
        hash: &Sha256Hash,
        encryption_mode: EncryptionMode,
        file_size: u64,
    ) -> (r: Result<(), PrivateContentError>)
        ensures
            self@.premint_cache.contains_key(hash@) ==> r matches Err(
                PrivateContentError::AlreadyExists,
            ),
            !self@.premint_cache.contains_key(hash@) && file_size > MAX_PRIVATE_CONTENT_SIZE
                ==> r matches Err(PrivateContentError::ContentTooLarge),
            !self@.premint_cache.contains_key(hash@) && file_size <= MAX_PRIVATE_CONTENT_SIZE
                && file_size % 16 != 0 ==> (r matches Err(PrivateContentError::StorageError(m))
                && m@ == "Encrypted content size must be divisible by 16 bytes (AES block size)"@),
            !self@.premint_cache.contains_key(hash@) && file_size <= MAX_PRIVATE_CONTENT_SIZE
                && file_size % 16 == 0 ==> r is Ok,
    {
        if self.premint_cache.contains_key(hash) {
            return Err(PrivateContentError::AlreadyExists);
        }
        if file_size > MAX_PRIVATE_CONTENT_SIZE {
            return Err(PrivateContentError::ContentTooLarge);
        }
        match encryption_mode {
            EncryptionMode::AES256 => {
                if file_size % 16 != 0 {
                    return Err(
                        PrivateContentError::StorageError(
                            "Encrypted content size must be divisible by 16 bytes (AES block size)".to_string(),
                        ),
                    );
                }
            },
        }
        Ok(())
    }

    /// Caches a new private upload for the plaintext `hash`, encrypted for
    /// the owner-to-be and the readers that `readers` and `default_readers`
    /// resolve to; `timestamp` is the time of the call.
    pub fn init_premint_store(
        &mut self,
        hash: Sha256Hash,
        salt: Vec<u8>,
        owner_to_be: PrincipalId,
        readers: Readers,
        storage_canister_id: PrincipalId,
        storage_path: String,
        encryption_mode: EncryptionMode,
        plaintext_size: u64,
        expected_chunks: usize,
        file_size: u64,
        default_readers: &Readers,
        timestamp: u64,
    ) -> (r: Result<(), PrivateContentError>)
        ensures
            old(self)@.premint_cache.contains_key(hash@) ==> (r matches Err(
                PrivateContentError::AlreadyExists,
            )) && final(self)@ == old(self)@,
            !old(self)@.premint_cache.contains_key(hash@) ==> r is Ok && exists|id: Seq<u8>|
                #[trigger] is_canonical_identity(
                    owner_to_be@,
                    default_readers@.union_prefer_right(readers@).dom(),
                    id,
                ) && final(self)@ == with_cached_private(
                    old(self)@,
                    hash@,
                    spec_premint_entry(
                        hash@,
                        salt@,
                        readers@,
                        storage_canister_id@,
                        storage_path@,
                        encryption_mode,
                        plaintext_size,
                        expected_chunks,
                        file_size,
                        id,
                        timestamp,
                    ),
                ),
    {
        if self.premint_cache.contains_key(&hash) {
            return Err(PrivateContentError::AlreadyExists);
        }
        let canonical_identity = construct_canonical_identity(owner_to_be, &readers, default_readers);
        let entry = PrivateEntry {
            status: PrivateContentStatus::PendingUpload,
            readers,
            hash,
            salt,
            plaintext_size,
            file_size,
            encryption_mode,
            canonical_identity,
            previous_canonical_identity: None,
            storage_canister_id,
            storage_path,
            pending_upload: Some(
                PendingUpload {
                    expected_chunks,
                    received_chunks: KeyedMap::new(),
                    chunk_size: CHUNK_SIZE,
                    timestamp_ns: timestamp,
                },
            ),
            format_version: 1,
        };
        let ghost ev = entry@;
        self.premint_cache.insert(hash, entry);
        Ok(())
    }

    /// Stores the chunk `data` at `chunk_index` of the cached upload of the
    /// plaintext `plaintext_hash`.
    pub fn upload_chunk(&mut self, plaintext_hash: &Sha256Hash, chunk_index: usize, data: Vec<u8>) -> (r:
        Result<(), PrivateContentError>)
        ensures
            !old(self)@.premint_cache.contains_key(plaintext_hash@) ==> (r matches Err(
                PrivateContentError::NotFound,
            )) && final(self)@ == old(self)@,
            old(self)@.premint_cache.contains_key(plaintext_hash@) ==> ({
                let e = old(self)@.premint_cache[plaintext_hash@];
                match chunk_refusal(e, PrivateContentStatus::PendingUpload, chunk_index, data@.len()) {
                    Some(err) => same_error(r, err) && final(self)@ == old(self)@,
                    None => r is Ok && final(self)@ == with_cached_private(
                        old(self)@,
                        plaintext_hash@,
                        with_chunk(e, chunk_index, data@),
                    ),
                }
            }),
    {
        let mut entry = match self.premint_cache.remove(plaintext_hash) {
            Some(e) => e,
            None => {
                assert(self@.premint_cache =~= old(self)@.premint_cache);
                return Err(PrivateContentError::NotFound);
            },
        };
        let r = store_private_chunk(&mut entry, PrivateContentStatus::PendingUpload, chunk_index, data);
        self.premint_cache.insert(*plaintext_hash, entry);
        proof {
            assert(self@.premint_cache =~= old(self)@.premint_cache.insert(plaintext_hash@, entry@));
            if r is Err {
                assert(self@.premint_cache =~= old(self)@.premint_cache);
            }
        }
        r
    }

    /// Finalizes the cached upload of the plaintext `hash`: it then waits to be minted.
    pub fn finalize_upload(&mut self, hash: &Sha256Hash) -> (r: Result<(), PrivateContentError>)
        ensures
            !old(self)@.premint_cache.contains_key(hash@) ==> (r matches Err(
                PrivateContentError::NotFound,
            )) && final(self)@ == old(self)@,
            old(self)@.premint_cache.contains_key(hash@) ==> ({
                let e = old(self)@.premint_cache[hash@];
                match finalize_refusal(e, PrivateContentStatus::PendingUpload) {
                    Some(err) => same_error(r, err) && final(self)@ == old(self)@,
                    None => r is Ok && final(self)@ == with_cached_private(
                        old(self)@,
                        hash@,
                        finalized_into(e, PrivateContentStatus::PendingMinting),
                    ),
                }
            }),
    {
        let mut entry = match self.premint_cache.remove(hash) {
            Some(e) => e,
            None => {
                assert(self@.premint_cache =~= old(self)@.premint_cache);
                return Err(PrivateContentError::NotFound);
            },
        };
        let r = finalize_private(
            &mut entry,
            PrivateContentStatus::PendingUpload,
            PrivateContentStatus::PendingMinting,
        );
        self.premint_cache.insert(*hash, entry);
        proof {
            assert(self@.premint_cache =~= old(self)@.premint_cache.insert(hash@, entry@));
            if r is Err {
                assert(self@.premint_cache =~= old(self)@.premint_cache);
            }
        }
        r
    }

    /// Drops the cached upload of the plaintext `entry_hash`, if there is one.
    pub fn cancel_upload(&mut self, entry_hash: &Sha256Hash) -> (r: Result<(), PrivateContentError>)
        ensures
            r is Ok,
            final(self)@ == (PrivateContentView {
                premint_cache: old(self)@.premint_cache.remove(entry_hash@),
                ..old(self)@
            }),
    {
        self.premint_cache.remove(entry_hash);
        Ok(())
    }
}

/// One step of minting private content: the entry `name` takes the cached
/// upload of the plaintext `hash`, which leaves the cache; `owner` loses any
/// rights of its own on it and the entry becomes active.
pub open spec fn private_mint_step(
    v: PrivateContentView,
    rec: Map<Seq<char>, PrivateEntryView>,
    name: Seq<char>,
    hash: Seq<u8>,
    owner: Seq<u8>,
) -> (PrivateContentView, Map<Seq<char>, PrivateEntryView>, Option<PrivateContentError>) {
    if !v.premint_cache.contains_key(hash) {
        (v, rec, Some(PrivateContentError::NotFound))
    } else {
        let e = v.premint_cache[hash];
        let v1 = PrivateContentView { premint_cache: v.premint_cache.remove(hash), ..v };
        if e.status != PrivateContentStatus::PendingMinting && e.status != PrivateContentStatus::Active {
            (v1, rec, Some(PrivateContentError::InvalidStateTransition))
        } else {
            (
                v1,
                rec.insert(
                    name,
                    PrivateEntryView {
                        readers: e.readers.remove(owner),
                        status: PrivateContentStatus::Active,
                        ..e
                    },
                ),
                None,
            )
        }
    }
}

/// Minting the pairs (entry name, plaintext hash) of `es`, in that order;
/// the first failure stops it.
pub open spec fn private_mint_fold(
    v: PrivateContentView,
    es: Seq<(Seq<char>, Seq<u8>)>,
    owner: Seq<u8>,
) -> (PrivateContentView, Map<Seq<char>, PrivateEntryView>, Option<PrivateContentError>)
    decreases es.len(),
{
    if es.len() == 0 {
        (v, Map::empty(), None)
    } else {
        let prev = private_mint_fold(v, es.drop_last(), owner);
        if prev.2 is Some {
            prev
        } else {
            private_mint_step(prev.0, prev.1, es.last().0, es.last().1, owner)
        }
    }
}

/// `es` lists the pairs of `m`, each key once.
pub open spec fn lists_hash_pairs(es: Seq<(Seq<char>, Seq<u8>)>, m: Map<Seq<char>, Seq<u8>>) -> bool {
    &&& forall|i: int| 0 <= i < es.len() ==> m.contains_key(#[trigger] es[i].0) && m[es[i].0] == es[i].1
    &&& forall|k: Seq<char>| #[trigger] m.contains_key(k) ==> exists|i: int| 0 <= i < es.len() && es[i].0 == k
    &&& forall|i: int, j: int| 0 <= i < j < es.len() ==> #[trigger] es[i].0 != #[trigger] es[j].0
}

/// The system once minting `es` for the token `t` ended: on success the
/// token's new record holds the minted entries and the default readers
/// without the owner.
pub open spec fn private_minted_system(
    v: PrivateContentView,
    t: u128,
    defaults: Map<Seq<u8>, ReaderInfoView>,
    es: Seq<(Seq<char>, Seq<u8>)>,
    owner: Seq<u8>,
) -> PrivateContentView {
    let out = private_mint_fold(v, es, owner);
    if out.2 is None {
        PrivateContentView {
            nft_private: out.0.nft_private.insert(
                t,
                NftPrivateRecordView { default_readers: defaults.remove(owner), entries: out.1 },
            ),
            ..out.0
        }
    } else {
        out.0
    }
}

/// After a failure nothing more happens.
proof fn lemma_private_fold_stops(
    v: PrivateContentView,
    es: Seq<(Seq<char>, Seq<u8>)>,
    k: int,
    owner: Seq<u8>,
)
    requires
        0 <= k <= es.len(),
        private_mint_fold(v, es.take(k), owner).2 is Some,
    ensures
        private_mint_fold(v, es, owner) == private_mint_fold(v, es.take(k), owner),
    decreases es.len(),
{
    if es.len() == k {
        assert(es.take(k) =~= es);
    } else {
        assert(es.drop_last().take(k) =~= es.take(k));
        lemma_private_fold_stops(v, es.drop_last(), k, owner);
    }
}

impl PrivateContentSystem {
    /// Gives the new token `token_id`, owned by `owner`, the private entries
    /// `entries_to_mint_hashs` (entry name to plaintext hash) from the cache;
    /// each must be finalized. The owner is no reader of its own token.
    #[verifier::loop_isolation(false)]
    pub fn mint_private_content(
        &mut self,
        default_readers: Readers,
        entries_to_mint_hashs: KeyedMap<String, Sha256Hash>,
        token_id: u128,
        owner: PrincipalId,
    ) -> (r: Result<(), PrivateContentError>)
        ensures
            old(self)@.nft_private.contains_key(token_id) ==> (r matches Err(
                PrivateContentError::AlreadyExists,
            )) && final(self)@ == old(self)@,
            !old(self)@.nft_private.contains_key(token_id) ==> exists|es: Seq<(Seq<char>, Seq<u8>)>|
                #[trigger] lists_hash_pairs(es, entries_to_mint_hashs@) && final(self)@
                    == private_minted_system(old(self)@, token_id, default_readers@, es, owner@)
                    && match private_mint_fold(old(self)@, es, owner@).2 {
                    Some(err) => same_error(r, err),
                    None => r is Ok,
                },
    {
        if self.nft_private.contains_key(&token_id) {
            return Err(PrivateContentError::AlreadyExists);
        }
        let mut defaults = default_readers;
        defaults.remove(&owner);
        let entries = &entries_to_mint_hashs;
        proof {
            use_type_invariant(entries);
            entries.lemma_positions();
        }
        let n = entries.len();
        let ghost es = Seq::new(
            n as nat,
            |i: int| (entries.spec_key_at(i), entries.spec_value_at(i)),
        );
        let ghost v0 = self@;
        proof {
            assert(es.take(0) =~= Seq::<(Seq<char>, Seq<u8>)>::empty());
            assert(lists_hash_pairs(es, entries@)) by {
                assert forall|k: Seq<char>| #[trigger] entries@.contains_key(k) implies exists|i: int|
                    0 <= i < es.len() && es[i].0 == k by {
                    let i = entries.spec_index_of(k);
                    assert(es[i].0 == k);
                }
            }
        }
        let mut rec: KeyedMap<String, PrivateEntry> = KeyedMap::new();
        let mut i: usize = 0;
        while i < n
            invariant
                n == entries.spec_len(),
                entries.inv(),
                i <= n,
                es.len() == n,
                private_mint_fold(v0, es.take(i as int), owner@) == (
                    self@,
                    rec@,
                    None::<PrivateContentError>,
                ),
                self@.nft_private == v0.nft_private,
            decreases n - i,
        {
            let name = entries.key_at(i);
            let hash = entries.value_at(i);
            let ghost v = self@;
            proof {
                assert(es.take(i + 1).drop_last() =~= es.take(i as int));
                assert(es.take(i + 1).last() == (name@, hash@));
            }
            let mut entry = match self.premint_cache.remove(hash) {
                Some(e) => e,
                None => {
                    proof {
                        assert(self@.premint_cache =~= v.premint_cache);
                        lemma_private_fold_stops(v0, es, i + 1, owner@);
                    }
                    return Err(PrivateContentError::NotFound);
                },
            };
            if entry.status != PrivateContentStatus::PendingMinting && entry.status
                != PrivateContentStatus::Active {
                proof {
                    lemma_private_fold_stops(v0, es, i + 1, owner@);
                }
                return Err(PrivateContentError::InvalidStateTransition);
            }
            entry.readers.remove(&owner);
            entry.status = PrivateContentStatus::Active;
            rec.insert(name.clone(), entry);
            i += 1;
        }
        proof {
            assert(es.take(n as int) =~= es);
        }
        self.nft_private.insert(token_id, NftPrivateRecord { default_readers: defaults, entries: rec });
        Ok(())
    }
}

/// The readers of an entry once `readers` are set on it: the owner is never
/// one of them.
pub open spec fn new_readers_of(readers: Map<Seq<u8>, ReaderInfoView>, owner: Seq<u8>) -> Map<
    Seq<u8>,
    ReaderInfoView,
> {
    readers.remove(owner)
}

/// `e` once its readers become `nr` and its identity `id`: when either
/// changes, the identity it had is kept as the previous one (unless a
/// re-encryption is already pending, whose previous identity stays), and
/// content already uploaded waits for re-encryption.
pub open spec fn readers_updated(e: PrivateEntryView, nr: Map<Seq<u8>, ReaderInfoView>, id: Seq<u8>) -> PrivateEntryView {
    if e.readers != nr || e.canonical_identity != id {
        PrivateEntryView {
            previous_canonical_identity: if e.status != PrivateContentStatus::PendingReencryption {
                Some(e.canonical_identity)
            } else {
                e.previous_canonical_identity
            },
            readers: nr,
            canonical_identity: id,
            status: if e.status != PrivateContentStatus::PendingUpload {
                PrivateContentStatus::PendingReencryption
            } else {
                e.status
            },
            ..e
        }
    } else {
        e
    }
}

/// The message of a refused reader list.
pub open spec fn too_many_readers_message() -> Seq<char> {
    "Maximum number of readers exceeded: 100"@
}

impl PrivateEntry {
    /// Sets the readers of the entry, for a token owned by `nft_owner` whose
    /// default readers are `default_readers`; at most 100 readers besides
    /// the owner.
    pub fn set_readers(&mut self, nft_owner: PrincipalId, readers: Readers, default_readers: &Readers) -> (r:
        Result<(), String>)
        ensures
            new_readers_of(readers@, nft_owner@).len() > MAX_READERS_PER_ENTRY ==> (r matches Err(m)
                && m@ == too_many_readers_message()) && final(self)@ == old(self)@,
            new_readers_of(readers@, nft_owner@).len() <= MAX_READERS_PER_ENTRY ==> r is Ok && exists|
                id: Seq<u8>,
            |
                #[trigger] is_canonical_identity(
                    nft_owner@,
                    default_readers@.union_prefer_right(readers@).dom(),
                    id,
                ) && final(self)@ == readers_updated(
                    old(self)@,
                    new_readers_of(readers@, nft_owner@),
                    id,
                ),
    {
        let new_identity = construct_canonical_identity(nft_owner.deep_copy(), &readers, default_readers);
        let ghost all = readers@;
        let mut new_readers = readers;
        new_readers.remove(&nft_owner);
        if new_readers.len() > MAX_READERS_PER_ENTRY {
            return Err("Maximum number of readers exceeded: 100".to_string());
        }
        if !readers_equal(&self.readers, &new_readers) || !bytes_equal(
            self.canonical_identity.as_slice(),
            new_identity.as_slice(),
        ) {
            if self.status != PrivateContentStatus::PendingReencryption {
                self.previous_canonical_identity = Some(self.canonical_identity.deep_copy());
            }
            self.readers = new_readers;
            self.canonical_identity = new_identity;
            if self.status != PrivateContentStatus::PendingUpload {
                self.status = PrivateContentStatus::PendingReencryption;
            }
        }
        Ok(())
    }
}

impl PrivateContentSystem {
    /// Sets the readers of the entry `entry_name` of the token `token_id`,
    /// owned by `nft_owner`.
    pub fn set_readers(
        &mut self,
        token_id: u128,
        entry_name: &str,
        nft_owner: PrincipalId,
        readers: Readers,
    ) -> (r: Result<(), String>)
        ensures
            !old(self)@.nft_private.contains_key(token_id) ==> (r matches Err(m) && m@
                == "No private NFT data was found"@) && final(self)@ == old(self)@,
            old(self)@.nft_private.contains_key(token_id) && !has_private_entry(
                old(self)@,
                token_id,
                entry_name@,
            ) ==> (r matches Err(m) && m@ == "No private entry was found for given NFT"@)
                && final(self)@ == old(self)@,
            has_private_entry(old(self)@, token_id, entry_name@) ==> ({
                let rec = old(self)@.nft_private[token_id];
                let e = rec.entries[entry_name@];
                let nr = new_readers_of(readers@, nft_owner@);
                &&& nr.len() > MAX_READERS_PER_ENTRY ==> (r matches Err(m) && m@
                    == too_many_readers_message()) && final(self)@ == old(self)@
                &&& nr.len() <= MAX_READERS_PER_ENTRY ==> r is Ok && exists|id: Seq<u8>|
                    #[trigger] is_canonical_identity(
                        nft_owner@,
                        rec.default_readers.union_prefer_right(readers@).dom(),
                        id,
                    ) && final(self)@ == with_private_entry(
                        old(self)@,
                        token_id,
                        entry_name@,
                        readers_updated(e, nr, id),
                    )
            }),
    {
        let mut record = match self.nft_private.remove(&token_id) {
            Some(record) => record,
            None => {
                assert(self@.nft_private =~= old(self)@.nft_private);
                return Err("No private NFT data was found".to_string());
            },
        };
        let key = entry_name.to_owned();
        let mut entry = match record.entries.remove(&key) {
            Some(entry) => entry,
            None => {
                assert(record@.entries =~= old(self)@.nft_private[token_id].entries);
                self.nft_private.insert(token_id, record);
                assert(self@.nft_private =~= old(self)@.nft_private);
                return Err("No private entry was found for given NFT".to_string());
            },
        };
        let ghost e0 = entry@;
        let ghost defaults = record@.default_readers;
        assert(defaults == old(self)@.nft_private[token_id].default_readers);
        let r = entry.set_readers(nft_owner, readers, &record.default_readers);
        let ghost e1 = entry@;
        record.entries.insert(key, entry);
        self.nft_private.insert(token_id, record);
        proof {
            if r is Ok {
                let nr = new_readers_of(readers@, nft_owner@);
                let id = choose|id: Seq<u8>|
                    #[trigger] is_canonical_identity(
                        nft_owner@,
                        defaults.union_prefer_right(readers@).dom(),
                        id,
                    ) && e1 == readers_updated(e0, nr, id);
                assert(is_canonical_identity(
                    nft_owner@,
                    old(self)@.nft_private[token_id].default_readers.union_prefer_right(readers@).dom(),
                    id,
                ));
            }
            if r is Err {
                assert(record@.entries =~= old(self)@.nft_private[token_id].entries);
                assert(self@.nft_private =~= old(self)@.nft_private);
            } else {
                assert(record@.entries =~= old(self)@.nft_private[token_id].entries.insert(entry_name@, entry@));
                assert(self@.nft_private =~= old(self)@.nft_private.insert(token_id, record@));
            }
        }
        r
    }

    /// Whether the entry `entry_name` of the token `token_id` awaits a
    /// re-encryption of the plaintext `plaintext_hash` of `plaintext_size`
    /// bytes into `file_size` encrypted bytes.
    pub fn reencryption_validate(
        &self,
        token_id: &u128,
        entry_name: &str,
        plaintext_hash: &Sha256Hash,
        plaintext_size: u64,
        file_size: u64,
    ) -> (r: Result<(), PrivateContentError>)
        ensures
            !has_private_entry(self@, *token_id, entry_name@) ==> r matches Err(
                PrivateContentError::NotFound,
            ),
            has_private_entry(self@, *token_id, entry_name@) ==> ({
                let e = self@.nft_private[*token_id].entries[entry_name@];
                if e.status != PrivateContentStatus::PendingReencryption {
                    r matches Err(PrivateContentError::InvalidStateTransition)
                } else if e.hash != plaintext_hash@ {
                    r matches Err(PrivateContentError::StorageError(m)) && m@
                        == "Plaintext hash mismatch"@
                } else if e.plaintext_size != plaintext_size {
                    r matches Err(PrivateContentError::StorageError(m)) && m@
                        == "Plaintext size mismatch"@
                } else if e.file_size != file_size {
                    r matches Err(PrivateContentError::StorageError(m)) && m@
                        == "File size mismatch"@
                } else {
                    r is Ok
                }
            }),
    {
        let record = match self.nft_private.get(token_id) {
            Some(record) => record,
            None => {
                return Err(PrivateContentError::NotFound);
            },
        };
        let key = entry_name.to_owned();
        let entry = match record.entries.get(&key) {
            Some(entry) => entry,
            None => {
                return Err(PrivateContentError::NotFound);
            },
        };
        if entry.status != PrivateContentStatus::PendingReencryption {
            return Err(PrivateContentError::InvalidStateTransition);
        }
        if !bytes_equal(entry.hash.as_slice(), plaintext_hash.as_slice()) {
            return Err(PrivateContentError::StorageError("Plaintext hash mismatch".to_string()));
        }
        if entry.plaintext_size != plaintext_size {
            return Err(PrivateContentError::StorageError("Plaintext size mismatch".to_string()));
        }
        if entry.file_size != file_size {
            return Err(PrivateContentError::StorageError("File size mismatch".to_string()));
        }
        Ok(())
    }

    /// Starts the re-upload of the entry `entry_name` of the token `token_id`
    /// in `expected_chunks` chunks; `timestamp` is the time of the call.
    pub fn init_reencryption_store(
        &mut self,
        token_id: &u128,
        entry_name: &str,
        expected_chunks: usize,
        timestamp: u64,
    ) -> (r: Result<(), PrivateContentError>)
        ensures
            !has_private_entry(old(self)@, *token_id, entry_name@) ==> (r matches Err(
                PrivateContentError::NotFound,
            )) && final(self)@ == old(self)@,
            has_private_entry(old(self)@, *token_id, entry_name@) ==> r is Ok && final(self)@
                == with_private_entry(
                old(self)@,
                *token_id,
                entry_name@,
                PrivateEntryView {
                    pending_upload: Some(
                        PendingUploadView {
                            expected_chunks,
                            received_chunks: Map::empty(),
                            chunk_size: CHUNK_SIZE,
                            timestamp_ns: timestamp,
                        },
                    ),
                    ..old(self)@.nft_private[*token_id].entries[entry_name@]
                },
            ),
    {
        let mut record = match self.nft_private.remove(token_id) {
            Some(record) => record,
            None => {
                assert(self@.nft_private =~= old(self)@.nft_private);
                return Err(PrivateContentError::NotFound);
            },
        };
        let key = entry_name.to_owned();
        let mut entry = match record.entries.remove(&key) {
            Some(entry) => entry,
            None => {
                assert(record@.entries =~= old(self)@.nft_private[*token_id].entries);
                self.nft_private.insert(*token_id, record);
                assert(self@.nft_private =~= old(self)@.nft_private);
                return Err(PrivateContentError::NotFound);
            },
        };
        entry.pending_upload = Some(
            PendingUpload {
                expected_chunks,
                received_chunks: KeyedMap::new(),
                chunk_size: CHUNK_SIZE,
                timestamp_ns: timestamp,
            },
        );
        record.entries.insert(key, entry);
        self.nft_private.insert(*token_id, record);
        proof {
            assert(record@.entries =~= old(self)@.nft_private[*token_id].entries.insert(entry_name@, entry@));
            assert(self@.nft_private =~= old(self)@.nft_private.insert(*token_id, record@));
        }
        Ok(())
    }

    /// Stores the chunk `data` at `chunk_index` of the re-upload of the entry
    /// `entry_name` of the token `token_id`.
    pub fn reupload_chunk(
        &mut self,
        token_id: &u128,
        entry_name: &str,
        chunk_index: usize,
        data: Vec<u8>,
    ) -> (r: Result<(), PrivateContentError>)
        ensures
            !has_private_entry(old(self)@, *token_id, entry_name@) ==> (r matches Err(
                PrivateContentError::NotFound,
            )) && final(self)@ == old(self)@,
            has_private_entry(old(self)@, *token_id, entry_name@) ==> ({
                let e = old(self)@.nft_private[*token_id].entries[entry_name@];
                match chunk_refusal(e, PrivateContentStatus::PendingReencryption, chunk_index, data@.len()) {
                    Some(err) => same_error(r, err) && final(self)@ == old(self)@,
                    None => r is Ok && final(self)@ == with_private_entry(
                        old(self)@,
                        *token_id,
                        entry_name@,
                        with_chunk(e, chunk_index, data@),
                    ),
                }
            }),
    {
        let mut record = match self.nft_private.remove(token_id) {
            Some(record) => record,
            None => {
                assert(self@.nft_private =~= old(self)@.nft_private);
                return Err(PrivateContentError::NotFound);
            },
        };
        let key = entry_name.to_owned();
        let mut entry = match record.entries.remove(&key) {
            Some(entry) => entry,
            None => {
                assert(record@.entries =~= old(self)@.nft_private[*token_id].entries);
                self.nft_private.insert(*token_id, record);
                assert(self@.nft_private =~= old(self)@.nft_private);
                return Err(PrivateContentError::NotFound);
            },
        };
        let r = store_private_chunk(&mut entry, PrivateContentStatus::PendingReencryption, chunk_index, data);
        record.entries.insert(key, entry);
        self.nft_private.insert(*token_id, record);
        proof {
            if r is Err {
                assert(record@.entries =~= old(self)@.nft_private[*token_id].entries);
                assert(self@.nft_private =~= old(self)@.nft_private);
            } else {
                assert(record@.entries =~= old(self)@.nft_private[*token_id].entries.insert(entry_name@, entry@));
                assert(self@.nft_private =~= old(self)@.nft_private.insert(*token_id, record@));
            }
        }
        r
    }

    /// Finalizes the re-upload of the entry `entry_name` of the token
    /// `token_id`, which becomes active again.
    pub fn finalize_reupload(&mut self, token_id: &u128, entry_name: &str) -> (r: Result<
        (),
        PrivateContentError,
    >)
        ensures
            !has_private_entry(old(self)@, *token_id, entry_name@) ==> (r matches Err(
                PrivateContentError::NotFound,
            )) && final(self)@ == old(self)@,
            has_private_entry(old(self)@, *token_id, entry_name@) ==> ({
                let e = old(self)@.nft_private[*token_id].entries[entry_name@];
                match finalize_refusal(e, PrivateContentStatus::PendingReencryption) {
                    Some(err) => same_error(r, err) && final(self)@ == old(self)@,
                    None => r is Ok && final(self)@ == with_private_entry(
                        old(self)@,
                        *token_id,
                        entry_name@,
                        finalized_into(e, PrivateContentStatus::Active),
                    ),
                }
            }),
    {
        let mut record = match self.nft_private.remove(token_id) {
            Some(record) => record,
            None => {
                assert(self@.nft_private =~= old(self)@.nft_private);
                return Err(PrivateContentError::NotFound);
            },
        };
        let key = entry_name.to_owned();
        let mut entry = match record.entries.remove(&key) {
            Some(entry) => entry,
            None => {
                assert(record@.entries =~= old(self)@.nft_private[*token_id].entries);
                self.nft_private.insert(*token_id, record);
                assert(self@.nft_private =~= old(self)@.nft_private);
                return Err(PrivateContentError::NotFound);
            },
        };
        let r = finalize_private(
            &mut entry,
            PrivateContentStatus::PendingReencryption,
            PrivateContentStatus::Active,
        );
        record.entries.insert(key, entry);
        self.nft_private.insert(*token_id, record);
        proof {
            if r is Err {
                assert(record@.entries =~= old(self)@.nft_private[*token_id].entries);
                assert(self@.nft_private =~= old(self)@.nft_private);
            } else {
                assert(record@.entries =~= old(self)@.nft_private[*token_id].entries.insert(entry_name@, entry@));
                assert(self@.nft_private =~= old(self)@.nft_private.insert(*token_id, record@));
            }
        }
        r
    }
}

} // verus!
