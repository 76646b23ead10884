//! Upload states, limits and the answers of the upload endpoints.

use vstd::prelude::*;

verus! {

/// The largest file, in bytes, that can be uploaded.
pub const MAX_CONTENT_SIZE: u64 = 100 * 1024 * 1024;

/// The largest chunk, in bytes, that an upload accepts.
pub const CHUNK_SIZE: usize = 1024 * 1024;

/// Where an upload of a file stands.
#[derive(Clone, Copy, Debug, PartialEq, Eq, Structural)]
pub enum UploadState {
    Init,
    ReuploadInit,
    InProgress,
    Finalized,
    InitReupload,
    ChunkReupload,
    FinalizeReupload,
}

/// The answer to an accepted upload initialization.
#[derive(Debug)]
pub struct InitUploadResp {}

/// Why an upload could not be initialized.
#[derive(Debug)]
pub enum InitUploadError {
    ConcurrentManagementCall,
    FileAlreadyExists,
    ContentTooLarge,
    NotEnoughStorage,
    InvalidChunkSize,
    InvalidFilePath,
    TooManyChunks,
    TooManyFiles,
    StorageCanisterError(String),
}

/// Why a chunk could not be stored.
#[derive(Debug)]
pub enum StoreChunkError {
    ConcurrentManagementCall,
    UploadNotInitialized,
    UploadAlreadyFinalized,
    InvalidStateTransition,
    InvalidChunkId,
    InvalidChunkData,
    InvalidFilePath,
    StorageCanisterError(String),
}

/// Why an upload could not be finalized.
#[derive(Debug)]
pub enum FinalizeUploadError {
    ConcurrentManagementCall,
    UploadNotStarted,
    UploadAlreadyFinalized,
    IncompleteUpload,
    FileSizeMismatch,
    StorageCanisterError(String),
}

/// The answer to a cancelled upload.
#[derive(Debug)]
pub struct CancelUploadResp {}

/// Why an upload could not be cancelled.
#[derive(Debug)]
pub enum CancelUploadError {
    ConcurrentManagementCall,
    UploadNotInitialized,
    UploadAlreadyFinalized,
    InvalidFilePath,
    StorageCanisterError(String),
}

/// Why files could not be appended to a token.
#[derive(Debug)]
pub enum AppendFileError {
    ConcurrentManagementCall,
    TokenDoesNotExists,
    FileAlreadyExists,
    NotFound,
    InvalidStateTransition,
}

/// Why a chunk of private content could not be stored.
#[derive(Debug)]
pub enum StorePrivateContentChunkError {
    ConcurrentManagementCall,
    NotFound,
    InvalidChunk,
    ContentTooLarge,
    StorageCanisterError(String),
}

/// What a private chunk is answered when the storage canister refused it
/// with `error`.
pub open spec fn store_refusal_answer(error: StoreChunkError, r: StorePrivateContentChunkError) -> bool {
    match error {
        StoreChunkError::ConcurrentManagementCall => r matches StorePrivateContentChunkError::ConcurrentManagementCall,
        StoreChunkError::UploadNotInitialized => r matches StorePrivateContentChunkError::StorageCanisterError(m) && m@ == "UploadNotInitialized"@,
        StoreChunkError::UploadAlreadyFinalized => r matches StorePrivateContentChunkError::StorageCanisterError(m) && m@ == "UploadAlreadyFinalized"@,
        StoreChunkError::InvalidStateTransition => r matches StorePrivateContentChunkError::StorageCanisterError(m) && m@ == "InvalidStateTransition"@,
        StoreChunkError::InvalidChunkId => r matches StorePrivateContentChunkError::InvalidChunk,
        StoreChunkError::InvalidFilePath => r matches StorePrivateContentChunkError::NotFound,
        StoreChunkError::InvalidChunkData => r matches StorePrivateContentChunkError::InvalidChunk,
        StoreChunkError::StorageCanisterError(msg) => r matches StorePrivateContentChunkError::StorageCanisterError(m) && m@ == msg@,
    }
}

impl StorePrivateContentChunkError {
    /// The answer to a private chunk that the storage canister refused with `error`.
    pub fn from(error: StoreChunkError) -> (r: Self)
        ensures
            store_refusal_answer(error, r),
    {
        match error {
            StoreChunkError::ConcurrentManagementCall => StorePrivateContentChunkError::ConcurrentManagementCall,
            StoreChunkError::UploadNotInitialized => StorePrivateContentChunkError::StorageCanisterError(
                "UploadNotInitialized".to_string(),
            ),
            StoreChunkError::UploadAlreadyFinalized => StorePrivateContentChunkError::StorageCanisterError(
                "UploadAlreadyFinalized".to_string(),
            ),
            StoreChunkError::InvalidStateTransition => StorePrivateContentChunkError::StorageCanisterError(
                "InvalidStateTransition".to_string(),
            ),
            StoreChunkError::InvalidChunkId => StorePrivateContentChunkError::InvalidChunk,
            StoreChunkError::InvalidFilePath => StorePrivateContentChunkError::NotFound,
            StoreChunkError::InvalidChunkData => StorePrivateContentChunkError::InvalidChunk,
            StoreChunkError::StorageCanisterError(msg) => StorePrivateContentChunkError::StorageCanisterError(msg),
        }
    }
}

/// Why the upload of private content could not be finalized.
#[derive(Debug)]
pub enum FinalizePrivateContentUploadError {
    ConcurrentManagementCall,
    NotFound,
    InvalidStateTransition,
    IncompleteUpload,
    StorageCanisterError(String),
}

/// What a private upload is answered when the storage canister refused to
/// finalize it with `error`.
pub open spec fn finalize_refusal_answer(error: FinalizeUploadError, r: FinalizePrivateContentUploadError) -> bool {
    match error {
        FinalizeUploadError::ConcurrentManagementCall => r matches FinalizePrivateContentUploadError::ConcurrentManagementCall,
        FinalizeUploadError::UploadNotStarted => r matches FinalizePrivateContentUploadError::StorageCanisterError(m) && m@ == "UploadNotStarted"@,
        FinalizeUploadError::UploadAlreadyFinalized => r matches FinalizePrivateContentUploadError::StorageCanisterError(m) && m@ == "UploadAlreadyFinalized"@,
        FinalizeUploadError::IncompleteUpload => r matches FinalizePrivateContentUploadError::StorageCanisterError(m) && m@ == "IncompleteUpload"@,
        FinalizeUploadError::FileSizeMismatch => r matches FinalizePrivateContentUploadError::StorageCanisterError(m) && m@ == "FileSizeMismatch"@,
        FinalizeUploadError::StorageCanisterError(msg) => r matches FinalizePrivateContentUploadError::StorageCanisterError(m) && m@ == msg@,
    }
}

impl FinalizePrivateContentUploadError {
    /// The answer to a private upload whose finalization the storage canister
    /// refused with `error`.
    pub fn from(error: FinalizeUploadError) -> (r: Self)
        ensures
            finalize_refusal_answer(error, r),
    {
        match error {
            FinalizeUploadError::ConcurrentManagementCall => FinalizePrivateContentUploadError::ConcurrentManagementCall,
            FinalizeUploadError::UploadNotStarted => FinalizePrivateContentUploadError::StorageCanisterError(
                "UploadNotStarted".to_string(),
            ),
            FinalizeUploadError::UploadAlreadyFinalized => FinalizePrivateContentUploadError::StorageCanisterError(
                "UploadAlreadyFinalized".to_string(),
            ),
            FinalizeUploadError::IncompleteUpload => FinalizePrivateContentUploadError::StorageCanisterError(
                "IncompleteUpload".to_string(),
            ),
            FinalizeUploadError::FileSizeMismatch => FinalizePrivateContentUploadError::StorageCanisterError(
                "FileSizeMismatch".to_string(),
            ),
            FinalizeUploadError::StorageCanisterError(msg) => FinalizePrivateContentUploadError::StorageCanisterError(msg),
        }
    }
}

/// Why the upload of private content could not be cancelled.
#[derive(Debug)]
pub enum CancelPrivateContentUploadError {
    ConcurrentManagementCall,
    UploadNotInitialized,
    InvalidFilePath,
    UploadAlreadyFinalized,
    StorageCanisterError(String),
}

impl CancelPrivateContentUploadError {
    /// The answer to a private upload whose cancellation the storage canister
    /// refused with `error`.
    pub fn from(error: CancelUploadError) -> (r: Self)
        ensures
            match error {
                CancelUploadError::ConcurrentManagementCall => r matches CancelPrivateContentUploadError::ConcurrentManagementCall,
                CancelUploadError::UploadNotInitialized => r matches CancelPrivateContentUploadError::UploadNotInitialized,
                CancelUploadError::UploadAlreadyFinalized => r matches CancelPrivateContentUploadError::UploadAlreadyFinalized,
                CancelUploadError::InvalidFilePath => r matches CancelPrivateContentUploadError::InvalidFilePath,
                CancelUploadError::StorageCanisterError(msg) => r matches CancelPrivateContentUploadError::StorageCanisterError(m) && m@ == msg@,
            },
    {
        match error {
            CancelUploadError::ConcurrentManagementCall => CancelPrivateContentUploadError::ConcurrentManagementCall,
            CancelUploadError::UploadNotInitialized => CancelPrivateContentUploadError::UploadNotInitialized,
            CancelUploadError::UploadAlreadyFinalized => CancelPrivateContentUploadError::UploadAlreadyFinalized,
            CancelUploadError::InvalidFilePath => CancelPrivateContentUploadError::InvalidFilePath,
            CancelUploadError::StorageCanisterError(msg) => CancelPrivateContentUploadError::StorageCanisterError(msg),
        }
    }
}

} // verus!
