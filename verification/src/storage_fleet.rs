//! The storage sub-canisters of the collection: which one an upload may go
//! to, how they are funded, and what is reported about the collection's own
//! canister.

use vstd::prelude::*;

verus! {

/// The most bytes a storage canister may hold (500 GiB).
pub const MAX_STORAGE_SIZE: u128 = 500 * 1024 * 1024 * 1024;

/// The largest file a storage canister accepts (2 GiB).
pub const MAX_FILE_SIZE: u128 = 2 * 1024 * 1024 * 1024;

/// The cycles a new storage canister starts with.
pub const INITIAL_CYCLES_BALANCE: u128 = 5_000_000_000_000;

/// The most cycles a storage canister may reserve.
pub const RESERVED_CYCLES_BALANCE: u128 = 2_000_000_000_000;

/// The cycles a new storage canister starts with in test mode.
pub const INITIAL_CYCLES_BALANCE_TEST_MODE: u128 = 500_000_000_000;

/// The most cycles a storage canister may reserve in test mode.
pub const RESERVED_CYCLES_BALANCE_TEST_MODE: u128 = 100_000_000_000;

/// Whether a file of `file_size` bytes may be uploaded at all.
pub fn check_file_size(file_size: u64) -> (r: Result<(), String>)
    ensures
        file_size > MAX_FILE_SIZE ==> (r matches Err(m) && m@ == "File size exceeds the maximum limit of 2GB"@),
        file_size <= MAX_FILE_SIZE ==> r is Ok,
{
    if file_size as u128 > MAX_FILE_SIZE {
        return Err("File size exceeds the maximum limit of 2GB".to_string());
    }
    Ok(())
}

/// Whether a storage canister of `storage_size` bytes, whose files take
/// `stored_files_size` bytes, has room for `file_size` more: the larger of
/// its size and its files plus the new file stays within `MAX_STORAGE_SIZE`.
pub fn canister_has_room(storage_size: u128, stored_files_size: u64, file_size: u64) -> (b: bool)
    ensures
        b == ((if storage_size >= stored_files_size + file_size {
            storage_size as int
        } else {
            stored_files_size + file_size
        }) <= MAX_STORAGE_SIZE),
{
    let with_file = (stored_files_size as u128) + (file_size as u128);
    let expected = if storage_size >= with_file {
        storage_size
    } else {
        with_file
    };
    expected <= MAX_STORAGE_SIZE
}

/// How storage canisters are topped up: the check interval in seconds, the
/// balance below which a canister is funded, and how many cycles it gets.
pub struct FundingParams {
    pub interval_secs: u64,
    pub min_cycles: u128,
    pub fund_cycles: u128,
}

/// The funding of storage canisters: hourly checks and smaller amounts in
/// test mode, checks every minute otherwise.
pub fn default_funding_config(test_mode: bool) -> (p: FundingParams)
    ensures
        test_mode ==> p.interval_secs == 3600 && p.min_cycles == 300_000_000_000 && p.fund_cycles
            == 500_000_000_000,
        !test_mode ==> p.interval_secs == 60 && p.min_cycles == 1_000_000_000_000 && p.fund_cycles
            == 2_000_000_000_000,
{
    if test_mode {
        FundingParams { interval_secs: 3600, min_cycles: 300_000_000_000, fund_cycles: 500_000_000_000 }
    } else {
        FundingParams { interval_secs: 60, min_cycles: 1_000_000_000_000, fund_cycles: 2_000_000_000_000 }
    }
}

/// The cycles a storage canister is created with and the most it may
/// reserve: 2T and 2T in test mode, 10T and 4T otherwise.
pub fn new_storage_cycles(test_mode: bool) -> (r: (u64, u64))
    ensures
        test_mode ==> r == (2_000_000_000_000u64, 2_000_000_000_000u64),
        !test_mode ==> r == (10_000_000_000_000u64, 4_000_000_000_000u64),
{
    if test_mode {
        (2_000_000_000_000u64, 2_000_000_000_000u64)
    } else {
        (10_000_000_000_000u64, 4_000_000_000_000u64)
    }
}

/// Whether a storage canister has reached the threshold: its size, when it
/// could be read, is at least `threshold`; a canister whose size could not
/// be read has not.
pub fn is_at_threshold(size: Option<u128>, threshold: u128) -> (b: bool)
    ensures
        b == (size matches Some(s) && s >= threshold),
{
    match size {
        Some(s) => s >= threshold,
        None => false,
    }
}

/// Why a storage canister could not be created.
#[derive(Debug)]
pub enum NewStorageError {
    CreateCanisterError(String),
    InstallCodeError(String),
    FailedToSerializeInitArgs(String),
    CantFindControllers(String),
}

/// Why a storage canister could not be queried.
#[derive(Debug)]
pub enum CanisterError {
    CantFindControllers(String),
}

/// A version number of the canister's code.
#[derive(Clone, Copy, Debug, PartialEq, Eq, Structural)]
pub struct BuildVersion {
    pub major: u32,
    pub minor: u32,
    pub patch: u32,
}

/// What the collection's canister reports about itself.
pub struct CanisterInfo {
    pub now: u64,
    pub test_mode: bool,
    pub version: BuildVersion,
    pub commit_hash: String,
    pub memory_used: u64,
    pub cycles_balance: u64,
}

} // verus!
