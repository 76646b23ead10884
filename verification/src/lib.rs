//! Verified bookkeeping of an ICRC7/ICRC37 NFT collection: media URLs,
//! upload state of public and private content, reader rights and guards.

pub mod text;
pub mod media;
pub mod hashing;
pub mod keyed;
pub mod principal;
pub mod upload;
pub mod display;
pub mod public_content;
pub mod public_links;
pub mod public_queries;
pub mod public_laws;
pub mod access;
pub mod private_content;
pub mod private_laws;
pub mod guards;
pub mod management;
pub mod legacy;
pub mod http;
pub mod pagination;
pub mod storage_fleet;
pub mod collection;
pub mod fleet;
pub mod metadata_store;
pub mod ledger;
pub mod icrc7;
pub mod content_queries;
pub mod value;
pub mod state;
pub mod minting;
pub mod endpoints;
