pub mod address;
pub mod auth;
pub mod bytes;
pub mod call_laws;
pub mod channel_laws;
pub mod cross_chain;
pub mod crypto;
pub mod dispute;
pub mod dust;
pub mod dust_laws;
pub mod error;
pub mod incremental_merkle;
pub mod merkle;
pub mod multi_asset;
pub mod sorted_map;
pub mod token;
pub mod xdr;
