pub mod principal;
pub mod hash;
pub mod vec_map;
pub mod blobs;
pub mod blob_buckets;
pub mod types;
pub mod buckets;
pub mod canisters_requiring_upgrade;
pub mod api;
pub mod index;
pub mod router;
pub mod env;
pub mod cycles;
pub mod upgrade;
pub mod canister_client;
