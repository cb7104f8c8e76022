//! Verified routing, bookkeeping and planning logic of a Paimon table
//! connector: route keys for rows written to fixed-bucket primary-key
//! tables, the lane-ownership registry used to check them, the commit
//! coordinator, per-partition metadata aggregation and scan planning.
pub mod route_key;

pub use route_key::encode_route_key;
pub mod paimon_api;
pub mod error;
pub mod router;
pub mod lanes;
pub mod commit;
pub mod partitions;
pub mod table;
pub mod system;
pub mod write_prepare;
