//! An authoritative and recursive DNS server library: names, zones,
//! authoritative lookup, negative answers, NSEC chains, the resolver cache,
//! query deduplication, the recursive resolution state machine, access
//! control, response rate limiting, configuration checks and the query
//! router's decisions.
pub mod name;
pub mod types;
pub mod zone;
pub mod negative;
pub mod lookup;
pub mod zone_store;
pub mod nsec;
pub mod cache;
pub mod rate_limit;
pub mod acl;
pub mod config;
pub mod validation;
pub mod upstream;
pub mod resolver;
pub mod iteration;
pub mod dedup;
pub mod response;
pub mod wire;
pub mod message;
pub mod router;
pub mod loader;
pub mod keys;
pub mod signer;
pub mod validator;
pub mod transport;
pub mod api;
