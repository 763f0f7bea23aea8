//! The verified core of a Linera validator: amounts and balances, the system
//! application's state machine, the compiled-module cache, the cache of certificate
//! values, response slots, the conversions of values produced by WebAssembly guests, and
//! the decisions taken by a worker when it processes certificates, proposals, queries and
//! cross-chain requests.
pub mod amount;
pub mod base;
pub mod committees;
pub mod execution;
pub mod http;
pub mod subscriptions;
pub mod system;
pub mod response_slot;
pub mod module_cache;
pub mod outboxes;
pub mod promises;
pub mod wasm;
pub mod wit_conversions;
pub mod worker;
pub mod value_cache;
