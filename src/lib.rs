//! A server core for a small binary price-ledger protocol: fixed nine-byte
//! frames are decoded from an arbitrarily split byte stream, and each
//! connection keeps its own ordered store of timestamped prices that answers
//! range-mean queries.

pub mod frame;
pub mod prime;
pub mod session;
pub mod store;
pub mod wire;
