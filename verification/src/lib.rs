//! An accounting core for a custodial deposit pool.
//!
//! The crate tracks per-user balances and a pool-wide total for a fungible
//! asset held on users' behalf, and answers a top-depositors ranking query.
//! Settlement is delegated to an external fungible-token service: every
//! mutating operation returns the transfer instruction the host must dispatch
//! to that service, and the host guarantees that the local state change and
//! the instruction commit or roll back together.

pub mod contract;
pub mod error;
pub mod ident;
pub mod msg;
pub mod state;
