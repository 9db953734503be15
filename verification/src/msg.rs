//! Request, response and instruction shapes.
//!
//! Inbound requests are typed; the router maps each to exactly one engine or
//! query operation. Outbound instructions are returned to the host, which
//! dispatches them to the token service and guarantees that the local state
//! change and the instruction commit or roll back together.

use vstd::prelude::*;
use crate::state::UserInfo;

verus! {

/// The (empty) instantiation request.
#[derive(Debug, PartialEq, Eq)]
pub struct InstantiateMsg {}

/// A mutating request, keyed by the requester's identity and an amount.
#[derive(Debug, PartialEq, Eq)]
pub enum ExecuteMsg {
    /// Register the token service under `address`.
    SetTokenAddress { address: String },
    /// Have the token service mint `amount` units directly to the requester,
    /// outside the pool's custody.
    BuyToken { amount: u128 },
    /// Move `amount` units from the requester into the pool's custody.
    Deposit { amount: u128 },
    /// Move `amount` units of the requester's balance back out of the pool.
    Withdraw { amount: u128 },
}

/// A read request.
#[derive(Debug, PartialEq, Eq)]
pub enum QueryMsg {
    /// The registered token-service identity.
    GetTokenAddress {},
    /// A user's balance as the token service records it (proxied, not local).
    GetBalance { address: String },
    /// Every registered identity, in enumeration order.
    GetAllUsers {},
    /// One user's record.
    GetUserInfo { address: String },
    /// The highest-balance users.
    GetTopUsers {},
}

/// An action on the token service's ledger.
#[derive(Debug, PartialEq, Eq)]
pub enum TokenMsg {
    /// Mint `amount` new units to `recipient`.
    Mint { recipient: String, amount: u128 },
    /// Pull `amount` units from `owner` to `recipient` (the pool's address).
    TransferFrom { owner: String, recipient: String, amount: u128 },
    /// Pay `amount` units out to `recipient`.
    Transfer { recipient: String, amount: u128 },
}

/// One outbound message: an action the host must submit to the token
/// service deployed at `contract_addr`.
#[derive(Debug, PartialEq, Eq)]
pub struct WasmInstruction {
    pub contract_addr: String,
    pub msg: TokenMsg,
}

/// What a mutating operation hands back: the outbound messages the host
/// must dispatch as part of the same atomic unit.
#[derive(Debug, PartialEq, Eq)]
pub struct Response {
    pub messages: Vec<WasmInstruction>,
}

/// The data of a balance query the host runs against the token service on
/// the caller's behalf.
#[derive(Debug, PartialEq, Eq)]
pub struct BalanceRequest {
    pub token_address: String,
    pub address: String,
}

/// An answer to a [`QueryMsg`].
#[derive(Debug, PartialEq, Eq)]
pub enum QueryAnswer {
    /// The registered token-service identity.
    TokenAddress(String),
    /// A balance query to forward to the token service.
    Balance(BalanceRequest),
    /// Every registered identity, in enumeration order.
    AllUsers(Vec<String>),
    /// One user's record.
    User(UserInfo),
    /// The highest-balance users' records.
    TopUsers(Vec<UserInfo>),
}

} // verus!
