//! The ledger engine, the ranking query and the request router.
//!
//! Every mutating operation is a single atomic transition of the balance
//! store keyed by the requester's identity and an amount; it either fails
//! before any store mutation or applies completely and returns the outbound
//! transfer instruction for the host to dispatch. The engine preserves the
//! ledger invariant [`store_wf`]: the pool total equals the sum of all user
//! balances.

use vstd::prelude::*;
use crate::error::ContractError;
use crate::ident::{valid_identity, validate_identity};
use crate::msg::{
    BalanceRequest, ExecuteMsg, InstantiateMsg, QueryAnswer, QueryMsg, Response, TokenMsg,
    WasmInstruction,
};
use crate::state::{
    config, config_read, has_user, insert_pos, lemma_element_le_sum, lemma_find_user,
    lemma_insert_pos_props, lemma_put_user_props, put_user_model, read_token_address,
    read_user_info, read_users, sorted_by_address, store_token_address, store_users, store_wf,
    sum_amounts, user_amount, State, Store, StoreView, UserInfo, UserInfoView,
};

verus! {

// ------------------------------------------------------------------
// Models of the two balance-changing transitions
// ------------------------------------------------------------------

/// The store after a deposit of `amount` by `sender`: the sender's balance
/// grows by `amount` (a first deposit registers the sender), and so does the
/// pool total. Meaningful when the pool configuration is set and the new
/// total fits the amount type.
pub open spec fn deposit_model(v: StoreView, sender: Seq<char>, amount: u128) -> StoreView {
    let prev: int = if has_user(v.users, sender) {
        user_amount(v.users, sender) as int
    } else {
        0
    };
    let rec = UserInfoView { address: sender, amount: (prev + amount) as u128 };
    StoreView {
        total: Some((v.total->0 + amount) as u128),
        token: v.token,
        users: put_user_model(v.users, rec),
    }
}

/// The store after a withdrawal of `amount` by `sender`: the sender's
/// balance and the pool total both shrink by `amount`. Meaningful when the
/// sender is registered and `amount` does not exceed their balance.
pub open spec fn withdraw_model(v: StoreView, sender: Seq<char>, amount: u128) -> StoreView {
    let rec = UserInfoView {
        address: sender,
        amount: (user_amount(v.users, sender) - amount) as u128,
    };
    StoreView {
        total: Some((v.total->0 - amount) as u128),
        token: v.token,
        users: put_user_model(v.users, rec),
    }
}

/// One deposit step preserves the ledger invariant, and afterwards the
/// sender is registered with the grown balance.
pub proof fn lemma_deposit_model_wf(v: StoreView, sender: Seq<char>, amount: u128)
    requires
        store_wf(v),
        v.total is Some,
        v.total->0 + amount <= u128::MAX,
    ensures
        store_wf(deposit_model(v, sender, amount)),
        deposit_model(v, sender, amount).total == Some((v.total->0 + amount) as u128),
        deposit_model(v, sender, amount).token == v.token,
        has_user(deposit_model(v, sender, amount).users, sender),
        has_user(v.users, sender) ==> user_amount(deposit_model(v, sender, amount).users, sender)
            == (user_amount(v.users, sender) + amount) as u128,
        !has_user(v.users, sender) ==> user_amount(deposit_model(v, sender, amount).users, sender)
            == amount,
        has_user(v.users, sender) ==> user_amount(v.users, sender) + amount <= u128::MAX,
{
    let users = v.users;
    lemma_insert_pos_props(users, sender);
    if has_user(users, sender) {
        lemma_element_le_sum(users, insert_pos(users, sender));
    }
    let prev: int = if has_user(users, sender) {
        user_amount(users, sender) as int
    } else {
        0
    };
    let rec = UserInfoView { address: sender, amount: (prev + amount) as u128 };
    lemma_put_user_props(users, rec);
}

/// One withdrawal step preserves the ledger invariant; in particular the
/// pool total covers the withdrawn amount, so the subtraction is exact.
pub proof fn lemma_withdraw_model_wf(v: StoreView, sender: Seq<char>, amount: u128)
    requires
        store_wf(v),
        v.total is Some,
        has_user(v.users, sender),
        amount <= user_amount(v.users, sender),
    ensures
        store_wf(withdraw_model(v, sender, amount)),
        amount <= v.total->0,
        withdraw_model(v, sender, amount).total == Some((v.total->0 - amount) as u128),
        withdraw_model(v, sender, amount).token == v.token,
        has_user(withdraw_model(v, sender, amount).users, sender),
        user_amount(withdraw_model(v, sender, amount).users, sender) == (user_amount(
            v.users,
            sender,
        ) - amount) as u128,
{
    lemma_insert_pos_props(v.users, sender);
    lemma_element_le_sum(v.users, insert_pos(v.users, sender));
    let rec = UserInfoView {
        address: sender,
        amount: (user_amount(v.users, sender) - amount) as u128,
    };
    lemma_put_user_props(v.users, rec);
}

/// Depositing `a` and then `b` for the same user changes the store exactly
/// as depositing `a + b` once.
pub proof fn lemma_deposit_additive(v: StoreView, sender: Seq<char>, a: u128, b: u128)
    requires
        store_wf(v),
        v.total is Some,
        v.total->0 + a + b <= u128::MAX,
    ensures
        deposit_model(deposit_model(v, sender, a), sender, b) == deposit_model(
            v,
            sender,
            (a + b) as u128,
        ),
{
    let users = v.users;
    let t = v.total->0;
    lemma_insert_pos_props(users, sender);
    let p = insert_pos(users, sender);
    let prev: int = if has_user(users, sender) {
        user_amount(users, sender) as int
    } else {
        0
    };
    if has_user(users, sender) {
        lemma_element_le_sum(users, p);
    }
    let rec_a = UserInfoView { address: sender, amount: (prev + a) as u128 };
    let rec_b = UserInfoView { address: sender, amount: (prev + a + b) as u128 };
    lemma_deposit_model_wf(v, sender, a);
    lemma_put_user_props(users, rec_a);
    let v1 = deposit_model(v, sender, a);
    lemma_deposit_model_wf(v1, sender, b);
    lemma_put_user_props(v1.users, rec_b);
    let lhs = deposit_model(v1, sender, b);
    let rhs = deposit_model(v, sender, (a + b) as u128);
    assert(insert_pos(v1.users, sender) == p);
    assert(v1.users[p] == rec_a);
    assert(lhs.users == v1.users.update(p, rec_b));
    if has_user(users, sender) {
        assert(v1.users == users.update(p, rec_a));
        assert(lhs.users =~= users.update(p, rec_b));
    } else {
        assert(v1.users == users.insert(p, rec_a));
        users.insert_ensures(p, rec_a);
        users.insert_ensures(p, rec_b);
        assert(lhs.users =~= users.insert(p, rec_b));
    }
    assert(rhs.users == put_user_model(users, UserInfoView { address: sender, amount: (prev + (a + b) as u128) as u128 }));
    assert((prev + (a + b) as u128) as u128 == rec_b.amount);
    assert(lhs =~= rhs);
}

/// Withdrawing exactly the recorded balance succeeds by the engine's
/// contract, keeps the invariant, and leaves that balance at zero.
pub proof fn lemma_withdraw_boundary(v: StoreView, sender: Seq<char>)
    requires
        store_wf(v),
        v.total is Some,
        has_user(v.users, sender),
    ensures
        store_wf(withdraw_model(v, sender, user_amount(v.users, sender))),
        has_user(withdraw_model(v, sender, user_amount(v.users, sender)).users, sender),
        user_amount(
            withdraw_model(v, sender, user_amount(v.users, sender)).users,
            sender,
        ) == 0,
{
    lemma_withdraw_model_wf(v, sender, user_amount(v.users, sender));
}

// ------------------------------------------------------------------
// Outcomes of the engine operations
// ------------------------------------------------------------------

/// Outcome of registering the token service: the address is validated, then
/// stored; nothing else changes and no instruction is produced.
pub open spec fn set_address_outcome(
    pre: StoreView,
    post: StoreView,
    address: Seq<char>,
    r: Result<Response, ContractError>,
) -> bool {
    &&& (valid_identity(address) ==> (r matches Ok(resp) && resp.messages@.len() == 0 && post
        == StoreView { total: pre.total, token: Some(address), users: pre.users }))
    &&& (!valid_identity(address) ==> (r matches Err(e) && e == ContractError::InvalidAddress
        && post == pre))
}

/// Outcome of a buy: no local effect; one mint instruction addressed to the
/// registered token service, or `Uninitialized` if none is registered.
pub open spec fn buy_outcome(
    v: StoreView,
    sender: Seq<char>,
    amount: u128,
    r: Result<Response, ContractError>,
) -> bool {
    &&& (v.token is Some ==> (r matches Ok(resp) && resp.messages@.len() == 1
        && resp.messages@[0].contract_addr@ == v.token->0 && (resp.messages@[0].msg
        matches TokenMsg::Mint { recipient, amount: a } && recipient@ == sender && a == amount)))
    &&& (v.token is None ==> (r matches Err(e) && e == ContractError::Uninitialized))
}

/// Outcome of a deposit: with both singletons set it applies
/// [`deposit_model`] and instructs the token service to pull `amount` from
/// the sender to the pool's own address; otherwise it fails with
/// `Uninitialized` and changes nothing.
pub open spec fn deposit_outcome(
    pre: StoreView,
    post: StoreView,
    contract: Seq<char>,
    sender: Seq<char>,
    amount: u128,
    r: Result<Response, ContractError>,
) -> bool {
    &&& (pre.total is Some && pre.token is Some ==> (r matches Ok(resp) && post == deposit_model(
        pre,
        sender,
        amount,
    ) && resp.messages@.len() == 1 && resp.messages@[0].contract_addr@ == pre.token->0 && (
    resp.messages@[0].msg matches TokenMsg::TransferFrom { owner, recipient, amount: a } && owner@
        == sender && recipient@ == contract && a == amount)))
    &&& ((pre.total is None || pre.token is None) ==> (r matches Err(e) && e
        == ContractError::Uninitialized && post == pre))
}

/// Outcome of a withdrawal: each precondition failure is a distinct error
/// that leaves the store unchanged; success applies [`withdraw_model`] and
/// instructs the token service to pay the sender back.
pub open spec fn withdraw_outcome(
    pre: StoreView,
    post: StoreView,
    sender: Seq<char>,
    amount: u128,
    r: Result<Response, ContractError>,
) -> bool {
    &&& ((pre.total is None || pre.token is None) ==> (r matches Err(e) && e
        == ContractError::Uninitialized && post == pre))
    &&& (pre.total is Some && pre.token is Some && !has_user(pre.users, sender) ==> (r
        matches Err(e) && e == ContractError::Unauthorized && post == pre))
    &&& (pre.total is Some && pre.token is Some && has_user(pre.users, sender) && amount
        > user_amount(pre.users, sender) ==> (r matches Err(e) && e
        == ContractError::InsufficientFunds && post == pre))
    &&& (pre.total is Some && pre.token is Some && has_user(pre.users, sender) && amount
        <= user_amount(pre.users, sender) ==> (r matches Ok(resp) && post == withdraw_model(
        pre,
        sender,
        amount,
    ) && resp.messages@.len() == 1 && resp.messages@[0].contract_addr@ == pre.token->0 && (
    resp.messages@[0].msg matches TokenMsg::Transfer { recipient, amount: a } && recipient@
        == sender && a == amount)))
}

// ------------------------------------------------------------------
// The ledger engine
// ------------------------------------------------------------------

/// Creates the pool configuration with a zero total, overwriting any
/// previous one. Produces no outbound instruction.
pub fn instantiate(store: &mut Store, _msg: InstantiateMsg) -> (r: Result<Response, ContractError>)
    ensures
        r matches Ok(resp) && resp.messages@.len() == 0,
        final(store)@.total == Some(0u128),
        final(store)@.token == old(store)@.token,
        final(store)@.users == old(store)@.users,
        old(store)@.users.len() == 0 ==> store_wf(final(store)@),
{
    config(store, State { total_money: 0 });
    proof {
        if old(store)@.users.len() == 0 {
            assert(sum_amounts(store@.users) == 0);
        }
    }
    Ok(Response { messages: Vec::new() })
}

/// Validates `address` and registers it as the token service.
pub fn execute_set_address(store: &mut Store, address: String) -> (r: Result<
    Response,
    ContractError,
>)
    ensures
        set_address_outcome(old(store)@, final(store)@, address@, r),
{
    if !validate_identity(address.as_str()) {
        return Err(ContractError::InvalidAddress);
    }
    store_token_address(store, address);
    proof {
        assert(store@ =~= StoreView {
            total: old(store)@.total,
            token: Some(address@),
            users: old(store)@.users,
        });
    }
    Ok(Response { messages: Vec::new() })
}

/// Instructs the token service to mint `amount` units to the sender. The
/// pool's own ledger is untouched: the purchase happens outside its custody.
pub fn execute_buy_token(store: &Store, sender: String, amount: u128) -> (r: Result<
    Response,
    ContractError,
>)
    ensures
        buy_outcome(store@, sender@, amount, r),
{
    let token_address = match read_token_address(store) {
        Ok(a) => a,
        Err(e) => return Err(e),
    };
    let mut messages: Vec<WasmInstruction> = Vec::new();
    messages.push(WasmInstruction {
        contract_addr: token_address,
        msg: TokenMsg::Mint { recipient: sender, amount },
    });
    Ok(Response { messages })
}

/// Records a deposit: grows the sender's balance (registering the sender on
/// a first deposit) and the pool total, and instructs the token service to
/// pull `amount` from the sender to the pool address `contract_address`.
pub fn execute_deposit(
    store: &mut Store,
    contract_address: String,
    sender: String,
    amount: u128,
) -> (r: Result<Response, ContractError>)
    requires
        store_wf(old(store)@),
        old(store)@.total matches Some(t) ==> t + amount <= u128::MAX,
    ensures
        deposit_outcome(old(store)@, final(store)@, contract_address@, sender@, amount, r),
        store_wf(final(store)@),
{
    let current_state = match config_read(store) {
        Ok(s) => s,
        Err(e) => return Err(e),
    };
    let token_address = match read_token_address(store) {
        Ok(a) => a,
        Err(e) => return Err(e),
    };
    let user_info = read_user_info(store, &sender);
    proof {
        lemma_deposit_model_wf(old(store)@, sender@, amount);
    }
    let new_info = match user_info {
        None => UserInfo { address: sender.clone(), amount },
        Some(u) => UserInfo { address: u.address, amount: u.amount + amount },
    };
    store_users(store, &sender, new_info);
    config(store, State { total_money: current_state.total_money + amount });
    proof {
        let prev: int = if has_user(old(store)@.users, sender@) {
            user_amount(old(store)@.users, sender@) as int
        } else {
            0
        };
        assert(new_info@ =~= UserInfoView { address: sender@, amount: (prev + amount) as u128 });
        assert(store@ =~= deposit_model(old(store)@, sender@, amount));
    }
    let mut messages: Vec<WasmInstruction> = Vec::new();
    messages.push(WasmInstruction {
        contract_addr: token_address,
        msg: TokenMsg::TransferFrom { owner: sender, recipient: contract_address, amount },
    });
    Ok(Response { messages })
}

/// Records a withdrawal: requires a registered sender with sufficient
/// balance, shrinks balance and pool total, and instructs the token service
/// to pay `amount` back to the sender.
pub fn execute_withdraw(store: &mut Store, sender: String, amount: u128) -> (r: Result<
    Response,
    ContractError,
>)
    requires
        store_wf(old(store)@),
    ensures
        withdraw_outcome(old(store)@, final(store)@, sender@, amount, r),
        store_wf(final(store)@),
{
    let current_state = match config_read(store) {
        Ok(s) => s,
        Err(e) => return Err(e),
    };
    let token_address = match read_token_address(store) {
        Ok(a) => a,
        Err(e) => return Err(e),
    };
    let user_info = read_user_info(store, &sender);
    let u = match user_info {
        None => return Err(ContractError::Unauthorized),
        Some(u) => u,
    };
    if u.amount < amount {
        return Err(ContractError::InsufficientFunds);
    }
    proof {
        lemma_withdraw_model_wf(old(store)@, sender@, amount);
    }
    let new_info = UserInfo { address: u.address, amount: u.amount - amount };
    store_users(store, &sender, new_info);
    config(store, State { total_money: current_state.total_money - amount });
    proof {
        assert(new_info@ =~= UserInfoView {
            address: sender@,
            amount: (user_amount(old(store)@.users, sender@) - amount) as u128,
        });
        assert(store@ =~= withdraw_model(old(store)@, sender@, amount));
    }
    let mut messages: Vec<WasmInstruction> = Vec::new();
    messages.push(WasmInstruction {
        contract_addr: token_address,
        msg: TokenMsg::Transfer { recipient: sender, amount },
    });
    Ok(Response { messages })
}

/// Dispatches a mutating request to the matching engine operation. One
/// configuration snapshot is loaded first, so every request on a store whose
/// pool was never configured fails with `Uninitialized`.
pub fn execute(
    store: &mut Store,
    contract_address: String,
    sender: String,
    msg: ExecuteMsg,
) -> (r: Result<Response, ContractError>)
    requires
        store_wf(old(store)@),
        match msg {
            ExecuteMsg::Deposit { amount } => match old(store)@.total {
                Some(t) => t + amount <= u128::MAX,
                None => true,
            },
            _ => true,
        },
    ensures
        store_wf(final(store)@),
        match old(store)@.total {
            None => r matches Err(e) && e == ContractError::Uninitialized && final(store)@ == old(
                store,
            )@,
            Some(t0) => match msg {
                ExecuteMsg::SetTokenAddress { address } => set_address_outcome(
                    old(store)@,
                    final(store)@,
                    address@,
                    r,
                ),
                ExecuteMsg::BuyToken { amount } => final(store)@ == old(store)@ && buy_outcome(
                    old(store)@,
                    sender@,
                    amount,
                    r,
                ),
                ExecuteMsg::Deposit { amount } => deposit_outcome(
                    old(store)@,
                    final(store)@,
                    contract_address@,
                    sender@,
                    amount,
                    r,
                ),
                ExecuteMsg::Withdraw { amount } => withdraw_outcome(
                    old(store)@,
                    final(store)@,
                    sender@,
                    amount,
                    r,
                ),
            },
        },
{
    match config_read(store) {
        Ok(_) => {},
        Err(e) => return Err(e),
    }
    match msg {
        ExecuteMsg::SetTokenAddress { address } => execute_set_address(store, address),
        ExecuteMsg::BuyToken { amount } => execute_buy_token(store, sender, amount),
        ExecuteMsg::Deposit { amount } => execute_deposit(store, contract_address, sender, amount),
        ExecuteMsg::Withdraw { amount } => execute_withdraw(store, sender, amount),
    }
}

// ------------------------------------------------------------------
// The ranking query
// ------------------------------------------------------------------

/// The index of the record a stable ascending sort by amount would put
/// last: the record with the largest amount and, among equal amounts, the
/// latest position in enumeration order.
pub open spec fn top_index(users: Seq<UserInfoView>) -> int
    decreases users.len(),
{
    if users.len() <= 1 {
        0
    } else if users.last().amount >= users[top_index(users.drop_last())].amount {
        users.len() - 1
    } else {
        top_index(users.drop_last())
    }
}

/// `top_index` points at a maximal amount, and at the last one among equals.
pub proof fn lemma_top_index_props(users: Seq<UserInfoView>)
    requires
        users.len() > 0,
    ensures
        0 <= top_index(users) < users.len(),
        forall|j: int|
            0 <= j < users.len() ==> (#[trigger] users[j]).amount <= users[top_index(users)].amount,
        forall|j: int|
            top_index(users) < j < users.len() ==> (#[trigger] users[j]).amount < users[top_index(
                users,
            )].amount,
    decreases users.len(),
{
    if users.len() > 1 {
        let prefix = users.drop_last();
        lemma_top_index_props(prefix);
        let p = top_index(prefix);
        assert(prefix[p] == users[p]);
        if users.last().amount >= users[p].amount {
            assert forall|j: int|
                0 <= j < users.len() implies (#[trigger] users[j]).amount <= users[users.len()
                - 1].amount by {
                if j < users.len() - 1 {
                    assert(users[j] == prefix[j]);
                }
            }
        } else {
            assert forall|j: int|
                0 <= j < users.len() implies (#[trigger] users[j]).amount <= users[p].amount by {
                if j < users.len() - 1 {
                    assert(users[j] == prefix[j]);
                }
            }
            assert forall|j: int|
                p < j < users.len() implies (#[trigger] users[j]).amount < users[p].amount by {
                if j < users.len() - 1 {
                    assert(users[j] == prefix[j]);
                }
            }
        }
    }
}

/// How `top_index` evolves when one more record joins at the end.
pub proof fn lemma_top_index_push(s: Seq<UserInfoView>, x: UserInfoView)
    requires
        s.len() >= 1,
    ensures
        top_index(s.push(x)) == if x.amount >= s[top_index(s)].amount {
            s.len() as int
        } else {
            top_index(s)
        },
{
    lemma_top_index_props(s);
    let s2 = s.push(x);
    assert(s2.drop_last() =~= s);
    assert(s2.last() == x);
    assert(s2[top_index(s)] == s[top_index(s)]);
}

/// The index in `users.remove(b)` of the record standing at `s` in `users`.
pub open spec fn index_after_remove(s: int, b: int) -> int {
    if s < b {
        s
    } else {
        s - 1
    }
}

/// What the ranking returns, over the record sequence it ranks: the two
/// highest-amount records in descending amount order, ties resolved towards
/// the later position in enumeration order; with a single record, just that
/// record; with none, an explicit failure.
pub open spec fn top_vec_post(users: Seq<UserInfoView>, v: Seq<UserInfo>) -> bool {
    &&& (users.len() == 1 ==> v.len() == 1 && v[0]@ == users[0])
    &&& (users.len() >= 2 ==> v.len() == 2 && v[0]@ == users[top_index(users)] && v[1]@
        == users.remove(top_index(users))[top_index(users.remove(top_index(users)))])
}

/// The full outcome of the ranking query.
pub open spec fn top_users_post(
    users: Seq<UserInfoView>,
    r: Result<Vec<UserInfo>, ContractError>,
) -> bool {
    &&& (users.len() == 0 ==> (r matches Err(e) && e == ContractError::CorruptedState))
    &&& (users.len() >= 1 ==> (r matches Ok(v) && top_vec_post(users, v@)))
}

/// Ranks the registered users by balance: loads every record through the
/// identity enumeration, and returns the two largest (descending), a single
/// registered user's record alone, or `CorruptedState` when there is no
/// user to rank.
pub fn query_top_users(store: &Store) -> (r: Result<Vec<UserInfo>, ContractError>)
    requires
        sorted_by_address(store@.users),
    ensures
        top_users_post(store@.users, r),
        store@.users.len() >= 2 ==> (r matches Ok(v) && (forall|j: int|
            0 <= j < store@.users.len() ==> (#[trigger] store@.users[j]).amount <= v@[0]@.amount)
            && (forall|j: int|
            0 <= j < store@.users.len() && j != top_index(store@.users)
                ==> (#[trigger] store@.users[j]).amount <= v@[1]@.amount)),
{
    let names = read_users(store);
    let n: usize = names.len();
    let mut group: Vec<UserInfo> = Vec::new();
    let mut i: usize = 0;
    while i < n
        invariant
            0 <= i <= n,
            n == names@.len(),
            n == store@.users.len(),
            sorted_by_address(store@.users),
            forall|j: int| 0 <= j < n ==> (#[trigger] names@[j])@ == store@.users[j].address,
            group@.len() == i,
            forall|j: int| 0 <= j < i ==> (#[trigger] group@[j])@ == store@.users[j],
        decreases n - i,
    {
        proof {
            lemma_find_user(store@.users, names@[i as int]@);
            assert(store@.users[i as int].address == names@[i as int]@);
            assert(insert_pos(store@.users, names@[i as int]@) == i as int);
            assert(has_user(store@.users, names@[i as int]@));
        }
        match read_user_info(store, &names[i]) {
            None => {
                // Unreachable: every enumerated identity resolves against
                // this store, but a missing record is still a fault, not a
                // panic.
                return Err(ContractError::CorruptedState);
            },
            Some(u) => {
                group.push(u);
            },
        }
        i += 1;
    }
    if n == 0 {
        return Err(ContractError::CorruptedState);
    }
    if n == 1 {
        let first = &group[0];
        let mut out: Vec<UserInfo> = Vec::new();
        out.push(UserInfo { address: first.address.clone(), amount: first.amount });
        proof {
            assert(out@[0]@ =~= store@.users[0]);
        }
        return Ok(out);
    }
    let mut best: usize;
    let mut sec: usize;
    if group[1].amount >= group[0].amount {
        best = 1;
        sec = 0;
    } else {
        best = 0;
        sec = 1;
    }
    proof {
        let u = store@.users;
        assert(u.take(2).drop_last() =~= u.take(1));
        assert(u.take(1).len() == 1);
        assert(top_index(u.take(1)) == 0);
        assert(u.take(2).last() == u[1]);
        assert(u.take(1)[0] == u[0]);
        assert(group@[0]@ == u[0]);
        assert(group@[1]@ == u[1]);
        if u[1].amount >= u[0].amount {
            assert(top_index(u.take(2)) == 1);
            assert(u.take(2).remove(1) =~= u.take(1));
        } else {
            assert(top_index(u.take(2)) == 0);
            assert(u.take(2).remove(0) =~= seq![u[1]]);
            assert(top_index(u.take(2).remove(0)) == 0);
        }
    }
    let mut i: usize = 2;
    while i < n
        invariant
            2 <= i <= n,
            n == store@.users.len(),
            n == group@.len(),
            forall|j: int| 0 <= j < n ==> (#[trigger] group@[j])@ == store@.users[j],
            0 <= best < i,
            0 <= sec < i,
            best != sec,
            best as int == top_index(store@.users.take(i as int)),
            index_after_remove(sec as int, best as int) == top_index(
                store@.users.take(i as int).remove(best as int),
            ),
        decreases n - i,
    {
        let ghost u = store@.users;
        let ghost pre = u.take(i as int);
        let ghost rest = pre.remove(best as int);
        proof {
            assert(pre.len() == i);
            assert(u.take(i as int + 1) =~= pre.push(u[i as int]));
            lemma_top_index_props(pre);
            lemma_top_index_push(pre, u[i as int]);
            assert(pre[best as int] == u[best as int]);
            assert(group@[best as int]@ == u[best as int]);
            assert(group@[i as int]@ == u[i as int]);
        }
        if group[i].amount >= group[best].amount {
            proof {
                assert(top_index(u.take(i as int + 1)) == i as int);
                assert(pre.push(u[i as int]).remove(i as int) =~= pre);
            }
            sec = best;
            best = i;
        } else {
            proof {
                assert(top_index(u.take(i as int + 1)) == best as int);
                assert(pre.push(u[i as int]).remove(best as int) =~= rest.push(u[i as int]));
                assert(rest.len() == i - 1);
                lemma_top_index_props(rest);
                lemma_top_index_push(rest, u[i as int]);
                if (sec as int) < (best as int) {
                    assert(rest[sec as int] == pre[sec as int]);
                } else {
                    assert(rest[sec as int - 1] == pre[sec as int]);
                }
                assert(rest[index_after_remove(sec as int, best as int)] == u[sec as int]);
                assert(group@[sec as int]@ == u[sec as int]);
            }
            if group[i].amount >= group[sec].amount {
                sec = i;
                proof {
                    assert(index_after_remove(i as int, best as int) == i - 1);
                    assert(top_index(u.take(i as int + 1).remove(best as int)) == i - 1);
                }
            } else {
                proof {
                    assert(top_index(u.take(i as int + 1).remove(best as int))
                        == index_after_remove(sec as int, best as int));
                }
            }
        }
        i += 1;
    }
    proof {
        assert(store@.users.take(n as int) =~= store@.users);
    }
    let b_rec = &group[best];
    let mut out: Vec<UserInfo> = Vec::new();
    out.push(UserInfo { address: b_rec.address.clone(), amount: b_rec.amount });
    let s_rec = &group[sec];
    out.push(UserInfo { address: s_rec.address.clone(), amount: s_rec.amount });
    proof {
        let u = store@.users;
        let t1 = top_index(u);
        let rest = u.remove(t1);
        assert(best as int == t1);
        assert(out@[0]@ =~= u[t1]);
        if (sec as int) < t1 {
            assert(rest[sec as int] == u[sec as int]);
        } else {
            assert(rest[sec as int - 1] == u[sec as int]);
        }
        assert(out@[1]@ =~= rest[top_index(rest)]);
        lemma_top_index_props(u);
        lemma_top_index_props(rest);
        assert forall|j: int|
            0 <= j < u.len() && j != t1 implies (#[trigger] u[j]).amount <= out@[1]@.amount by {
            if j < t1 {
                assert(rest[j] == u[j]);
            } else {
                assert(rest[j - 1] == u[j]);
            }
        }
    }
    Ok(out)
}

// ------------------------------------------------------------------
// The read queries and their router
// ------------------------------------------------------------------

/// The registered token-service identity.
pub fn query_get_address(store: &Store) -> (r: Result<String, ContractError>)
    ensures
        match store@.token {
            Some(a) => r matches Ok(s) && s@ == a,
            None => r matches Err(e) && e == ContractError::Uninitialized,
        },
{
    read_token_address(store)
}

/// Every registered identity, in enumeration order.
pub fn query_get_users(store: &Store) -> (r: Vec<String>)
    ensures
        r@.len() == store@.users.len(),
        forall|i: int| 0 <= i < r@.len() ==> (#[trigger] r@[i])@ == store@.users[i].address,
{
    read_users(store)
}

/// One user's record, looked up by a supplied address. An unregistered
/// address is an explicit fault, never an unchecked one.
pub fn query_user_info(store: &Store, address: String) -> (r: Result<UserInfo, ContractError>)
    requires
        sorted_by_address(store@.users),
    ensures
        !valid_identity(address@) ==> (r matches Err(e) && e == ContractError::InvalidAddress),
        valid_identity(address@) && !has_user(store@.users, address@) ==> (r matches Err(e) && e
            == ContractError::CorruptedState),
        valid_identity(address@) && has_user(store@.users, address@) ==> (r matches Ok(u) && u@
            == store@.users[insert_pos(store@.users, address@)]),
{
    if !validate_identity(address.as_str()) {
        return Err(ContractError::InvalidAddress);
    }
    match read_user_info(store, &address) {
        Some(u) => Ok(u),
        None => Err(ContractError::CorruptedState),
    }
}

/// Assembles the balance query the host must forward to the token service:
/// balances are served by the token service, not from local state.
pub fn query_get_balance(store: &Store, address: String) -> (r: Result<
    BalanceRequest,
    ContractError,
>)
    ensures
        !valid_identity(address@) ==> (r matches Err(e) && e == ContractError::InvalidAddress),
        valid_identity(address@) ==> match store@.token {
            Some(tok) => r matches Ok(b) && b.token_address@ == tok && b.address@ == address@,
            None => r matches Err(e) && e == ContractError::Uninitialized,
        },
{
    if !validate_identity(address.as_str()) {
        return Err(ContractError::InvalidAddress);
    }
    let token_address = match read_token_address(store) {
        Ok(a) => a,
        Err(e) => return Err(e),
    };
    Ok(BalanceRequest { token_address, address })
}

/// Dispatches a read request to the matching query.
pub fn query(store: &Store, msg: QueryMsg) -> (r: Result<QueryAnswer, ContractError>)
    requires
        sorted_by_address(store@.users),
    ensures
        match msg {
            QueryMsg::GetTokenAddress {} => match store@.token {
                Some(a) => r matches Ok(ans) && (ans matches QueryAnswer::TokenAddress(s) && s@
                    == a),
                None => r matches Err(e) && e == ContractError::Uninitialized,
            },
            QueryMsg::GetBalance { address } => ({
                &&& (!valid_identity(address@) ==> (r matches Err(e) && e
                    == ContractError::InvalidAddress))
                &&& (valid_identity(address@) ==> match store@.token {
                    Some(tok) => r matches Ok(ans) && (ans matches QueryAnswer::Balance(b)
                        && b.token_address@ == tok && b.address@ == address@),
                    None => r matches Err(e) && e == ContractError::Uninitialized,
                })
            }),
            QueryMsg::GetAllUsers {} => r matches Ok(ans) && (ans matches QueryAnswer::AllUsers(v)
                && v@.len() == store@.users.len() && (forall|i: int|
                0 <= i < v@.len() ==> (#[trigger] v@[i])@ == store@.users[i].address)),
            QueryMsg::GetUserInfo { address } => ({
                &&& (!valid_identity(address@) ==> (r matches Err(e) && e
                    == ContractError::InvalidAddress))
                &&& (valid_identity(address@) && !has_user(store@.users, address@) ==> (r
                    matches Err(e) && e == ContractError::CorruptedState))
                &&& (valid_identity(address@) && has_user(store@.users, address@) ==> (r
                    matches Ok(ans) && (ans matches QueryAnswer::User(u) && u@
                    == store@.users[insert_pos(store@.users, address@)])))
            }),
            QueryMsg::GetTopUsers {} => ({
                &&& (store@.users.len() == 0 ==> (r matches Err(e) && e
                    == ContractError::CorruptedState))
                &&& (store@.users.len() >= 1 ==> (r matches Ok(ans) && (ans
                    matches QueryAnswer::TopUsers(v) && top_vec_post(store@.users, v@))))
            }),
        },
{
    match msg {
        QueryMsg::GetTokenAddress {} => match query_get_address(store) {
            Ok(s) => Ok(QueryAnswer::TokenAddress(s)),
            Err(e) => Err(e),
        },
        QueryMsg::GetBalance { address } => match query_get_balance(store, address) {
            Ok(b) => Ok(QueryAnswer::Balance(b)),
            Err(e) => Err(e),
        },
        QueryMsg::GetAllUsers {} => Ok(QueryAnswer::AllUsers(query_get_users(store))),
        QueryMsg::GetUserInfo { address } => match query_user_info(store, address) {
            Ok(u) => Ok(QueryAnswer::User(u)),
            Err(e) => Err(e),
        },
        QueryMsg::GetTopUsers {} => match query_top_users(store) {
            Ok(v) => Ok(QueryAnswer::TopUsers(v)),
            Err(e) => Err(e),
        },
    }
}

} // verus!
