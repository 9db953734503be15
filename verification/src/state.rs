//! The balance store: pool configuration, token-service reference, and the
//! user table, together with its mathematical model.
//!
//! The model of the store is a [`StoreView`]: two optional singletons and a
//! sequence of user records kept in strictly ascending identity order. The
//! ledger invariant [`store_wf`] ties the pool total to the sum of all user
//! balances; the engine operations in [`crate::contract`] preserve it.

use vstd::prelude::*;
use crate::error::ContractError;
use crate::ident::{lex_lt, lemma_lex_lt_total, lemma_lex_lt_trans, str_eq, str_lt};
use vstd::std_specs::vec::vec_index_mut;

verus! {

/// The pool configuration singleton: the total currently held on deposit.
#[derive(Clone, Copy, Debug, PartialEq, Eq)]
pub struct State {
    pub total_money: u128,
}

/// One registered user's record. The `address` field duplicates the key the
/// record is stored under; the duplication is intentional, as the record is
/// returned whole to callers.
#[derive(Debug, PartialEq, Eq)]
pub struct UserInfo {
    pub address: String,
    pub amount: u128,
}

/// The mathematical shadow of a [`UserInfo`].
#[verifier::ext_equal]
pub struct UserInfoView {
    pub address: Seq<char>,
    pub amount: u128,
}

impl View for UserInfo {
    type V = UserInfoView;

    open spec fn view(&self) -> UserInfoView {
        UserInfoView { address: self.address@, amount: self.amount }
    }
}

/// The mathematical shadow of the whole store.
#[verifier::ext_equal]
pub struct StoreView {
    /// The pool total, if the pool configuration was ever saved.
    pub total: Option<u128>,
    /// The registered token-service identity, if ever set.
    pub token: Option<Seq<char>>,
    /// All user records, in ascending identity order.
    pub users: Seq<UserInfoView>,
}

/// The balance store. It offers atomic get/set access to two singletons and
/// a user table enumerable in ascending identity order.
pub struct Store {
    pool: Option<State>,
    token_address: Option<String>,
    users: Vec<UserInfo>,
}

impl View for Store {
    type V = StoreView;

    closed spec fn view(&self) -> StoreView {
        StoreView {
            total: match self.pool {
                Some(s) => Some(s.total_money),
                None => None,
            },
            token: match self.token_address {
                Some(a) => Some(a@),
                None => None,
            },
            users: self.users@.map(|i: int, u: UserInfo| u@),
        }
    }
}

/// The user records are in strictly ascending identity order; in particular,
/// no identity occurs twice.
pub open spec fn sorted_by_address(users: Seq<UserInfoView>) -> bool {
    forall|i: int, j: int|
        0 <= i < j < users.len() ==> lex_lt(#[trigger] users[i].address, #[trigger] users[j].address)
}

/// The sum of all recorded balances.
pub open spec fn sum_amounts(users: Seq<UserInfoView>) -> int
    decreases users.len(),
{
    if users.len() == 0 {
        0
    } else {
        sum_amounts(users.drop_last()) + users.last().amount
    }
}

/// The position `addr` occupies, or would occupy, in `users`: the number of
/// records whose identity precedes it (meaningful on sorted sequences).
pub open spec fn insert_pos(users: Seq<UserInfoView>, addr: Seq<char>) -> int
    decreases users.len(),
{
    if users.len() == 0 {
        0
    } else if lex_lt(users.last().address, addr) {
        users.len() as int
    } else {
        insert_pos(users.drop_last(), addr)
    }
}

/// Whether `addr` has a record (meaningful on sorted sequences).
pub open spec fn has_user(users: Seq<UserInfoView>, addr: Seq<char>) -> bool {
    insert_pos(users, addr) < users.len() && users[insert_pos(users, addr)].address == addr
}

/// The balance recorded for `addr` (meaningful when `has_user` holds).
pub open spec fn user_amount(users: Seq<UserInfoView>, addr: Seq<char>) -> u128 {
    users[insert_pos(users, addr)].amount
}

/// `users` with `rec` put in place: the record with the same identity is
/// replaced, or `rec` is inserted at its ascending position.
pub open spec fn put_user_model(users: Seq<UserInfoView>, rec: UserInfoView) -> Seq<UserInfoView> {
    let p = insert_pos(users, rec.address);
    if p < users.len() && users[p].address == rec.address {
        users.update(p, rec)
    } else {
        users.insert(p, rec)
    }
}

/// The ledger invariant: the user table is sorted, and whenever the pool
/// configuration is set, its total equals the sum of all user balances. A
/// store whose pool was never configured has no users, since every deposit
/// requires the configuration.
pub open spec fn store_wf(v: StoreView) -> bool {
    &&& sorted_by_address(v.users)
    &&& (v.total matches Some(t) ==> t == sum_amounts(v.users))
    &&& (v.total is None ==> v.users.len() == 0)
}

/// `insert_pos` splits a sorted sequence: smaller identities strictly before
/// it, no smaller identity from it on.
pub proof fn lemma_insert_pos_props(users: Seq<UserInfoView>, addr: Seq<char>)
    requires
        sorted_by_address(users),
    ensures
        0 <= insert_pos(users, addr) <= users.len(),
        forall|j: int| 0 <= j < insert_pos(users, addr) ==> lex_lt(#[trigger] users[j].address, addr),
        forall|j: int|
            insert_pos(users, addr) <= j < users.len() ==> !lex_lt(#[trigger] users[j].address, addr),
    decreases users.len(),
{
    if users.len() == 0 {
    } else if lex_lt(users.last().address, addr) {
        assert forall|j: int| 0 <= j < users.len() implies lex_lt(#[trigger] users[j].address, addr) by {
            if j < users.len() - 1 {
                assert(lex_lt(users[j].address, users[users.len() - 1].address));
                lemma_lex_lt_trans(users[j].address, users.last().address, addr);
            }
        }
    } else {
        let prefix = users.drop_last();
        assert(sorted_by_address(prefix)) by {
            assert forall|i: int, j: int| 0 <= i < j < prefix.len() implies lex_lt(
                #[trigger] prefix[i].address,
                #[trigger] prefix[j].address,
            ) by {
                assert(prefix[i] == users[i]);
                assert(prefix[j] == users[j]);
            }
        }
        lemma_insert_pos_props(prefix, addr);
        let p = insert_pos(users, addr);
        assert(p == insert_pos(prefix, addr));
        assert forall|j: int| 0 <= j < p implies lex_lt(#[trigger] users[j].address, addr) by {
            assert(users[j] == prefix[j]);
        }
        assert forall|j: int| p <= j < users.len() implies !lex_lt(#[trigger] users[j].address, addr) by {
            if j < users.len() - 1 {
                assert(users[j] == prefix[j]);
            } else {
                assert(users[j] == users.last());
            }
        }
    }
}

/// On a sorted sequence, a record with identity `addr` can stand only at
/// `insert_pos`, so `has_user` decides whether one exists at all.
pub proof fn lemma_find_user(users: Seq<UserInfoView>, addr: Seq<char>)
    requires
        sorted_by_address(users),
    ensures
        has_user(users, addr) <==> exists|i: int| 0 <= i < users.len() && users[i].address == addr,
        forall|i: int|
            0 <= i < users.len() && (#[trigger] users[i].address) == addr ==> i == insert_pos(
                users,
                addr,
            ),
{
    lemma_insert_pos_props(users, addr);
    let p = insert_pos(users, addr);
    assert forall|i: int|
        0 <= i < users.len() && (#[trigger] users[i].address) == addr implies i == p by {
        if i < p {
            lemma_lex_lt_total(addr, addr);
        } else if i > p {
            assert(lex_lt(users[p].address, users[i].address));
        }
    }
    if exists|i: int| 0 <= i < users.len() && users[i].address == addr {
        let i = choose|i: int| 0 <= i < users.len() && users[i].address == addr;
        assert(i == p);
    }
}

/// A linear scan that stops at the first identity not smaller than `addr`
/// stops exactly at `insert_pos`.
pub proof fn lemma_scan_is_insert_pos(users: Seq<UserInfoView>, addr: Seq<char>, i: int)
    requires
        sorted_by_address(users),
        0 <= i <= users.len(),
        forall|j: int| 0 <= j < i ==> lex_lt(#[trigger] users[j].address, addr),
        i < users.len() ==> !lex_lt(users[i].address, addr),
    ensures
        i == insert_pos(users, addr),
{
    lemma_insert_pos_props(users, addr);
    let p = insert_pos(users, addr);
    if p < i {
        assert(lex_lt(users[p].address, addr));
    } else if p > i {
        assert(lex_lt(users[i].address, addr));
    }
}

/// The sum of balances is never negative.
pub proof fn lemma_sum_nonneg(users: Seq<UserInfoView>)
    ensures
        sum_amounts(users) >= 0,
    decreases users.len(),
{
    if users.len() > 0 {
        lemma_sum_nonneg(users.drop_last());
    }
}

/// Replacing one record changes the sum by the difference of the amounts.
pub proof fn lemma_sum_update(users: Seq<UserInfoView>, i: int, rec: UserInfoView)
    requires
        0 <= i < users.len(),
    ensures
        sum_amounts(users.update(i, rec)) == sum_amounts(users) - users[i].amount + rec.amount,
    decreases users.len(),
{
    let u2 = users.update(i, rec);
    if i == users.len() - 1 {
        assert(u2.drop_last() =~= users.drop_last());
        assert(u2.last() == rec);
    } else {
        assert(u2.drop_last() =~= users.drop_last().update(i, rec));
        lemma_sum_update(users.drop_last(), i, rec);
        assert(u2.last() == users.last());
    }
}

/// Inserting a record adds its amount to the sum.
pub proof fn lemma_sum_insert(users: Seq<UserInfoView>, i: int, rec: UserInfoView)
    requires
        0 <= i <= users.len(),
    ensures
        sum_amounts(users.insert(i, rec)) == sum_amounts(users) + rec.amount,
    decreases users.len(),
{
    let u2 = users.insert(i, rec);
    if i == users.len() {
        assert(u2.drop_last() =~= users);
        assert(u2.last() == rec);
    } else {
        assert(u2.drop_last() =~= users.drop_last().insert(i, rec));
        lemma_sum_insert(users.drop_last(), i, rec);
        assert(u2.last() == users.last());
    }
}

/// No single balance exceeds the sum of all balances.
pub proof fn lemma_element_le_sum(users: Seq<UserInfoView>, i: int)
    requires
        0 <= i < users.len(),
    ensures
        users[i].amount <= sum_amounts(users),
    decreases users.len(),
{
    if i == users.len() - 1 {
        lemma_sum_nonneg(users.drop_last());
    } else {
        lemma_element_le_sum(users.drop_last(), i);
        assert(users.drop_last()[i] == users[i]);
    }
}

/// What putting a record does to a sorted table: order is kept, the record
/// stands at its position, and the sum changes by exactly the put amount
/// (less the amount it replaced, if any).
pub proof fn lemma_put_user_props(users: Seq<UserInfoView>, rec: UserInfoView)
    requires
        sorted_by_address(users),
    ensures
        sorted_by_address(put_user_model(users, rec)),
        insert_pos(put_user_model(users, rec), rec.address) == insert_pos(users, rec.address),
        has_user(put_user_model(users, rec), rec.address),
        user_amount(put_user_model(users, rec), rec.address) == rec.amount,
        has_user(users, rec.address) ==> put_user_model(users, rec).len() == users.len()
            && sum_amounts(put_user_model(users, rec)) == sum_amounts(users) - user_amount(
            users,
            rec.address,
        ) + rec.amount,
        !has_user(users, rec.address) ==> put_user_model(users, rec).len() == users.len() + 1
            && sum_amounts(put_user_model(users, rec)) == sum_amounts(users) + rec.amount,
        forall|j: int|
            0 <= j < insert_pos(users, rec.address) ==> put_user_model(users, rec)[j] == users[j],
{
    let addr = rec.address;
    let p = insert_pos(users, addr);
    lemma_insert_pos_props(users, addr);
    let u2 = put_user_model(users, rec);
    if p < users.len() && users[p].address == addr {
        // The record is replaced in place.
        lemma_sum_update(users, p, rec);
        assert(sorted_by_address(u2)) by {
            assert forall|i: int, j: int| 0 <= i < j < u2.len() implies lex_lt(
                #[trigger] u2[i].address,
                #[trigger] u2[j].address,
            ) by {
                assert(u2[i].address == users[i].address);
                assert(u2[j].address == users[j].address);
            }
        }
        lemma_lex_lt_total(addr, addr);
        assert(u2[p].address == addr);
        assert forall|j: int| 0 <= j < p implies lex_lt(#[trigger] u2[j].address, addr) by {
            assert(u2[j].address == users[j].address);
        }
        lemma_scan_is_insert_pos(u2, addr, p);
    } else {
        // The record is inserted at its position.
        users.insert_ensures(p, rec);
        lemma_sum_insert(users, p, rec);
        assert forall|j: int| p <= j < users.len() implies lex_lt(
            addr,
            #[trigger] users[j].address,
        ) by {
            if users[j].address == addr {
                if j == p {
                    assert(false);
                } else {
                    assert(lex_lt(users[p].address, users[j].address));
                }
            }
            lemma_lex_lt_total(addr, users[j].address);
        }
        assert(sorted_by_address(u2)) by {
            assert forall|i: int, j: int| 0 <= i < j < u2.len() implies lex_lt(
                #[trigger] u2[i].address,
                #[trigger] u2[j].address,
            ) by {
                if i < p && j < p {
                    assert(u2[i] == users[i]);
                    assert(u2[j] == users[j]);
                } else if i < p && j == p {
                    assert(u2[i] == users[i]);
                } else if i < p && j > p {
                    assert(u2[i] == users[i]);
                    assert(u2[j] == users[j - 1]);
                } else if i == p && j > p {
                    assert(u2[j] == users[j - 1]);
                } else {
                    assert(u2[i] == users[i - 1]);
                    assert(u2[j] == users[j - 1]);
                }
            }
        }
        assert forall|j: int| 0 <= j < p implies lex_lt(#[trigger] u2[j].address, addr) by {
            assert(u2[j] == users[j]);
        }
        assert(u2[p] == rec);
        lemma_lex_lt_total(addr, addr);
        lemma_scan_is_insert_pos(u2, addr, p);
    }
}

impl Store {
    /// A store with nothing set: no pool configuration, no token service,
    /// and no registered users.
    pub fn new() -> (s: Store)
        ensures
            s@.total is None,
            s@.token is None,
            s@.users.len() == 0,
            store_wf(s@),
    {
        let s = Store { pool: None, token_address: None, users: Vec::new() };
        proof {
            assert(s@.users.len() == 0);
        }
        s
    }
}

/// Saves the pool configuration, overwriting any previous value.
pub fn config(store: &mut Store, state: State)
    ensures
        final(store)@.total == Some(state.total_money),
        final(store)@.token == old(store)@.token,
        final(store)@.users == old(store)@.users,
{
    store.pool = Some(state);
}

/// Loads the pool configuration; fails if it was never saved.
pub fn config_read(store: &Store) -> (r: Result<State, ContractError>)
    ensures
        match store@.total {
            Some(t) => r matches Ok(s) && s.total_money == t,
            None => r matches Err(e) && e == ContractError::Uninitialized,
        },
{
    match &store.pool {
        Some(s) => Ok(State { total_money: s.total_money }),
        None => Err(ContractError::Uninitialized),
    }
}

/// Records the token-service identity, overwriting any previous value.
pub fn store_token_address(store: &mut Store, token_address: String)
    ensures
        final(store)@.token == Some(token_address@),
        final(store)@.total == old(store)@.total,
        final(store)@.users == old(store)@.users,
{
    store.token_address = Some(token_address);
}

/// Reads the token-service identity; fails if it was never set.
pub fn read_token_address(store: &Store) -> (r: Result<String, ContractError>)
    ensures
        match store@.token {
            Some(a) => r matches Ok(s) && s@ == a,
            None => r matches Err(e) && e == ContractError::Uninitialized,
        },
{
    match &store.token_address {
        Some(a) => Ok(a.clone()),
        None => Err(ContractError::Uninitialized),
    }
}

/// Creates or overwrites the record of `user`, keeping ascending order. The
/// record is keyed by its `address` field, which must match `user`.
pub fn store_users(store: &mut Store, user: &String, user_info: UserInfo)
    requires
        user@ == user_info@.address,
        sorted_by_address(old(store)@.users),
    ensures
        final(store)@.users == put_user_model(old(store)@.users, user_info@),
        final(store)@.total == old(store)@.total,
        final(store)@.token == old(store)@.token,
{
    let n: usize = store.users.len();
    let mut i: usize = 0;
    loop
        invariant
            0 <= i <= n,
            n == store.users.len(),
            *store == *old(store),
            sorted_by_address(store@.users),
            forall|j: int| 0 <= j < i ==> lex_lt(#[trigger] store@.users[j].address, user@),
        ensures
            0 <= i <= n,
            *store == *old(store),
            forall|j: int| 0 <= j < i ==> lex_lt(#[trigger] store@.users[j].address, user@),
            i < n ==> !lex_lt(store@.users[i as int].address, user@),
        decreases n - i,
    {
        if i >= n {
            break;
        }
        let smaller = str_lt(store.users[i].address.as_str(), user.as_str());
        if !smaller {
            break;
        }
        i += 1;
    }
    proof {
        lemma_scan_is_insert_pos(store@.users, user_info@.address, i as int);
        lemma_insert_pos_props(store@.users, user_info@.address);
    }
    let ghost users0 = store@.users;
    let ghost p = insert_pos(users0, user_info@.address);
    if i < n {
        let same = str_eq(&store.users[i].address, user);
        if same {
            let slot = vec_index_mut(&mut store.users, i);
            *slot = user_info;
            proof {
                assert(store@.users =~= users0.update(p, user_info@));
            }
            return;
        }
    }
    store.users.insert(i, user_info);
    proof {
        users0.insert_ensures(p, user_info@);
        assert(store@.users =~= users0.insert(p, user_info@));
    }
}

/// All registered identities, in the order the store enumerates them.
pub fn read_users(store: &Store) -> (r: Vec<String>)
    ensures
        r@.len() == store@.users.len(),
        forall|i: int| 0 <= i < r@.len() ==> (#[trigger] r@[i])@ == store@.users[i].address,
{
    let n: usize = store.users.len();
    let mut out: Vec<String> = Vec::new();
    let mut i: usize = 0;
    while i < n
        invariant
            0 <= i <= n,
            n == store.users.len(),
            out@.len() == i,
            forall|j: int| 0 <= j < i ==> (#[trigger] out@[j])@ == store@.users[j].address,
        decreases n - i,
    {
        out.push(store.users[i].address.clone());
        i += 1;
    }
    out
}

/// Looks the record of `user` up; absent means unregistered, not an error.
pub fn read_user_info(store: &Store, user: &String) -> (r: Option<UserInfo>)
    requires
        sorted_by_address(store@.users),
    ensures
        has_user(store@.users, user@) ==> (r matches Some(u) && u@ == store@.users[insert_pos(
            store@.users,
            user@,
        )]),
        !has_user(store@.users, user@) ==> r is None,
{
    let n: usize = store.users.len();
    let mut i: usize = 0;
    proof {
        lemma_find_user(store@.users, user@);
    }
    while i < n
        invariant
            0 <= i <= n,
            n == store.users.len(),
            sorted_by_address(store@.users),
            forall|j: int| 0 <= j < i ==> (#[trigger] store@.users[j].address) != user@,
        decreases n - i,
    {
        let same = str_eq(&store.users[i].address, user);
        if same {
            let rec = &store.users[i];
            let found = UserInfo { address: rec.address.clone(), amount: rec.amount };
            proof {
                lemma_find_user(store@.users, user@);
                assert(store@.users[i as int].address == user@);
                assert(i as int == insert_pos(store@.users, user@));
                assert(found@ =~= store@.users[i as int]);
            }
            return Some(found);
        }
        i += 1;
    }
    proof {
        if has_user(store@.users, user@) {
            let p = insert_pos(store@.users, user@);
            lemma_insert_pos_props(store@.users, user@);
            assert(store@.users[p].address != user@);
        }
    }
    None
}

} // verus!
