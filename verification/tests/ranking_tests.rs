use pool_ledger::contract::{execute, instantiate, query, query_top_users};
use pool_ledger::error::ContractError;
use pool_ledger::msg::{ExecuteMsg, InstantiateMsg, QueryAnswer, QueryMsg};
use pool_ledger::state::{config_read, Store, UserInfo};

fn deposit(store: &mut Store, who: &str, amount: u128) {
    execute(
        store,
        String::from("pool"),
        String::from(who),
        ExecuteMsg::Deposit { amount },
    )
    .unwrap();
}

fn fresh_pool() -> Store {
    let mut store = Store::new();
    instantiate(&mut store, InstantiateMsg {}).unwrap();
    let message = ExecuteMsg::SetTokenAddress { address: String::from("token") };
    execute(&mut store, String::from("pool"), String::from("creator"), message).unwrap();
    store
}

#[test]
fn ranking_with_ties_prefers_the_later_registrant() {
    let mut store = fresh_pool();
    deposit(&mut store, "aaa", 10);
    deposit(&mut store, "bbb", 20);
    deposit(&mut store, "ccc", 5);
    deposit(&mut store, "ddd", 20);

    let top = query_top_users(&store).unwrap();
    assert_eq!(top.len(), 2);
    assert_eq!(top[0], UserInfo { address: "ddd".to_string(), amount: 20 });
    assert_eq!(top[1], UserInfo { address: "bbb".to_string(), amount: 20 });
}

#[test]
fn ranking_with_two_users_is_descending() {
    let mut store = fresh_pool();
    deposit(&mut store, "aaa", 3);
    deposit(&mut store, "bbb", 9);
    let top = query_top_users(&store).unwrap();
    assert_eq!(
        top,
        [
            UserInfo { address: "bbb".to_string(), amount: 9 },
            UserInfo { address: "aaa".to_string(), amount: 3 },
        ]
    );
}

#[test]
fn ranking_with_one_user_returns_that_record() {
    let mut store = fresh_pool();
    deposit(&mut store, "solo", 4);
    let top = query_top_users(&store).unwrap();
    assert_eq!(top, [UserInfo { address: "solo".to_string(), amount: 4 }]);
}

#[test]
fn ranking_with_no_users_fails_explicitly() {
    let store = fresh_pool();
    let err = query_top_users(&store).unwrap_err();
    assert_eq!(err, ContractError::CorruptedState);
}

#[test]
fn pool_total_matches_sum_of_balances() {
    let mut store = fresh_pool();
    deposit(&mut store, "aaa", 10);
    deposit(&mut store, "bbb", 20);
    deposit(&mut store, "ccc", 5);
    execute(
        &mut store,
        String::from("pool"),
        String::from("bbb"),
        ExecuteMsg::Withdraw { amount: 15 },
    )
    .unwrap();
    let state = config_read(&store).unwrap();
    assert_eq!(state.total_money, 10 + 5 + 5);
}

#[test]
fn users_enumerate_in_ascending_identity_order() {
    let mut store = fresh_pool();
    deposit(&mut store, "bob", 2);
    deposit(&mut store, "alice", 1);
    deposit(&mut store, "carol", 3);
    match query(&store, QueryMsg::GetAllUsers {}).unwrap() {
        QueryAnswer::AllUsers(users) => {
            assert_eq!(users, ["alice", "bob", "carol"]);
        }
        other => panic!("unexpected answer: {:?}", other),
    }
}

#[test]
fn query_router_dispatches_each_request() {
    let mut store = fresh_pool();
    deposit(&mut store, "alice", 6);

    match query(&store, QueryMsg::GetTokenAddress {}).unwrap() {
        QueryAnswer::TokenAddress(addr) => assert_eq!(addr, "token"),
        other => panic!("unexpected answer: {:?}", other),
    }
    match query(&store, QueryMsg::GetUserInfo { address: "alice".to_string() }).unwrap() {
        QueryAnswer::User(u) => assert_eq!(u, UserInfo { address: "alice".to_string(), amount: 6 }),
        other => panic!("unexpected answer: {:?}", other),
    }
    match query(&store, QueryMsg::GetBalance { address: "alice".to_string() }).unwrap() {
        QueryAnswer::Balance(b) => {
            assert_eq!(b.token_address, "token");
            assert_eq!(b.address, "alice");
        }
        other => panic!("unexpected answer: {:?}", other),
    }
    match query(&store, QueryMsg::GetTopUsers {}).unwrap() {
        QueryAnswer::TopUsers(v) => {
            assert_eq!(v, [UserInfo { address: "alice".to_string(), amount: 6 }]);
        }
        other => panic!("unexpected answer: {:?}", other),
    }
    let err = query(&store, QueryMsg::GetUserInfo { address: "ghost".to_string() }).unwrap_err();
    assert_eq!(err, ContractError::CorruptedState);
    let err = query(&store, QueryMsg::GetUserInfo { address: "BAD!".to_string() }).unwrap_err();
    assert_eq!(err, ContractError::InvalidAddress);
}
