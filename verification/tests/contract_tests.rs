use pool_ledger::contract::{execute, instantiate, query_get_address, query_top_users, query_user_info, query_get_users};
use pool_ledger::error::ContractError;
use pool_ledger::msg::{ExecuteMsg, InstantiateMsg, TokenMsg, WasmInstruction};
use pool_ledger::state::{Store, UserInfo};

#[test]
fn buy_token() {
    let mut store = Store::new();
    let res = instantiate(&mut store, InstantiateMsg {}).unwrap();
    assert_eq!(0, res.messages.len());

    let address = String::from("token_address");
    let message = ExecuteMsg::SetTokenAddress { address };
    execute(&mut store, String::from("pool"), String::from("creator"), message).unwrap();

    let res = query_get_address(&store).unwrap();
    assert_eq!(res, "token_address");

    let amount: u128 = 100;
    let message = ExecuteMsg::BuyToken { amount };
    let res = execute(&mut store, String::from("pool"), String::from("sender"), message).unwrap();
    assert_eq!(
        res.messages[0],
        WasmInstruction {
            contract_addr: String::from("token_address"),
            msg: TokenMsg::Mint { recipient: String::from("sender"), amount: 100 },
        }
    );
}

#[test]
fn deposit_and_withdraw() {
    let mut store = Store::new();
    let res = instantiate(&mut store, InstantiateMsg {}).unwrap();
    assert_eq!(0, res.messages.len());

    let address = String::from("token_address");
    let message = ExecuteMsg::SetTokenAddress { address };
    execute(&mut store, String::from("pool"), String::from("creator"), message).unwrap();

    let msg = ExecuteMsg::Deposit { amount: 10 };
    let res = execute(&mut store, String::from("pool"), String::from("sender0"), msg).unwrap();
    assert_eq!(res.messages.len(), 1);

    let msg = ExecuteMsg::Deposit { amount: 20 };
    execute(&mut store, String::from("pool"), String::from("sender1"), msg).unwrap();
    let user = query_user_info(&store, "sender0".to_string()).unwrap();
    assert_eq!(user, UserInfo { address: "sender0".to_string(), amount: 10 });

    let msg = ExecuteMsg::Deposit { amount: 5 };
    execute(&mut store, String::from("pool"), String::from("sender2"), msg).unwrap();

    let msg = ExecuteMsg::Deposit { amount: 20 };
    execute(&mut store, String::from("pool"), String::from("sender3"), msg).unwrap();
    let users = query_get_users(&store);

    assert_eq!(users, ["sender0", "sender1", "sender2", "sender3"]);

    let address = String::from("token_address");
    let message = ExecuteMsg::SetTokenAddress { address };
    execute(&mut store, String::from("pool"), String::from("creator"), message).unwrap();

    let msg = ExecuteMsg::Withdraw { amount: 5 };
    let res = execute(&mut store, String::from("pool"), String::from("sender1"), msg).unwrap();
    let user = query_user_info(&store, "sender1".to_string()).unwrap();
    assert_eq!(user, UserInfo { address: "sender1".to_string(), amount: 15 });
    assert_eq!(res.messages.len(), 1);
    assert_eq!(
        res.messages[0],
        WasmInstruction {
            contract_addr: String::from("token_address"),
            msg: TokenMsg::Transfer { recipient: String::from("sender1"), amount: 5 },
        }
    );
    let top_users = query_top_users(&store).unwrap();
    assert_eq!(
        top_users,
        [
            UserInfo { address: "sender3".to_string(), amount: 20 },
            UserInfo { address: "sender1".to_string(), amount: 15 },
        ]
    );
}

#[test]
fn deposit_message_pulls_from_sender_to_pool() {
    let mut store = Store::new();
    instantiate(&mut store, InstantiateMsg {}).unwrap();
    let message = ExecuteMsg::SetTokenAddress { address: String::from("token_address") };
    execute(&mut store, String::from("pool"), String::from("creator"), message).unwrap();

    let msg = ExecuteMsg::Deposit { amount: 42 };
    let res = execute(&mut store, String::from("pool"), String::from("alice"), msg).unwrap();
    assert_eq!(
        res.messages[0],
        WasmInstruction {
            contract_addr: String::from("token_address"),
            msg: TokenMsg::TransferFrom {
                owner: String::from("alice"),
                recipient: String::from("pool"),
                amount: 42,
            },
        }
    );
}

#[test]
fn deposit_twice_equals_one_deposit_of_the_sum() {
    let mut split = Store::new();
    instantiate(&mut split, InstantiateMsg {}).unwrap();
    let message = ExecuteMsg::SetTokenAddress { address: String::from("token") };
    execute(&mut split, String::from("pool"), String::from("creator"), message).unwrap();
    execute(&mut split, String::from("pool"), String::from("alice"), ExecuteMsg::Deposit { amount: 7 }).unwrap();
    execute(&mut split, String::from("pool"), String::from("alice"), ExecuteMsg::Deposit { amount: 8 }).unwrap();

    let mut once = Store::new();
    instantiate(&mut once, InstantiateMsg {}).unwrap();
    let message = ExecuteMsg::SetTokenAddress { address: String::from("token") };
    execute(&mut once, String::from("pool"), String::from("creator"), message).unwrap();
    execute(&mut once, String::from("pool"), String::from("alice"), ExecuteMsg::Deposit { amount: 15 }).unwrap();

    let a = query_user_info(&split, "alice".to_string()).unwrap();
    let b = query_user_info(&once, "alice".to_string()).unwrap();
    assert_eq!(a, b);
    assert_eq!(a.amount, 15);
}

#[test]
fn withdraw_boundary_exact_and_one_over() {
    let mut store = Store::new();
    instantiate(&mut store, InstantiateMsg {}).unwrap();
    let message = ExecuteMsg::SetTokenAddress { address: String::from("token") };
    execute(&mut store, String::from("pool"), String::from("creator"), message).unwrap();
    execute(&mut store, String::from("pool"), String::from("alice"), ExecuteMsg::Deposit { amount: 10 }).unwrap();

    // One over the balance fails and changes nothing.
    let err = execute(
        &mut store,
        String::from("pool"),
        String::from("alice"),
        ExecuteMsg::Withdraw { amount: 11 },
    )
    .unwrap_err();
    assert_eq!(err, ContractError::InsufficientFunds);
    let user = query_user_info(&store, "alice".to_string()).unwrap();
    assert_eq!(user.amount, 10);

    // Exactly the balance succeeds and leaves zero.
    execute(&mut store, String::from("pool"), String::from("alice"), ExecuteMsg::Withdraw { amount: 10 }).unwrap();
    let user = query_user_info(&store, "alice".to_string()).unwrap();
    assert_eq!(user.amount, 0);
    // The zero-balance record remains registered.
    assert_eq!(query_get_users(&store), ["alice"]);
}

#[test]
fn withdraw_unregistered_is_unauthorized() {
    let mut store = Store::new();
    instantiate(&mut store, InstantiateMsg {}).unwrap();
    let message = ExecuteMsg::SetTokenAddress { address: String::from("token") };
    execute(&mut store, String::from("pool"), String::from("creator"), message).unwrap();

    let err = execute(
        &mut store,
        String::from("pool"),
        String::from("nobody"),
        ExecuteMsg::Withdraw { amount: 1 },
    )
    .unwrap_err();
    assert_eq!(err, ContractError::Unauthorized);
    assert_eq!(query_get_users(&store).len(), 0);
}

#[test]
fn execute_before_instantiate_is_uninitialized() {
    let mut store = Store::new();
    let err = execute(
        &mut store,
        String::from("pool"),
        String::from("alice"),
        ExecuteMsg::Deposit { amount: 1 },
    )
    .unwrap_err();
    assert_eq!(err, ContractError::Uninitialized);
}

#[test]
fn buy_before_token_registration_is_uninitialized() {
    let mut store = Store::new();
    instantiate(&mut store, InstantiateMsg {}).unwrap();
    let err = execute(
        &mut store,
        String::from("pool"),
        String::from("buyer"),
        ExecuteMsg::BuyToken { amount: 3 },
    )
    .unwrap_err();
    assert_eq!(err, ContractError::Uninitialized);
}

#[test]
fn set_token_address_rejects_malformed_identity() {
    let mut store = Store::new();
    instantiate(&mut store, InstantiateMsg {}).unwrap();
    let message = ExecuteMsg::SetTokenAddress { address: String::from("Bad Address!") };
    let err = execute(&mut store, String::from("pool"), String::from("creator"), message)
        .unwrap_err();
    assert_eq!(err, ContractError::InvalidAddress);
    assert!(query_get_address(&store).is_err());
}

#[test]
fn deposit_of_zero_registers_the_user() {
    let mut store = Store::new();
    instantiate(&mut store, InstantiateMsg {}).unwrap();
    let message = ExecuteMsg::SetTokenAddress { address: String::from("token") };
    execute(&mut store, String::from("pool"), String::from("creator"), message).unwrap();
    execute(&mut store, String::from("pool"), String::from("alice"), ExecuteMsg::Deposit { amount: 0 }).unwrap();
    let user = query_user_info(&store, "alice".to_string()).unwrap();
    assert_eq!(user, UserInfo { address: "alice".to_string(), amount: 0 });
}
