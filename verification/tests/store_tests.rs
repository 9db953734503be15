use pool_ledger::error::ContractError;
use pool_ledger::state::{
    config, config_read, read_token_address, read_user_info, read_users, store_token_address,
    store_users, State, Store, UserInfo,
};

#[test]
fn singletons_start_unset_and_overwrite() {
    let mut store = Store::new();
    assert_eq!(config_read(&store).unwrap_err(), ContractError::Uninitialized);
    assert_eq!(read_token_address(&store).unwrap_err(), ContractError::Uninitialized);

    config(&mut store, State { total_money: 7 });
    assert_eq!(config_read(&store).unwrap(), State { total_money: 7 });
    config(&mut store, State { total_money: 9 });
    assert_eq!(config_read(&store).unwrap(), State { total_money: 9 });

    store_token_address(&mut store, String::from("tok_one"));
    assert_eq!(read_token_address(&store).unwrap(), "tok_one");
    store_token_address(&mut store, String::from("tok_two"));
    assert_eq!(read_token_address(&store).unwrap(), "tok_two");
}

#[test]
fn user_records_create_overwrite_and_enumerate_sorted() {
    let mut store = Store::new();
    assert!(read_user_info(&store, &String::from("bob")).is_none());

    let bob = String::from("bob");
    store_users(&mut store, &bob, UserInfo { address: "bob".to_string(), amount: 5 });
    let alice = String::from("alice");
    store_users(&mut store, &alice, UserInfo { address: "alice".to_string(), amount: 3 });
    let carol = String::from("carol");
    store_users(&mut store, &carol, UserInfo { address: "carol".to_string(), amount: 8 });

    assert_eq!(read_users(&store), ["alice", "bob", "carol"]);
    assert_eq!(
        read_user_info(&store, &bob).unwrap(),
        UserInfo { address: "bob".to_string(), amount: 5 }
    );

    // Overwriting keeps one record per identity.
    store_users(&mut store, &bob, UserInfo { address: "bob".to_string(), amount: 6 });
    assert_eq!(read_users(&store), ["alice", "bob", "carol"]);
    assert_eq!(
        read_user_info(&store, &bob).unwrap(),
        UserInfo { address: "bob".to_string(), amount: 6 }
    );
    assert!(read_user_info(&store, &String::from("dave")).is_none());
}

#[test]
fn identity_order_puts_a_prefix_first() {
    let mut store = Store::new();
    let ab = String::from("ab");
    store_users(&mut store, &ab, UserInfo { address: "ab".to_string(), amount: 1 });
    let abc = String::from("abc");
    store_users(&mut store, &abc, UserInfo { address: "abc".to_string(), amount: 2 });
    let a = String::from("a");
    store_users(&mut store, &a, UserInfo { address: "a".to_string(), amount: 3 });
    assert_eq!(read_users(&store), ["a", "ab", "abc"]);
}
