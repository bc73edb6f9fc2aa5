use gaspipe::environment::{ExecutionEnvironment, Hardfork};
use gaspipe::execute::{BatchError, EngineOutcome, Transaction, execute};
use gaspipe::numeric::{Address, U256};
use gaspipe::store::{AccountState, ForkedStateStore, SlotKey, StateTable, StateWrite};
use gaspipe::{Opt, rocket};

fn a(lo: u128) -> Address {
    Address { hi: 0, lo }
}

fn u(lo: u128) -> U256 {
    U256 { hi: 0, lo }
}

fn key(addr_lo: u128, slot_lo: u128) -> SlotKey {
    SlotKey { addr: a(addr_lo), key: u(slot_lo) }
}

fn account(balance: u128, nonce: u64) -> AccountState {
    AccountState { balance: u(balance), nonce, code: vec![] }
}

fn snapshot() -> ForkedStateStore {
    let mut s = ForkedStateStore::fork(StateTable::new());
    s.insert_remote_account(a(1), Some(account(100, 3)));
    s.insert_remote_slot(key(9, 1), Some(u(50)));
    s
}

#[test]
fn test_store_overlay_preferred_over_lower() {
    let mut s = snapshot();
    assert_eq!(s.read_account(&a(1)).unwrap().balance, u(100));
    s.write_account(a(1), account(70, 4));
    let acc = s.read_account(&a(1)).unwrap();
    assert_eq!(acc.balance, u(70));
    assert_eq!(acc.nonce, 4);

    assert_eq!(s.read_slot(&key(9, 1)), Some(u(50)));
    s.write_slot(key(9, 1), u(8));
    assert_eq!(s.read_slot(&key(9, 1)), Some(u(8)));
}

#[test]
fn test_store_missing_record_needs_fetch() {
    let mut s = snapshot();
    assert!(s.read_account(&a(2)).is_none());
    assert!(s.read_slot(&key(9, 2)).is_none());
    // The remote has no record either: the canonical defaults are pinned.
    s.insert_remote_account(a(2), None);
    s.insert_remote_slot(key(9, 2), None);
    let acc = s.read_account(&a(2)).unwrap();
    assert_eq!(acc.balance, u(0));
    assert_eq!(acc.nonce, 0);
    assert!(acc.code.is_empty());
    assert_eq!(s.read_slot(&key(9, 2)), Some(u(0)));
}

#[test]
fn test_store_writes_in_order_last_wins() {
    let mut s = snapshot();
    let writes = vec![
        StateWrite::Slot { key: key(9, 5), value: u(1) },
        StateWrite::Slot { key: key(9, 5), value: u(2) },
        StateWrite::Account { addr: a(4), account: account(11, 0) },
    ];
    s.apply_writes(&writes);
    assert_eq!(s.read_slot(&key(9, 5)), Some(u(2)));
    assert_eq!(s.read_account(&a(4)).unwrap().balance, u(11));
}

fn env() -> ExecutionEnvironment {
    ExecutionEnvironment {
        chain_id: 1,
        hardfork: Hardfork::Latest,
        gas_limit: 30_000_000,
        base_fee: Some(1000),
        gas_price: 1,
    }
}

fn transfer(value_lo: u128) -> Transaction {
    Transaction { from: a(1), to: a(2), data: vec![], value: u(value_lo) }
}

#[test]
fn test_execute_reports_each_outcome_in_order() {
    let txs = vec![transfer(5), transfer(6)];
    let outcomes = vec![
        EngineOutcome::Completed { gas_used: 21000, reverted: false, writes: vec![] },
        EngineOutcome::Completed { gas_used: 30000, reverted: true, writes: vec![] },
    ];
    let r = execute(env(), snapshot(), txs, &outcomes).unwrap();
    assert_eq!(r.len(), 2);
    assert_eq!(r[0].gas, 21000);
    assert!(!r[0].reverted);
    assert_eq!(r[1].gas, 30000);
    assert!(r[1].reverted);
}

#[test]
fn test_execute_fails_whole_batch_on_engine_failure() {
    let txs = vec![transfer(5), transfer(6)];
    let outcomes = vec![
        EngineOutcome::Completed { gas_used: 21000, reverted: false, writes: vec![] },
        EngineOutcome::Failed,
    ];
    let r = execute(env(), snapshot(), txs, &outcomes);
    assert_eq!(r, Err(BatchError::EngineFailure));
}

#[test]
fn test_rocket_holds_the_configuration() {
    let s = rocket(Opt { fork_url: "http://localhost:8545".to_string() });
    assert_eq!(s.opt.fork_url, "http://localhost:8545");
}
