//! The store primitives: cursor seeding and bumping, the two upsert
//! transactions, and the sparse-skip query.

use nft_indexer::data::{Chain, IndexedType, LogRow, TokenRow, Standard};
use nft_indexer::store::Store;

const CHAIN: Chain = Chain::ZksyncEraTestnet;

fn log_at(block_number: i64, log_index: i64, tag: &str) -> LogRow {
    LogRow {
        block_number,
        log_index,
        tx_hash: format!("0xhash-{}", tag),
        address: format!("0x{}", "aa".repeat(20)),
        topics: vec![
            String::from("0xsig"),
            String::from("0xfrom"),
            String::from("0xto"),
            String::from("0xid"),
        ],
        data: Vec::new(),
    }
}

fn token(token_id: &str, owner: &str) -> TokenRow {
    TokenRow {
        chain: CHAIN,
        token_id: String::from(token_id),
        contract: format!("0x{}", "bb".repeat(20)),
        owner: String::from(owner),
        standard: Standard::Erc721,
    }
}

#[test]
fn seed_and_read_state() {
    let mut store = Store::new();
    assert_eq!(store.get_state(CHAIN, IndexedType::Log), None);
    store.seed_state(CHAIN, IndexedType::Log, 100);
    store.seed_state(CHAIN, IndexedType::Token, 90);
    assert_eq!(store.get_state(CHAIN, IndexedType::Log), Some(100));
    assert_eq!(store.get_state(CHAIN, IndexedType::Token), Some(90));
}

#[test]
fn set_state_without_row_reports_failure() {
    let mut store = Store::new();
    assert!(!store.set_state(CHAIN, IndexedType::Log, 7));
    assert_eq!(store.get_state(CHAIN, IndexedType::Log), None);
    store.seed_state(CHAIN, IndexedType::Log, 1);
    assert!(store.set_state(CHAIN, IndexedType::Log, 7));
    assert_eq!(store.get_state(CHAIN, IndexedType::Log), Some(7));
}

#[test]
fn upsert_log_twice_keeps_one_row() {
    let mut store = Store::new();
    store.seed_state(CHAIN, IndexedType::Log, 0);
    let row = log_at(42, 1, "a");
    assert_eq!(store.tx_upsert_log_and_advance(CHAIN, &row), 42);
    assert_eq!(store.tx_upsert_log_and_advance(CHAIN, &row), 42);
    assert_eq!(store.tx_upsert_log_and_advance(CHAIN, &row), 42);
    assert_eq!(store.logs_len(), 1);
    assert_eq!(store.get_state(CHAIN, IndexedType::Log), Some(42));
}

#[test]
fn upsert_log_conflict_keeps_first_row() {
    let mut store = Store::new();
    store.seed_state(CHAIN, IndexedType::Log, 0);
    store.tx_upsert_log_and_advance(CHAIN, &log_at(42, 1, "first"));
    store.tx_upsert_log_and_advance(CHAIN, &log_at(42, 1, "second"));
    assert_eq!(store.logs_len(), 1);
    let stored = store.find_log(42, 1).expect("row must exist");
    assert_eq!(stored.tx_hash, "0xhash-first");
}

#[test]
fn upsert_token_twice_keeps_one_row_and_first_owner() {
    let mut store = Store::new();
    store.seed_state(CHAIN, IndexedType::Token, 0);
    let first = token("0x01", "0xalice");
    let again = token("0x01", "0xbob");
    assert_eq!(store.tx_upsert_token_and_advance(CHAIN, &first, 5), (5, true));
    assert_eq!(store.tx_upsert_token_and_advance(CHAIN, &again, 6), (6, true));
    assert_eq!(store.tokens_len(), 1);
    let stored = store
        .find_token(CHAIN, &first.token_id, &first.contract)
        .expect("row must exist");
    assert_eq!(stored.owner, "0xalice");
    assert_eq!(store.get_state(CHAIN, IndexedType::Token), Some(6));
}

#[test]
fn next_block_sparse_skip() {
    let mut store = Store::new();
    store.seed_state(CHAIN, IndexedType::Log, 0);
    for (block_number, log_index) in [(50, 0), (200, 0), (201, 0)] {
        store.tx_upsert_log_and_advance(CHAIN, &log_at(block_number, log_index, "x"));
    }
    assert_eq!(store.next_block(50), 200);
    assert_eq!(store.next_block(51), 200);
    assert_eq!(store.next_block(200), 201);
}

#[test]
fn next_block_without_newer_row_stays_put() {
    let mut store = Store::new();
    assert_eq!(store.next_block(10), 10);
    store.seed_state(CHAIN, IndexedType::Log, 0);
    store.tx_upsert_log_and_advance(CHAIN, &log_at(201, 0, "x"));
    assert_eq!(store.next_block(201), 201);
    assert_eq!(store.next_block(500), 500);
}

#[test]
fn find_logs_at_block_orders_by_log_index() {
    let mut store = Store::new();
    store.seed_state(CHAIN, IndexedType::Log, 0);
    for log_index in [2, 0, 1] {
        store.tx_upsert_log_and_advance(CHAIN, &log_at(5, log_index, "x"));
    }
    store.tx_upsert_log_and_advance(CHAIN, &log_at(6, 0, "other-block"));
    let rows = store.find_logs_at_block(5);
    let indices: Vec<i64> = rows.iter().map(|r| r.log_index).collect();
    assert_eq!(indices, vec![0, 1, 2]);
    assert!(rows.iter().all(|r| r.block_number == 5));
}
