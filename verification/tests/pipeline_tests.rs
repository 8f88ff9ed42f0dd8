//! End-to-end passes of the two pipelines over the store model.

use nft_indexer::address::{check_standard, ERC165DerivedOrNot, ProbeOutcome, TransportError};
use nft_indexer::data::{Chain, IndexedType, LogRow};
use nft_indexer::indexer;
use nft_indexer::store::Store;

const CHAIN: Chain = Chain::ZksyncEraTestnet;

fn transfer_log(block_number: i64, log_index: i64, contract: &str, to: &str, id: &str) -> LogRow {
    LogRow {
        block_number,
        log_index,
        tx_hash: format!("0xtx-{}-{}", block_number, log_index),
        address: String::from(contract),
        topics: vec![
            String::from("0xsignature"),
            String::from("0xfrom"),
            String::from(to),
            String::from(id),
        ],
        data: Vec::new(),
    }
}

fn seeded_store(log_cursor: i64, token_cursor: i64) -> Store {
    let mut store = Store::new();
    store.seed_state(CHAIN, IndexedType::Log, log_cursor);
    store.seed_state(CHAIN, IndexedType::Token, token_cursor);
    store
}

#[test]
fn happy_path_erc721() {
    let mut store = seeded_store(100, 100);
    let ix = indexer::new(CHAIN);
    let contract = format!("0x{}", "aa".repeat(20));
    let to = format!("0x{}b1", "0".repeat(62));
    let id = format!("0x{}1", "0".repeat(63));
    let batch = vec![transfer_log(105, 0, &contract, &to, &id)];

    let last = ix.index_logs_batch(&mut store, &batch, 100);
    assert_eq!(last, 105);
    assert_eq!(store.logs_len(), 1);
    assert_eq!(store.get_state(CHAIN, IndexedType::Log), Some(105));

    let rows = store.find_logs_at_block(105);
    assert_eq!(rows.len(), 1);
    let classes = vec![check_standard(ProbeOutcome::Supported, ProbeOutcome::NotSupported)];
    let (next, completed) = ix.process_token_block(&mut store, &rows, &classes, 105);
    assert!(completed);
    assert_eq!(next, 105);

    let stored = store.find_token(CHAIN, &id, &contract).expect("token row must exist");
    assert_eq!(stored.owner, to);
    assert_eq!(stored.standard, nft_indexer::data::Standard::Erc721);
    assert_eq!(store.tokens_len(), 1);
    assert!(store.get_state(CHAIN, IndexedType::Log).unwrap() >= 105);
    assert!(store.get_state(CHAIN, IndexedType::Token).unwrap() >= 105);
}

#[test]
fn single_erc1155_transfer() {
    let mut store = seeded_store(210, 200);
    let ix = indexer::new(CHAIN);
    let contract = format!("0x{}", "bb".repeat(20));
    let to = format!("0x{}70", "0".repeat(62));
    let mut log = transfer_log(210, 0, &contract, "0xoperator-slot", "unused");
    log.topics = vec![
        String::from("0xsignature"),
        String::from("0xoperator"),
        String::from("0xfrom"),
        to.clone(),
    ];
    // abi-encode(uint256 id = 7, uint256 value = 3)
    let mut data = vec![0u8; 64];
    data[31] = 7;
    data[63] = 3;
    log.data = data;

    store.tx_upsert_log_and_advance(CHAIN, &log);
    let rows = store.find_logs_at_block(210);
    let classes = vec![check_standard(ProbeOutcome::NotSupported, ProbeOutcome::Supported)];
    let (_, completed) = ix.process_token_block(&mut store, &rows, &classes, 210);
    assert!(completed);

    let expected_id = format!("0x{}7", "0".repeat(63));
    let stored = store
        .find_token(CHAIN, &expected_id, &contract)
        .expect("token row must exist");
    assert_eq!(stored.owner, to);
    assert_eq!(stored.standard, nft_indexer::data::Standard::Erc1155);
}

#[test]
fn erc1155_short_payload_is_skipped() {
    let mut store = seeded_store(10, 0);
    let ix = indexer::new(CHAIN);
    let mut log = transfer_log(10, 0, "0xcontract", "0xto", "0xid");
    log.data = vec![0u8; 32];
    let r = ix.dump_token(&mut store, &log, Ok(ERC165DerivedOrNot::ERC1155));
    assert_eq!(r, Ok((10, false)));
    assert_eq!(store.tokens_len(), 0);
}

#[test]
fn non_erc_contract_still_advances_cursor() {
    let mut store = seeded_store(300, 250);
    let ix = indexer::new(CHAIN);
    let log = transfer_log(300, 0, "0xplain-contract", "0xto", "0xid");
    store.tx_upsert_log_and_advance(CHAIN, &log);

    let rows = store.find_logs_at_block(300);
    let classes = vec![check_standard(ProbeOutcome::Reverted, ProbeOutcome::Reverted)];
    assert_eq!(classes[0], Ok(ERC165DerivedOrNot::OTHER));
    let (next, completed) = ix.process_token_block(&mut store, &rows, &classes, 300);
    assert!(completed);
    assert_eq!(next, 300);
    assert_eq!(store.tokens_len(), 0);
    assert_eq!(store.get_state(CHAIN, IndexedType::Token), Some(300));
}

#[test]
fn transport_error_writes_nothing_and_fails_the_pass() {
    let mut store = seeded_store(20, 10);
    let ix = indexer::new(CHAIN);
    let log = transfer_log(20, 0, "0xcontract", "0xto", "0xid");
    store.tx_upsert_log_and_advance(CHAIN, &log);

    let rows = store.find_logs_at_block(20);
    let classes: Vec<Result<ERC165DerivedOrNot, TransportError>> = vec![
        check_standard(ProbeOutcome::TransportFailed, ProbeOutcome::TransportFailed),
    ];
    let (next, completed) = ix.process_token_block(&mut store, &rows, &classes, 20);
    assert!(!completed);
    assert_eq!(next, 20);
    assert_eq!(store.tokens_len(), 0);
    assert_eq!(store.get_state(CHAIN, IndexedType::Token), Some(10));

    // the retry the pipeline owes after a transport failure
    let retry = vec![check_standard(ProbeOutcome::Supported, ProbeOutcome::NotSupported)];
    let (_, completed) = ix.process_token_block(&mut store, &rows, &retry, 20);
    assert!(completed);
    assert_eq!(store.tokens_len(), 1);
}

#[test]
fn empty_batch_does_not_advance_log_cursor() {
    let mut store = seeded_store(100, 100);
    let ix = indexer::new(CHAIN);
    let last = ix.index_logs_batch(&mut store, &Vec::new(), 100);
    assert_eq!(last, 100);
    assert_eq!(store.logs_len(), 0);
    assert_eq!(store.get_state(CHAIN, IndexedType::Log), Some(100));
}

#[test]
fn rpc_flake_then_success() {
    let mut store = seeded_store(100, 100);
    let ix = indexer::new(CHAIN);
    // first get_logs failed at the transport: the host retries without
    // touching the store, so nothing may have changed
    assert_eq!(store.logs_len(), 0);
    assert_eq!(store.get_state(CHAIN, IndexedType::Log), Some(100));
    // the second call succeeded with one log
    let batch = vec![transfer_log(101, 0, "0xcontract", "0xto", "0xid")];
    let last = ix.index_logs_batch(&mut store, &batch, 100);
    assert_eq!(last, 101);
    assert_eq!(store.logs_len(), 1);
    assert_eq!(store.get_state(CHAIN, IndexedType::Log), Some(101));
}

#[test]
fn mid_batch_failure_keeps_prefix_and_cursor() {
    let mut store = seeded_store(0, 0);
    let ix = indexer::new(CHAIN);
    let a = transfer_log(10, 0, "0xcontract", "0xto", "0xa");
    let b = transfer_log(11, 0, "0xcontract", "0xto", "0xb");
    let c = transfer_log(12, 0, "0xcontract", "0xto", "0xc");
    // the database accepted A ...
    ix.dump_log(&mut store, &a);
    // ... failed on B, so the host broke out before C
    let _ = (&b, &c);
    assert!(store.find_log(10, 0).is_some());
    assert!(store.find_log(11, 0).is_none());
    assert!(store.find_log(12, 0).is_none());
    assert_eq!(store.logs_len(), 1);
    assert_eq!(store.get_state(CHAIN, IndexedType::Log), Some(10));
}

#[test]
fn dump_token_is_idempotent() {
    let mut store = seeded_store(105, 100);
    let ix = indexer::new(CHAIN);
    let contract = format!("0x{}", "cc".repeat(20));
    let log = transfer_log(105, 0, &contract, "0xowner", "0xidvalue");
    let class = Ok(ERC165DerivedOrNot::ERC721);
    assert_eq!(ix.dump_token(&mut store, &log, class), Ok((105, true)));
    assert_eq!(ix.dump_token(&mut store, &log, class), Ok((105, true)));
    assert_eq!(store.tokens_len(), 1);
    assert_eq!(store.get_state(CHAIN, IndexedType::Token), Some(105));
}

#[test]
fn empty_block_step_sparse_skips_when_logs_are_ahead() {
    let mut store = seeded_store(200, 50);
    let ix = indexer::new(CHAIN);
    store.tx_upsert_log_and_advance(CHAIN, &transfer_log(200, 0, "0xcontract", "0xto", "0xid"));
    // the token pipeline trails the log cursor: skip to the next
    // populated block
    assert_eq!(ix.empty_block_step(&store, 50), 200);
    // caught up: stay put
    assert_eq!(ix.empty_block_step(&store, 200), 200);
    assert_eq!(ix.empty_block_step(&store, 250), 250);
}

#[test]
fn get_indexed_block_reads_the_seed() {
    let mut store = Store::new();
    store.seed_state(CHAIN, IndexedType::Token, 77);
    let ix = indexer::new(CHAIN);
    assert_eq!(ix.get_indexed_block(&store, IndexedType::Token), 77);
}

#[test]
fn to_block_spans_the_query_width() {
    let ix = indexer::new(CHAIN);
    assert_eq!(ix.max_blocks_per_query, 1000);
    assert_eq!(ix.to_block(100), 1100);
}
