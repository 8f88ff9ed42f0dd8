//! The classifier decision table, chain-name parsing, and the string
//! helpers.

use nft_indexer::address::{check_standard, h256_to_h160, ERC165DerivedOrNot, ProbeOutcome};
use nft_indexer::data::Chain;
use nft_indexer::hex::word_hex_string;
use nft_indexer::util::parse_chain;

#[test]
fn check_standard_erc721_dominates() {
    assert_eq!(
        check_standard(ProbeOutcome::Supported, ProbeOutcome::Supported),
        Ok(ERC165DerivedOrNot::ERC721)
    );
    assert_eq!(
        check_standard(ProbeOutcome::Supported, ProbeOutcome::TransportFailed),
        Ok(ERC165DerivedOrNot::ERC721)
    );
}

#[test]
fn check_standard_erc1155() {
    assert_eq!(
        check_standard(ProbeOutcome::NotSupported, ProbeOutcome::Supported),
        Ok(ERC165DerivedOrNot::ERC1155)
    );
    assert_eq!(
        check_standard(ProbeOutcome::TransportFailed, ProbeOutcome::Supported),
        Ok(ERC165DerivedOrNot::ERC1155)
    );
}

#[test]
fn check_standard_denial_is_other() {
    assert_eq!(
        check_standard(ProbeOutcome::NotSupported, ProbeOutcome::NotSupported),
        Ok(ERC165DerivedOrNot::OTHER)
    );
    assert_eq!(
        check_standard(ProbeOutcome::NotSupported, ProbeOutcome::Reverted),
        Ok(ERC165DerivedOrNot::OTHER)
    );
    assert_eq!(
        check_standard(ProbeOutcome::TransportFailed, ProbeOutcome::NotSupported),
        Ok(ERC165DerivedOrNot::OTHER)
    );
}

#[test]
fn check_standard_revert_is_other() {
    assert_eq!(
        check_standard(ProbeOutcome::Reverted, ProbeOutcome::Reverted),
        Ok(ERC165DerivedOrNot::OTHER)
    );
    assert_eq!(
        check_standard(ProbeOutcome::Reverted, ProbeOutcome::TransportFailed),
        Ok(ERC165DerivedOrNot::OTHER)
    );
    assert_eq!(
        check_standard(ProbeOutcome::TransportFailed, ProbeOutcome::Reverted),
        Ok(ERC165DerivedOrNot::OTHER)
    );
}

#[test]
fn check_standard_double_transport_failure_is_error() {
    assert!(check_standard(ProbeOutcome::TransportFailed, ProbeOutcome::TransportFailed).is_err());
}

#[test]
fn parse_chain_accepts_known_names() {
    assert_eq!(parse_chain("ZKSYNC_ERA_TESTNET"), Some(Chain::ZksyncEraTestnet));
    assert_eq!(parse_chain("zksync-era-testnet"), Some(Chain::ZksyncEraTestnet));
    assert_eq!(parse_chain("Zksync_Era-Testnet"), Some(Chain::ZksyncEraTestnet));
}

#[test]
fn parse_chain_rejects_unknown_names() {
    assert_eq!(parse_chain("mainnet"), None);
    assert_eq!(parse_chain(""), None);
    assert_eq!(parse_chain("zksync era testnet"), None);
    assert_eq!(parse_chain("zksync-era-testnet-2"), None);
}

#[test]
fn h256_to_h160_strips_topic_padding() {
    let topic = format!("0x{}{}", "0".repeat(24), "ab".repeat(20));
    let expected = format!("0x{}", "ab".repeat(20));
    assert_eq!(h256_to_h160(&topic), expected);
}

#[test]
fn h256_to_h160_leaves_short_padding_alone() {
    let not_padded = format!("0x{}1{}", "0".repeat(23), "ab".repeat(20));
    assert_eq!(h256_to_h160(&not_padded), not_padded);
    let address = format!("0x{}", "cd".repeat(20));
    assert_eq!(h256_to_h160(&address), address);
}

#[test]
fn word_hex_renders_left_padded_id() {
    let mut data = vec![0u8; 64];
    data[31] = 7;
    data[63] = 3;
    let expected = format!("0x{}7", "0".repeat(63));
    assert_eq!(word_hex_string(&data), expected);
}

#[test]
fn word_hex_renders_every_nibble() {
    let mut data = vec![0u8; 32];
    data[30] = 0x1a;
    data[31] = 0xf0;
    let expected = format!("0x{}1af0", "0".repeat(60));
    assert_eq!(word_hex_string(&data), expected);
}
