//! Contract classification: the ERC-165 probe outcomes, the decision
//! table that folds two probes into a standard, and the narrowing of a
//! 32-byte topic to a 20-byte address.

use vstd::prelude::*;

verus! {

/// What one ERC-165 `supportsInterface` probe came back with.
#[derive(Clone, Copy, PartialEq, Eq, Structural, Debug)]
pub enum ProbeOutcome {
    /// The call succeeded and answered `true`.
    Supported,
    /// The call succeeded and answered `false`.
    NotSupported,
    /// The contract reverted: it does not speak ERC-165, or threw.
    Reverted,
    /// The call never got an answer from the chain.
    TransportFailed,
}

/// Both probes failed at the transport level; nothing could be learnt
/// about the contract, and the caller must retry.
#[derive(Clone, Copy, PartialEq, Eq, Structural, Debug)]
pub struct TransportError;

/// How a contract answered the two interface probes.
#[derive(Clone, Copy, PartialEq, Eq, Structural, Debug)]
pub enum ERC165DerivedOrNot {
    ERC721,
    ERC1155,
    OTHER,
}

/// The classifier's decision table, applied in order: a positive
/// ERC-721 answer dominates, then a positive ERC-1155 answer, then any
/// definite denial, then any revert; only two transport failures are an
/// error.
pub open spec fn spec_check_standard(erc721: ProbeOutcome, erc1155: ProbeOutcome) -> Result<
    ERC165DerivedOrNot,
    TransportError,
> {
    if erc721 == ProbeOutcome::Supported {
        Ok(ERC165DerivedOrNot::ERC721)
    } else if erc1155 == ProbeOutcome::Supported {
        Ok(ERC165DerivedOrNot::ERC1155)
    } else if erc721 == ProbeOutcome::NotSupported || erc1155 == ProbeOutcome::NotSupported {
        Ok(ERC165DerivedOrNot::OTHER)
    } else if erc721 == ProbeOutcome::Reverted || erc1155 == ProbeOutcome::Reverted {
        Ok(ERC165DerivedOrNot::OTHER)
    } else {
        Err(TransportError)
    }
}

/// Folds the outcomes of the ERC-721 probe and the ERC-1155 probe into
/// a classification. Both probes are issued by the host regardless of
/// the first's outcome, so a failure on one is still classifiable when
/// the other answered.
pub fn check_standard(erc721: ProbeOutcome, erc1155: ProbeOutcome) -> (r: Result<
    ERC165DerivedOrNot,
    TransportError,
>)
    ensures
        r == spec_check_standard(erc721, erc1155),
{
    if erc721 == ProbeOutcome::Supported {
        Ok(ERC165DerivedOrNot::ERC721)
    } else if erc1155 == ProbeOutcome::Supported {
        Ok(ERC165DerivedOrNot::ERC1155)
    } else if erc721 == ProbeOutcome::NotSupported || erc1155 == ProbeOutcome::NotSupported {
        Ok(ERC165DerivedOrNot::OTHER)
    } else if erc721 == ProbeOutcome::Reverted || erc1155 == ProbeOutcome::Reverted {
        Ok(ERC165DerivedOrNot::OTHER)
    } else {
        Err(TransportError)
    }
}

/// A topic string carrying an address: `0x`, then 24 zero characters
/// (the 12 zero bytes of padding), then the address digits.
pub open spec fn zero_padded_topic(s: Seq<char>) -> bool {
    &&& s.len() >= 26
    &&& s[0] == '0'
    &&& s[1] == 'x'
    &&& forall|i: int| 2 <= i < 26 ==> s[i] == '0'
}

/// The narrowing of a 32-byte topic string to a 20-byte address string:
/// the 24 zero characters after the `0x` prefix are dropped; anything
/// not of that shape passes through unchanged.
pub open spec fn spec_h256_to_h160(s: Seq<char>) -> Seq<char> {
    if zero_padded_topic(s) {
        seq!['0', 'x'] + s.skip(26)
    } else {
        s
    }
}

/// Relies on `regex::Regex::replace` with the anchored pattern
/// `^0x0{24}`: it rewrites the leftmost match — here, only a prefix of
/// exactly `0x` followed by 24 `0`s — to `0x`, and returns any string
/// without such a prefix unchanged. The pattern is a valid expression,
/// so `Regex::new` cannot fail on it.
#[verifier::external_body]
fn replace_leading_zero_pad(s: &str) -> (r: String)
    ensures
        r@ == spec_h256_to_h160(s@),
{
    let pattern = regex::Regex::new("^0x0{24}").unwrap();
    pattern.replace(s, "0x").to_string()
}

/// Narrows a 32-byte topic rendered as a hex string to the 20-byte
/// address it carries, by stripping the 24-character zero padding; a
/// string of any other shape is returned unchanged. This is meant for
/// topics, never for `Logs.address`, which is already 20 bytes.
pub fn h256_to_h160(topic: &str) -> (r: String)
    ensures
        r@ == spec_h256_to_h160(topic@),
{
    replace_leading_zero_pad(topic)
}

} // verus!
