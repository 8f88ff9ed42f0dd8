//! The data model of the indexer: the chain identifier, the two cursor
//! names, the token standards, and the three table rows together with
//! their mathematical images.

use vstd::prelude::*;

verus! {

/// Identifier of a blockchain network; fixed for the life of a process.
#[derive(Clone, Copy, PartialEq, Eq, Structural, Debug)]
pub enum Chain {
    ZksyncEraTestnet,
}

/// Names one of the two persistent cursors kept in the `States` table.
#[derive(Clone, Copy, PartialEq, Eq, Structural, Debug)]
pub enum IndexedType {
    Log,
    Token,
}

/// The token standard recorded with every `Tokens` row.
#[derive(Clone, Copy, PartialEq, Eq, Structural, Debug)]
pub enum Standard {
    Erc721,
    Erc1155,
}

/// One observed transfer event, as persisted in the `Logs` table.
/// Primary key: `(block_number, log_index)`.
pub struct LogRow {
    pub block_number: i64,
    pub log_index: i64,
    pub tx_hash: String,
    pub address: String,
    pub topics: Vec<String>,
    pub data: Vec<u8>,
}

/// Mathematical image of a [`LogRow`].
#[verifier::ext_equal]
pub struct LogRowV {
    pub block_number: i64,
    pub log_index: i64,
    pub tx_hash: Seq<char>,
    pub address: Seq<char>,
    pub topics: Seq<Seq<char>>,
    pub data: Seq<u8>,
}

impl View for LogRow {
    type V = LogRowV;

    open spec fn view(&self) -> LogRowV {
        LogRowV {
            block_number: self.block_number,
            log_index: self.log_index,
            tx_hash: self.tx_hash@,
            address: self.address@,
            topics: self.topics.deep_view(),
            data: self.data@,
        }
    }
}

impl DeepView for LogRow {
    type V = LogRowV;

    open spec fn deep_view(&self) -> LogRowV {
        self.view()
    }
}

/// One materialised token, as persisted in the `Tokens` table.
/// Primary key: `(chain, token_id, contract)`.
pub struct TokenRow {
    pub chain: Chain,
    pub token_id: String,
    pub contract: String,
    pub owner: String,
    pub standard: Standard,
}

/// Mathematical image of a [`TokenRow`].
#[verifier::ext_equal]
pub struct TokenRowV {
    pub chain: Chain,
    pub token_id: Seq<char>,
    pub contract: Seq<char>,
    pub owner: Seq<char>,
    pub standard: Standard,
}

impl View for TokenRow {
    type V = TokenRowV;

    open spec fn view(&self) -> TokenRowV {
        TokenRowV {
            chain: self.chain,
            token_id: self.token_id@,
            contract: self.contract@,
            owner: self.owner@,
            standard: self.standard,
        }
    }
}

impl DeepView for TokenRow {
    type V = TokenRowV;

    open spec fn deep_view(&self) -> TokenRowV {
        self.view()
    }
}

/// One persistent cursor, as persisted in the `States` table.
/// Primary key: `(chain, indexed_type)`.
#[derive(Clone, Copy, PartialEq, Eq, Structural, Debug)]
pub struct StateRow {
    pub chain: Chain,
    pub indexed_type: IndexedType,
    pub indexed_block: i64,
}

/// A log row the token pipeline can read a transfer from: coordinates
/// that fit the tables and the four topics of the watched events.
pub open spec fn log_well_formed(log: LogRowV) -> bool {
    &&& log.block_number >= 0
    &&& log.log_index >= 0
    &&& log.topics.len() >= 4
}

impl Clone for LogRow {
    /// An exact copy: the image of the copy is the image of the original.
    fn clone(&self) -> (res: Self)
        ensures
            res@ == self@,
    {
        let res = LogRow {
            block_number: self.block_number,
            log_index: self.log_index,
            tx_hash: self.tx_hash.clone(),
            address: self.address.clone(),
            topics: clone_string_vec(&self.topics),
            data: clone_byte_vec(&self.data),
        };
        proof {
            assert(res@ =~= self@);
        }
        res
    }
}

impl Clone for TokenRow {
    /// An exact copy: the image of the copy is the image of the original.
    fn clone(&self) -> (res: Self)
        ensures
            res@ == self@,
    {
        let res = TokenRow {
            chain: self.chain,
            token_id: self.token_id.clone(),
            contract: self.contract.clone(),
            owner: self.owner.clone(),
            standard: self.standard,
        };
        proof {
            assert(res@ =~= self@);
        }
        res
    }
}

/// Copies a vector of strings, element for element.
fn clone_string_vec(v: &Vec<String>) -> (res: Vec<String>)
    ensures
        res.deep_view() == v.deep_view(),
{
    let mut res: Vec<String> = Vec::new();
    let mut i: usize = 0;
    while i < v.len()
        invariant
            i <= v@.len(),
            res@.len() == i as int,
            forall|j: int| 0 <= j < i as int ==> res@[j]@ == v@[j]@,
        decreases v@.len() - i,
    {
        res.push(v[i].clone());
        i = i + 1;
    }
    proof {
        assert(res.deep_view() =~= v.deep_view());
    }
    res
}

/// Copies a vector of bytes, element for element.
fn clone_byte_vec(v: &Vec<u8>) -> (res: Vec<u8>)
    ensures
        res@ == v@,
{
    let mut res: Vec<u8> = Vec::new();
    let mut i: usize = 0;
    while i < v.len()
        invariant
            i <= v@.len(),
            res@ == v@.take(i as int),
        decreases v@.len() - i,
    {
        res.push(v[i]);
        i = i + 1;
        proof {
            assert(res@ =~= v@.take(i as int));
        }
    }
    proof {
        assert(res@ =~= v@);
    }
    res
}

} // verus!
