//! The two pipeline loops, as verified step functions over the store.
//!
//! The host owns the outer loops: it fetches log batches over RPC,
//! probes contracts for their standard, sleeps and retries. Every
//! decision in between — what a batch does to the tables, what one log
//! row turns into, when the token pipeline may advance — is taken
//! here, against the store model.

use vstd::prelude::*;

use crate::address::{ERC165DerivedOrNot, TransportError};
use crate::data::{Chain, IndexedType, LogRow, LogRowV, StateRow, Standard, TokenRow, TokenRowV};
use crate::hex::{word_hex, word_hex_string};
use crate::store::{
    spec_lookup_state, spec_next_block, spec_set_state, spec_upsert_log, spec_upsert_token, Store,
};

verus! {

/// The classification demands reading topics 2 and 3 of the log row.
pub open spec fn spec_class_needs_topics(class: Result<ERC165DerivedOrNot, TransportError>) -> bool {
    class == Ok::<ERC165DerivedOrNot, TransportError>(ERC165DerivedOrNot::ERC721) || class
        == Ok::<ERC165DerivedOrNot, TransportError>(ERC165DerivedOrNot::ERC1155)
}

/// A classified log row produces a `Tokens` row: the contract is
/// ERC-721, or it is ERC-1155 and the payload is long enough to carry
/// the two ABI words `(id, value)`.
pub open spec fn spec_writes_token(
    log: LogRowV,
    class: Result<ERC165DerivedOrNot, TransportError>,
) -> bool {
    ||| class == Ok::<ERC165DerivedOrNot, TransportError>(ERC165DerivedOrNot::ERC721)
    ||| (class == Ok::<ERC165DerivedOrNot, TransportError>(ERC165DerivedOrNot::ERC1155)
        && log.data.len() >= 64)
}

/// The standard written with the row, for a writing classification.
pub open spec fn spec_class_standard(class: Result<ERC165DerivedOrNot, TransportError>) -> Standard {
    if class == Ok::<ERC165DerivedOrNot, TransportError>(ERC165DerivedOrNot::ERC721) {
        Standard::Erc721
    } else {
        Standard::Erc1155
    }
}

/// The `Tokens` row derived from a log row: for ERC-721 the recipient
/// is topic 2 and the token id topic 3; for ERC-1155 the recipient is
/// topic 3 and the token id is the first ABI word of the payload,
/// rendered as a 32-byte hex string.
pub open spec fn spec_derived_token(chain: Chain, log: LogRowV, standard: Standard) -> TokenRowV {
    match standard {
        Standard::Erc721 => TokenRowV {
            chain,
            token_id: log.topics[3],
            contract: log.address,
            owner: log.topics[2],
            standard,
        },
        Standard::Erc1155 => TokenRowV {
            chain,
            token_id: word_hex(log.data.take(32)),
            contract: log.address,
            owner: log.topics[3],
            standard,
        },
    }
}

/// The log table after absorbing a whole batch, row by row.
pub open spec fn spec_upsert_logs(logs: Seq<LogRowV>, batch: Seq<LogRowV>) -> Seq<LogRowV>
    decreases batch.len(),
{
    if batch.len() == 0 {
        logs
    } else {
        spec_upsert_log(spec_upsert_logs(logs, batch.drop_last()), batch.last())
    }
}

/// The token table after the first `n` rows of a block have been
/// classified and absorbed.
pub open spec fn spec_token_pass_tokens(
    tokens: Seq<TokenRowV>,
    chain: Chain,
    rows: Seq<LogRowV>,
    classes: Seq<Result<ERC165DerivedOrNot, TransportError>>,
    n: int,
) -> Seq<TokenRowV>
    decreases n,
{
    if n <= 0 {
        tokens
    } else {
        let prev = spec_token_pass_tokens(tokens, chain, rows, classes, n - 1);
        if spec_writes_token(rows[n - 1], classes[n - 1]) {
            spec_upsert_token(
                prev,
                spec_derived_token(chain, rows[n - 1], spec_class_standard(classes[n - 1])),
            )
        } else {
            prev
        }
    }
}

/// The state table after the first `n` rows of a block have been
/// classified and absorbed: every write also moved the Token cursor.
pub open spec fn spec_token_pass_states(
    states: Seq<StateRow>,
    chain: Chain,
    rows: Seq<LogRowV>,
    classes: Seq<Result<ERC165DerivedOrNot, TransportError>>,
    n: int,
) -> Seq<StateRow>
    decreases n,
{
    if n <= 0 {
        states
    } else {
        let prev = spec_token_pass_states(states, chain, rows, classes, n - 1);
        if spec_writes_token(rows[n - 1], classes[n - 1]) {
            spec_set_state(prev, chain, IndexedType::Token, rows[n - 1].block_number)
        } else {
            prev
        }
    }
}

/// The index of the first transport failure, or the length when every
/// classification succeeded: how far one pass over a block proceeds.
pub open spec fn spec_first_err(classes: Seq<Result<ERC165DerivedOrNot, TransportError>>) -> int
    decreases classes.len(),
{
    if classes.len() == 0 {
        0
    } else if classes.first() is Err {
        0
    } else {
        1 + spec_first_err(classes.drop_first())
    }
}

/// The in-memory cursor after `k` rows of a block were absorbed: the
/// block of the last absorbed row, or the starting cursor when none
/// was.
pub open spec fn spec_prefix_last(rows: Seq<LogRowV>, k: int, last_block: i64) -> i64 {
    if k <= 0 {
        last_block
    } else {
        rows[k - 1].block_number
    }
}

/// A scan position bounded by all-successful classifications pins
/// `spec_first_err` down.
proof fn lemma_first_err(classes: Seq<Result<ERC165DerivedOrNot, TransportError>>, i: int)
    requires
        0 <= i <= classes.len(),
        forall|j: int| 0 <= j < i ==> classes[j] is Ok,
    ensures
        i < classes.len() && classes[i] is Err ==> spec_first_err(classes) == i,
        i == classes.len() ==> spec_first_err(classes) == classes.len(),
    decreases classes.len(),
{
    if classes.len() > 0 && i > 0 {
        assert(classes[0] is Ok);
        assert(forall|j: int|
            0 <= j < i - 1 ==> classes.drop_first()[j] == #[trigger] classes[j + 1]);
        lemma_first_err(classes.drop_first(), i - 1);
        if i < classes.len() {
            assert(classes.drop_first()[i - 1] == classes[i]);
        }
    }
}

/// Setting one cursor twice keeps only the second value.
proof fn lemma_set_state_twice(
    states: Seq<StateRow>,
    chain: Chain,
    indexed_type: IndexedType,
    b1: i64,
    b2: i64,
)
    ensures
        spec_set_state(spec_set_state(states, chain, indexed_type, b1), chain, indexed_type, b2)
            == spec_set_state(states, chain, indexed_type, b2),
{
    assert(spec_set_state(
        spec_set_state(states, chain, indexed_type, b1),
        chain,
        indexed_type,
        b2,
    ) =~= spec_set_state(states, chain, indexed_type, b2));
}

/// One indexer: the chain it serves and the width of a log scan.
pub struct Indexer {
    pub chain: Chain,
    pub max_blocks_per_query: u64,
}

/// A fresh indexer for `chain`, scanning 1000 blocks per query.
pub fn new(chain: Chain) -> (ix: Indexer)
    ensures
        ix.chain == chain,
        ix.max_blocks_per_query == 1000,
{
    Indexer { chain, max_blocks_per_query: 1000 }
}

impl Indexer {
    /// The upper bound of the next log scan.
    pub fn to_block(&self, last_block: u64) -> (r: u64)
        requires
            last_block + self.max_blocks_per_query <= u64::MAX,
        ensures
            r == last_block + self.max_blocks_per_query,
    {
        last_block + self.max_blocks_per_query
    }

    /// Reads the persistent cursor of one pipeline. The row must have
    /// been seeded; a host finding it missing must treat that as fatal
    /// misconfiguration before driving the pipelines.
    pub fn get_indexed_block(&self, store: &Store, indexed_type: IndexedType) -> (r: i64)
        requires
            store@.has_state(self.chain, indexed_type),
        ensures
            r == store@.state_of(self.chain, indexed_type),
    {
        match store.get_state(self.chain, indexed_type) {
            Some(block_number) => block_number,
            None => vstd::pervasive::unreached(),
        }
    }

    /// One log-ingestion transaction: the row and the Log cursor move
    /// together; the new cursor is the row's block.
    pub fn dump_log(&self, store: &mut Store, log: &LogRow) -> (r: i64)
        requires
            old(store)@.wf(),
            old(store)@.has_state(self.chain, IndexedType::Log),
        ensures
            r == log.block_number,
            final(store)@.wf(),
            final(store)@.logs == spec_upsert_log(old(store)@.logs, log@),
            final(store)@.tokens == old(store)@.tokens,
            final(store)@.states == spec_set_state(
                old(store)@.states,
                self.chain,
                IndexedType::Log,
                log.block_number,
            ),
            final(store)@.has_state(self.chain, IndexedType::Log),
            final(store)@.state_of(self.chain, IndexedType::Log) == log.block_number,
            forall|c: Chain, t: IndexedType|
                !(c == self.chain && t == IndexedType::Log) ==> spec_lookup_state(
                    final(store)@.states,
                    c,
                    t,
                ) == spec_lookup_state(old(store)@.states, c, t),
    {
        store.tx_upsert_log_and_advance(self.chain, log)
    }

    /// Absorbs one fetched batch in return order. Each
    /// row is upserted in its own transaction that also advances the
    /// Log cursor, so the in-memory cursor tracks the last absorbed
    /// row. An empty batch changes nothing — the cursor only moves
    /// when a row moves it.
    pub fn index_logs_batch(&self, store: &mut Store, logs: &Vec<LogRow>, last_block: u64) -> (r:
        u64)
        requires
            old(store)@.wf(),
            old(store)@.has_state(self.chain, IndexedType::Log),
            forall|i: int|
                0 <= i < logs.deep_view().len() ==> (#[trigger] logs.deep_view()[i]).block_number
                    >= 0,
        ensures
            final(store)@.wf(),
            final(store)@.has_state(self.chain, IndexedType::Log),
            final(store)@.logs == spec_upsert_logs(old(store)@.logs, logs.deep_view()),
            final(store)@.tokens == old(store)@.tokens,
            logs.deep_view().len() == 0 ==> final(store)@ == old(store)@ && r == last_block,
            logs.deep_view().len() > 0 ==> final(store)@.states == spec_set_state(
                old(store)@.states,
                self.chain,
                IndexedType::Log,
                logs.deep_view().last().block_number,
            ) && r == logs.deep_view().last().block_number as u64,
            forall|c: Chain, t: IndexedType|
                !(c == self.chain && t == IndexedType::Log) ==> spec_lookup_state(
                    final(store)@.states,
                    c,
                    t,
                ) == spec_lookup_state(old(store)@.states, c, t),
    {
        let n = logs.len();
        let mut i: usize = 0;
        let mut last: u64 = last_block;
        proof {
            assert(logs.deep_view().take(0) =~= Seq::<LogRowV>::empty());
        }
        while i < n
            invariant
                0 <= i <= n,
                n == logs.deep_view().len(),
                store@.wf(),
                store@.has_state(self.chain, IndexedType::Log),
                forall|p: int|
                    0 <= p < logs.deep_view().len() ==> (
                    #[trigger] logs.deep_view()[p]).block_number >= 0,
                store@.logs == spec_upsert_logs(
                    old(store)@.logs,
                    logs.deep_view().take(i as int),
                ),
                store@.tokens == old(store)@.tokens,
                i == 0 ==> store@ == old(store)@ && last == last_block,
                i > 0 ==> store@.states == spec_set_state(
                    old(store)@.states,
                    self.chain,
                    IndexedType::Log,
                    logs.deep_view()[i as int - 1].block_number,
                ) && last == logs.deep_view()[i as int - 1].block_number as u64,
            decreases n - i,
        {
            let ghost mid = store@;
            let nb = self.dump_log(store, &logs[i]);
            last = nb as u64;
            i = i + 1;
            proof {
                let dv = logs.deep_view();
                assert(dv.take(i as int).drop_last() =~= dv.take(i as int - 1));
                assert(dv.take(i as int).last() == dv[i as int - 1]);
                assert(store@.logs == spec_upsert_logs(old(store)@.logs, dv.take(i as int)));
                if i > 1 {
                    lemma_set_state_twice(
                        old(store)@.states,
                        self.chain,
                        IndexedType::Log,
                        dv[i as int - 2].block_number,
                        dv[i as int - 1].block_number,
                    );
                }
            }
        }
        proof {
            assert(logs.deep_view().take(n as int) =~= logs.deep_view());
            if n > 0 {
                assert(logs.deep_view()[n - 1] == logs.deep_view().last());
                assert forall|c: Chain, t: IndexedType|
                    !(c == self.chain && t == IndexedType::Log) implies spec_lookup_state(
                    store@.states,
                    c,
                    t,
                ) == spec_lookup_state(old(store)@.states, c, t) by {
                    crate::store::lemma_lookup_set_state(
                        old(store)@.states,
                        self.chain,
                        IndexedType::Log,
                        logs.deep_view().last().block_number,
                        c,
                        t,
                    );
                }
            }
        }
        last
    }

    /// Derives the token payload from one `Logs` row, given the
    /// classification the host obtained for the row's contract.
    ///
    /// A transport failure writes nothing and asks the caller to
    /// retry. An `OTHER` contract — and an ERC-1155 row whose payload
    /// is structurally too short to decode — is skipped as processed
    /// without a committed write. Otherwise the derived row and the
    /// Token cursor move together in one transaction.
    pub fn dump_token(
        &self,
        store: &mut Store,
        log: &LogRow,
        class: Result<ERC165DerivedOrNot, TransportError>,
    ) -> (r: Result<(i64, bool), ()>)
        requires
            old(store)@.wf(),
            old(store)@.has_state(self.chain, IndexedType::Token),
            spec_class_needs_topics(class) ==> log@.topics.len() >= 4,
        ensures
            final(store)@.wf(),
            final(store)@.logs == old(store)@.logs,
            final(store)@.has_state(self.chain, IndexedType::Token),
            class is Err ==> final(store)@ == old(store)@ && r == Err::<(i64, bool), ()>(()),
            class is Ok && !spec_writes_token(log@, class) ==> final(store)@ == old(store)@ && r
                == Ok::<(i64, bool), ()>((log.block_number, false)),
            class is Ok && spec_writes_token(log@, class) ==> final(store)@.tokens
                == spec_upsert_token(
                old(store)@.tokens,
                spec_derived_token(self.chain, log@, spec_class_standard(class)),
            ) && final(store)@.states == spec_set_state(
                old(store)@.states,
                self.chain,
                IndexedType::Token,
                log.block_number,
            ) && r == Ok::<(i64, bool), ()>((log.block_number, true)),
            forall|c: Chain, t: IndexedType|
                !(c == self.chain && t == IndexedType::Token) ==> spec_lookup_state(
                    final(store)@.states,
                    c,
                    t,
                ) == spec_lookup_state(old(store)@.states, c, t),
    {
        match class {
            Err(_) => Err(()),
            Ok(ERC165DerivedOrNot::OTHER) => Ok((log.block_number, false)),
            Ok(ERC165DerivedOrNot::ERC721) => {
                let token = TokenRow {
                    chain: self.chain,
                    token_id: log.topics[3].clone(),
                    contract: log.address.clone(),
                    owner: log.topics[2].clone(),
                    standard: Standard::Erc721,
                };
                proof {
                    assert(token@ =~= spec_derived_token(
                        self.chain,
                        log@,
                        spec_class_standard(class),
                    ));
                }
                let rr = store.tx_upsert_token_and_advance(self.chain, &token, log.block_number);
                Ok(rr)
            },
            Ok(ERC165DerivedOrNot::ERC1155) => {
                if log.data.len() < 64 {
                    Ok((log.block_number, false))
                } else {
                    let token_id = word_hex_string(&log.data);
                    let token = TokenRow {
                        chain: self.chain,
                        token_id,
                        contract: log.address.clone(),
                        owner: log.topics[3].clone(),
                        standard: Standard::Erc1155,
                    };
                    proof {
                        assert(token@ =~= spec_derived_token(
                            self.chain,
                            log@,
                            spec_class_standard(class),
                        ));
                    }
                    let rr = store.tx_upsert_token_and_advance(
                        self.chain,
                        &token,
                        log.block_number,
                    );
                    Ok(rr)
                }
            },
        }
    }

    /// One pass over the rows of a block, with
    /// the host-supplied classification for each row. Rows are
    /// absorbed in order until the first transport failure. A
    /// completed pass bumps the Token cursor to the in-memory cursor —
    /// so a block of nothing but `OTHER` contracts still advances it —
    /// and then sparse-skips to the next populated block; a failed
    /// pass leaves the cursor where the last write put it, for the
    /// host to retry.
    pub fn process_token_block(
        &self,
        store: &mut Store,
        rows: &Vec<LogRow>,
        classes: &Vec<Result<ERC165DerivedOrNot, TransportError>>,
        last_block: i64,
    ) -> (r: (i64, bool))
        requires
            old(store)@.wf(),
            old(store)@.has_state(self.chain, IndexedType::Token),
            classes@.len() == rows.deep_view().len(),
            forall|i: int|
                0 <= i < rows.deep_view().len() ==> (spec_class_needs_topics(#[trigger] classes@[i])
                    ==> rows.deep_view()[i].topics.len() >= 4),
        ensures
            final(store)@.wf(),
            final(store)@.logs == old(store)@.logs,
            final(store)@.has_state(self.chain, IndexedType::Token),
            r.1 == (spec_first_err(classes@) == rows.deep_view().len()),
            final(store)@.tokens == spec_token_pass_tokens(
                old(store)@.tokens,
                self.chain,
                rows.deep_view(),
                classes@,
                spec_first_err(classes@),
            ),
            r.1 ==> final(store)@.states == spec_set_state(
                spec_token_pass_states(
                    old(store)@.states,
                    self.chain,
                    rows.deep_view(),
                    classes@,
                    spec_first_err(classes@),
                ),
                self.chain,
                IndexedType::Token,
                spec_prefix_last(rows.deep_view(), spec_first_err(classes@), last_block),
            ) && r.0 == spec_next_block(
                old(store)@.logs,
                spec_prefix_last(rows.deep_view(), spec_first_err(classes@), last_block),
            ),
            !r.1 ==> final(store)@.states == spec_token_pass_states(
                old(store)@.states,
                self.chain,
                rows.deep_view(),
                classes@,
                spec_first_err(classes@),
            ) && r.0 == spec_prefix_last(
                rows.deep_view(),
                spec_first_err(classes@),
                last_block,
            ),
            forall|c: Chain, t: IndexedType|
                !(c == self.chain && t == IndexedType::Token) ==> spec_lookup_state(
                    final(store)@.states,
                    c,
                    t,
                ) == spec_lookup_state(old(store)@.states, c, t),
    {
        let n = rows.len();
        let mut i: usize = 0;
        let mut last: i64 = last_block;
        let mut failed = false;
        while i < n && !failed
            invariant
                0 <= i <= n,
                n == rows.deep_view().len(),
                classes@.len() == n,
                store@.wf(),
                store@.has_state(self.chain, IndexedType::Token),
                store@.logs == old(store)@.logs,
                forall|p: int|
                    0 <= p < rows.deep_view().len() ==> (spec_class_needs_topics(
                        #[trigger] classes@[p],
                    ) ==> rows.deep_view()[p].topics.len() >= 4),
                forall|j: int| 0 <= j < i ==> #[trigger] classes@[j] is Ok,
                failed ==> i < n && classes@[i as int] is Err,
                store@.tokens == spec_token_pass_tokens(
                    old(store)@.tokens,
                    self.chain,
                    rows.deep_view(),
                    classes@,
                    i as int,
                ),
                store@.states == spec_token_pass_states(
                    old(store)@.states,
                    self.chain,
                    rows.deep_view(),
                    classes@,
                    i as int,
                ),
                last == spec_prefix_last(rows.deep_view(), i as int, last_block),
                forall|c: Chain, t: IndexedType|
                    !(c == self.chain && t == IndexedType::Token) ==> spec_lookup_state(
                        store@.states,
                        c,
                        t,
                    ) == spec_lookup_state(old(store)@.states, c, t),
            decreases n - i, (if failed { 0int } else { 1int }),
        {
            let class = classes[i];
            match self.dump_token(store, &rows[i], class) {
                Ok(done) => {
                    last = done.0;
                    i = i + 1;
                },
                Err(_) => {
                    failed = true;
                },
            }
        }
        if !failed {
            proof {
                lemma_first_err(classes@, n as int);
            }
            let _ = store.set_state(self.chain, IndexedType::Token, last);
            let nb = store.next_block(last);
            (nb, true)
        } else {
            proof {
                lemma_first_err(classes@, i as int);
            }
            (last, false)
        }
    }

    /// The idle half of the token loop: the current block has no rows
    /// yet. If the log pipeline's committed cursor is ahead, sparse-skip to the next
    /// populated block; once caught up, stay put and let the host poll
    /// again.
    pub fn empty_block_step(&self, store: &Store, last_block: i64) -> (r: i64)
        requires
            store@.has_state(self.chain, IndexedType::Log),
        ensures
            r == if last_block < store@.state_of(self.chain, IndexedType::Log) {
                spec_next_block(store@.logs, last_block)
            } else {
                last_block
            },
    {
        let indexed_logs_block = self.get_indexed_block(store, IndexedType::Log);
        if last_block < indexed_logs_block {
            store.next_block(last_block)
        } else {
            last_block
        }
    }

    /// The sparse-skip query, on behalf of the store.
    pub fn next_block(&self, store: &Store, current_block: i64) -> (r: i64)
        ensures
            r == spec_next_block(store@.logs, current_block),
    {
        store.next_block(current_block)
    }
}

} // verus!
