//! The verified model of the relational store: the `Logs`, `Tokens`
//! and `States` tables, the transactional primitives the two pipelines
//! use, and the spec-level transition functions that the contracts and
//! the library's laws are stated over.

use vstd::prelude::*;
use vstd::pervasive::VecAdditionalExecFns;

use crate::data::{Chain, IndexedType, LogRow, LogRowV, StateRow, TokenRow, TokenRowV};

verus! {

// ---------------------------------------------------------------------
// Keys, orders and well-formedness
// ---------------------------------------------------------------------

/// Strict `(block_number, log_index)` order on log rows.
pub open spec fn log_key_lt(a: LogRowV, b: LogRowV) -> bool {
    ||| a.block_number < b.block_number
    ||| (a.block_number == b.block_number && a.log_index < b.log_index)
}

/// Equality of the `Logs` primary key.
pub open spec fn log_key_eq(a: LogRowV, b: LogRowV) -> bool {
    a.block_number == b.block_number && a.log_index == b.log_index
}

/// The `Logs` table is kept sorted strictly by its primary key, which
/// also makes every key unique.
pub open spec fn logs_sorted(logs: Seq<LogRowV>) -> bool {
    forall|i: int, j: int| 0 <= i < j < logs.len() ==> log_key_lt(logs[i], logs[j])
}

/// Some row of the table carries this `(block_number, log_index)` key.
pub open spec fn has_log_key(logs: Seq<LogRowV>, block_number: i64, log_index: i64) -> bool {
    exists|i: int|
        0 <= i < logs.len() && logs[i].block_number == block_number && logs[i].log_index
            == log_index
}

/// Equality of the `Tokens` primary key `(chain, token_id, contract)`.
pub open spec fn token_key_eq(a: TokenRowV, b: TokenRowV) -> bool {
    a.chain == b.chain && a.token_id == b.token_id && a.contract == b.contract
}

/// Some row of the table carries the key of `row`.
pub open spec fn has_token_key(tokens: Seq<TokenRowV>, row: TokenRowV) -> bool {
    exists|i: int| 0 <= i < tokens.len() && token_key_eq(tokens[i], row)
}

/// Every `Tokens` key appears at most once.
pub open spec fn tokens_unique(tokens: Seq<TokenRowV>) -> bool {
    forall|i: int, j: int| 0 <= i < j < tokens.len() ==> !token_key_eq(tokens[i], tokens[j])
}

/// The row carries the `(chain, indexed_type)` key.
pub open spec fn state_key_eq(s: StateRow, chain: Chain, indexed_type: IndexedType) -> bool {
    s.chain == chain && s.indexed_type == indexed_type
}

/// Every `States` key appears at most once.
pub open spec fn states_unique(states: Seq<StateRow>) -> bool {
    forall|i: int, j: int|
        0 <= i < j < states.len() ==> !state_key_eq(
            states[i],
            states[j].chain,
            states[j].indexed_type,
        )
}

// ---------------------------------------------------------------------
// Transition functions
// ---------------------------------------------------------------------

/// Upsert into the sorted log table: a fresh key is inserted at its
/// place; a key already present keeps its stored row (rows are
/// immutable after insert).
pub open spec fn spec_upsert_log(logs: Seq<LogRowV>, row: LogRowV) -> Seq<LogRowV>
    decreases logs.len(),
{
    if logs.len() == 0 {
        seq![row]
    } else if log_key_lt(logs.first(), row) {
        seq![logs.first()] + spec_upsert_log(logs.drop_first(), row)
    } else if log_key_eq(logs.first(), row) {
        logs
    } else {
        seq![row] + logs
    }
}

/// Upsert into the token table: a fresh key is appended; a key already
/// present keeps its stored row (the first writer wins, the owner is
/// not overwritten).
pub open spec fn spec_upsert_token(tokens: Seq<TokenRowV>, row: TokenRowV) -> Seq<TokenRowV> {
    if has_token_key(tokens, row) {
        tokens
    } else {
        tokens.push(row)
    }
}

/// Sets the cursor of every row keyed `(chain, indexed_type)` to
/// `block_number` and leaves every other row alone.
pub open spec fn spec_set_state(
    states: Seq<StateRow>,
    chain: Chain,
    indexed_type: IndexedType,
    block_number: i64,
) -> Seq<StateRow> {
    Seq::new(
        states.len(),
        |i: int|
            if state_key_eq(states[i], chain, indexed_type) {
                StateRow { indexed_block: block_number, ..states[i] }
            } else {
                states[i]
            },
    )
}

/// First-match lookup of a cursor.
pub open spec fn spec_lookup_state(
    states: Seq<StateRow>,
    chain: Chain,
    indexed_type: IndexedType,
) -> Option<i64>
    decreases states.len(),
{
    if states.len() == 0 {
        None
    } else if state_key_eq(states.first(), chain, indexed_type) {
        Some(states.first().indexed_block)
    } else {
        spec_lookup_state(states.drop_first(), chain, indexed_type)
    }
}

/// The first block after `block_number` that has a log row — in a
/// sorted table, the least such block — or `block_number` itself when
/// no newer row exists.
pub open spec fn spec_next_block(logs: Seq<LogRowV>, block_number: i64) -> i64
    decreases logs.len(),
{
    if logs.len() == 0 {
        block_number
    } else if logs.first().block_number > block_number {
        logs.first().block_number
    } else {
        spec_next_block(logs.drop_first(), block_number)
    }
}

/// `x` is one of the first `bound` log rows and sits at block `b`.
pub open spec fn row_from(logs: Seq<LogRowV>, bound: int, b: i64, x: LogRowV) -> bool {
    exists|j: int| #![auto] 0 <= j < bound && x == logs[j] && logs[j].block_number == b
}

/// Widening the index bound keeps `row_from`.
proof fn lemma_row_from_widen(logs: Seq<LogRowV>, b1: int, b2: int, b: i64, x: LogRowV)
    requires
        row_from(logs, b1, b, x),
        b1 <= b2,
    ensures
        row_from(logs, b2, b, x),
{
    let j = choose|j: int| #![auto] 0 <= j < b1 && x == logs[j] && logs[j].block_number == b;
    assert(0 <= j < b2 && x == logs[j] && logs[j].block_number == b);
}

// ---------------------------------------------------------------------
// The store
// ---------------------------------------------------------------------

/// Mathematical image of the whole store.
#[verifier::ext_equal]
pub struct StoreV {
    pub logs: Seq<LogRowV>,
    pub tokens: Seq<TokenRowV>,
    pub states: Seq<StateRow>,
}

impl StoreV {
    /// Well-formedness of the three tables: the log table sorted by its
    /// key, the token and state keys unique.
    pub open spec fn wf(self) -> bool {
        &&& logs_sorted(self.logs)
        &&& tokens_unique(self.tokens)
        &&& states_unique(self.states)
    }

    /// The `(chain, indexed_type)` cursor row exists.
    pub open spec fn has_state(self, chain: Chain, indexed_type: IndexedType) -> bool {
        spec_lookup_state(self.states, chain, indexed_type) is Some
    }

    /// The `(chain, indexed_type)` cursor value.
    pub open spec fn state_of(self, chain: Chain, indexed_type: IndexedType) -> i64 {
        spec_lookup_state(self.states, chain, indexed_type)->Some_0
    }
}

/// The relational store of the indexer. A host seeds the `States`
/// rows once, out of band, and then drives the two pipelines, which
/// only read and update them.
pub struct Store {
    logs: Vec<LogRow>,
    tokens: Vec<TokenRow>,
    states: Vec<StateRow>,
}

impl View for Store {
    type V = StoreV;

    closed spec fn view(&self) -> StoreV {
        StoreV {
            logs: self.logs.deep_view(),
            tokens: self.tokens.deep_view(),
            states: self.states@,
        }
    }
}

impl Store {
    /// An empty store: no logs, no tokens, no cursors.
    pub fn new() -> (s: Store)
        ensures
            s@.wf(),
            s@.logs == Seq::<LogRowV>::empty(),
            s@.tokens == Seq::<TokenRowV>::empty(),
            s@.states == Seq::<StateRow>::empty(),
    {
        let s = Store { logs: Vec::new(), tokens: Vec::new(), states: Vec::new() };
        proof {
            assert(s@.logs =~= Seq::<LogRowV>::empty());
            assert(s@.tokens =~= Seq::<TokenRowV>::empty());
        }
        s
    }

    /// Seeds (or reseeds) one cursor row: the out-of-band preparation
    /// of the `States` table that the operator contract calls for.
    pub fn seed_state(&mut self, chain: Chain, indexed_type: IndexedType, block_number: i64)
        ensures
            final(self)@.logs == old(self)@.logs,
            final(self)@.tokens == old(self)@.tokens,
            old(self)@.has_state(chain, indexed_type) ==> final(self)@.states == spec_set_state(
                old(self)@.states,
                chain,
                indexed_type,
                block_number,
            ),
            !old(self)@.has_state(chain, indexed_type) ==> final(self)@.states == old(
                self,
            )@.states.push(
                StateRow { chain, indexed_type, indexed_block: block_number },
            ),
            old(self)@.wf() ==> final(self)@.wf(),
            final(self)@.has_state(chain, indexed_type),
            final(self)@.state_of(chain, indexed_type) == block_number,
            forall|c: Chain, t: IndexedType|
                !(c == chain && t == indexed_type) ==> spec_lookup_state(final(self)@.states, c, t)
                    == spec_lookup_state(old(self)@.states, c, t),
    {
        let found = self.set_state(chain, indexed_type, block_number);
        if !found {
            let ghost pre = self.states@;
            self.states.push(StateRow { chain, indexed_type, indexed_block: block_number });
            proof {
                lemma_lookup_state_push(pre, chain, indexed_type, block_number);
                assert forall|c: Chain, t: IndexedType|
                    !(c == chain && t == indexed_type) implies spec_lookup_state(
                    self@.states,
                    c,
                    t,
                ) == spec_lookup_state(old(self)@.states, c, t) by {
                    lemma_lookup_state_push_other(pre, chain, indexed_type, block_number, c, t);
                }
                assert(old(self)@.wf() ==> self@.wf()) by {
                    if old(self)@.wf() {
                        lemma_lookup_state_none_no_key(pre, chain, indexed_type);
                        assert forall|i: int, j: int|
                            0 <= i < j < self@.states.len() implies !state_key_eq(
                            self@.states[i],
                            self@.states[j].chain,
                            self@.states[j].indexed_type,
                        ) by {
                            if j == self@.states.len() - 1 {
                                assert(self@.states[i] == pre[i]);
                            }
                        }
                    }
                }
            }
        } else {
            proof {
                lemma_lookup_set_state(
                    old(self)@.states,
                    chain,
                    indexed_type,
                    block_number,
                    chain,
                    indexed_type,
                );
                assert forall|c: Chain, t: IndexedType|
                    !(c == chain && t == indexed_type) implies spec_lookup_state(
                    self@.states,
                    c,
                    t,
                ) == spec_lookup_state(old(self)@.states, c, t) by {
                    lemma_lookup_set_state(
                        old(self)@.states,
                        chain,
                        indexed_type,
                        block_number,
                        c,
                        t,
                    );
                }
            }
        }
    }

    /// Reads one cursor: `None` when the row was never seeded.
    pub fn get_state(&self, chain: Chain, indexed_type: IndexedType) -> (r: Option<i64>)
        ensures
            r == spec_lookup_state(self@.states, chain, indexed_type),
    {
        let n = self.states.len();
        let mut i: usize = 0;
        proof {
            assert(self@.states.skip(0) =~= self@.states);
        }
        while i < n
            invariant
                0 <= i <= n,
                n == self@.states.len(),
                spec_lookup_state(self@.states, chain, indexed_type) == spec_lookup_state(
                    self@.states.skip(i as int),
                    chain,
                    indexed_type,
                ),
            decreases n - i,
        {
            let row = self.states[i];
            if row.chain == chain && row.indexed_type == indexed_type {
                proof {
                    assert(self@.states.skip(i as int).first() == self@.states[i as int]);
                }
                return Some(row.indexed_block);
            }
            i = i + 1;
            proof {
                assert(self@.states.skip(i - 1).drop_first() =~= self@.states.skip(i as int));
            }
        }
        None
    }

    /// Updates one cursor in place — the fire-and-forget bump the
    /// token pipeline issues after a completed pass; reports whether
    /// the row existed. Never touches the other two tables.
    pub fn set_state(&mut self, chain: Chain, indexed_type: IndexedType, block_number: i64) -> (r:
        bool)
        ensures
            final(self)@.logs == old(self)@.logs,
            final(self)@.tokens == old(self)@.tokens,
            r == old(self)@.has_state(chain, indexed_type),
            r ==> final(self)@.states == spec_set_state(
                old(self)@.states,
                chain,
                indexed_type,
                block_number,
            ),
            !r ==> final(self)@.states == old(self)@.states,
            old(self)@.wf() ==> final(self)@.wf(),
            r ==> final(self)@.has_state(chain, indexed_type) && final(self)@.state_of(chain, indexed_type)
                == block_number,
            forall|c: Chain, t: IndexedType|
                !(c == chain && t == indexed_type) ==> spec_lookup_state(final(self)@.states, c, t)
                    == spec_lookup_state(old(self)@.states, c, t),
    {
        let n = self.states.len();
        let mut i: usize = 0;
        let mut found = false;
        while i < n
            invariant
                0 <= i <= n,
                n == self@.states.len(),
                self@.logs == old(self)@.logs,
                self@.tokens == old(self)@.tokens,
                self@.states.len() == old(self)@.states.len(),
                found == exists|j: int|
                    0 <= j < i && state_key_eq(old(self)@.states[j], chain, indexed_type),
                forall|j: int|
                    0 <= j < i ==> self@.states[j] == spec_set_state(
                        old(self)@.states,
                        chain,
                        indexed_type,
                        block_number,
                    )[j],
                forall|j: int| i <= j < n ==> self@.states[j] == old(self)@.states[j],
            decreases n - i,
        {
            let row = self.states[i];
            if row.chain == chain && row.indexed_type == indexed_type {
                self.states.set(
                    i,
                    StateRow { chain: row.chain, indexed_type: row.indexed_type, indexed_block: block_number },
                );
                found = true;
            }
            i = i + 1;
        }
        proof {
            if found {
                assert(self@.states =~= spec_set_state(
                    old(self)@.states,
                    chain,
                    indexed_type,
                    block_number,
                ));
                lemma_has_state_from_key(old(self)@.states, chain, indexed_type);
                lemma_lookup_set_state(
                    old(self)@.states,
                    chain,
                    indexed_type,
                    block_number,
                    chain,
                    indexed_type,
                );
            } else {
                assert(self@.states =~= old(self)@.states);
                lemma_no_key_no_state(old(self)@.states, chain, indexed_type);
            }
            if found {
                assert forall|c: Chain, t: IndexedType|
                    !(c == chain && t == indexed_type) implies spec_lookup_state(
                    self@.states,
                    c,
                    t,
                ) == spec_lookup_state(old(self)@.states, c, t) by {
                    lemma_lookup_set_state(
                        old(self)@.states,
                        chain,
                        indexed_type,
                        block_number,
                        c,
                        t,
                    );
                }
            }
            if old(self)@.wf() {
                assert(states_unique(self@.states)) by {
                    assert forall|i2: int, j2: int|
                        0 <= i2 < j2 < self@.states.len() implies !state_key_eq(
                        self@.states[i2],
                        self@.states[j2].chain,
                        self@.states[j2].indexed_type,
                    ) by {
                        assert(self@.states[i2].chain == old(self)@.states[i2].chain);
                        assert(self@.states[i2].indexed_type == old(
                            self,
                        )@.states[i2].indexed_type);
                        assert(self@.states[j2].chain == old(self)@.states[j2].chain);
                        assert(self@.states[j2].indexed_type == old(
                            self,
                        )@.states[j2].indexed_type);
                    }
                }
            }
        }
        found
    }
}

impl Store {
    /// In one transaction: upserts the `Logs` row on its
    /// `(block_number, log_index)` key — a no-op when the key exists —
    /// and sets the `(chain, Log)` cursor to the row's block. Returns
    /// the new cursor value.
    pub fn tx_upsert_log_and_advance(&mut self, chain: Chain, log: &LogRow) -> (r: i64)
        requires
            old(self)@.wf(),
            old(self)@.has_state(chain, IndexedType::Log),
        ensures
            r == log.block_number,
            final(self)@.wf(),
            final(self)@.logs == spec_upsert_log(old(self)@.logs, log@),
            final(self)@.tokens == old(self)@.tokens,
            final(self)@.states == spec_set_state(
                old(self)@.states,
                chain,
                IndexedType::Log,
                log.block_number,
            ),
            final(self)@.has_state(chain, IndexedType::Log),
            final(self)@.state_of(chain, IndexedType::Log) == log.block_number,
            forall|c: Chain, t: IndexedType|
                !(c == chain && t == IndexedType::Log) ==> spec_lookup_state(
                    final(self)@.states,
                    c,
                    t,
                ) == spec_lookup_state(old(self)@.states, c, t),
    {
        let ghost pre = self@.logs;
        let n = self.logs.len();
        let mut i: usize = 0;
        while i < n && (self.logs[i].block_number < log.block_number || (
        self.logs[i].block_number == log.block_number && self.logs[i].log_index < log.log_index))
            invariant
                0 <= i <= n,
                n == self@.logs.len(),
                pre == self@.logs,
                forall|j: int| 0 <= j < i ==> log_key_lt(self@.logs[j], log@),
            decreases n - i,
        {
            i = i + 1;
        }
        proof {
            lemma_upsert_log_split(pre, log@, i as int);
        }
        if i < n && self.logs[i].block_number == log.block_number && self.logs[i].log_index
            == log.log_index {
            proof {
                assert(pre.skip(i as int).first() == pre[i as int]);
                assert(log_key_eq(pre.skip(i as int).first(), log@));
                assert(!log_key_lt(pre.skip(i as int).first(), log@));
                assert(spec_upsert_log(pre.skip(i as int), log@) == pre.skip(i as int));
                assert(pre.take(i as int) + pre.skip(i as int) =~= pre);
                assert(spec_upsert_log(pre, log@) == pre);
            }
        } else {
            let ghost shallow = self.logs@;
            self.logs.insert(i, log.clone());
            proof {
                shallow.insert_ensures(i as int, self.logs@[i as int]);
                pre.insert_ensures(i as int, log@);
                assert(self.logs.deep_view() =~= pre.insert(i as int, log@));
                if i == n {
                    assert(pre.skip(i as int) =~= Seq::<LogRowV>::empty());
                    assert(spec_upsert_log(pre.skip(i as int), log@) =~= seq![log@]);
                } else {
                    assert(pre.skip(i as int).first() == pre[i as int]);
                    assert(!log_key_lt(pre.skip(i as int).first(), log@));
                    assert(!log_key_eq(pre.skip(i as int).first(), log@));
                    assert(spec_upsert_log(pre.skip(i as int), log@) == seq![log@] + pre.skip(
                        i as int,
                    ));
                }
                assert(spec_upsert_log(pre, log@) =~= pre.insert(i as int, log@));
            }
        }
        proof {
            lemma_upsert_log_props(pre, log@);
        }
        let _ = self.set_state(chain, IndexedType::Log, log.block_number);
        log.block_number
    }

    /// In one transaction: upserts the `Tokens` row on its
    /// `(chain, token_id, contract)` key — a no-op when the key exists,
    /// so the first recorded owner wins — and sets the
    /// `(chain, Token)` cursor to `block_number`. Returns the new
    /// cursor value and a committed flag.
    pub fn tx_upsert_token_and_advance(
        &mut self,
        chain: Chain,
        token: &TokenRow,
        block_number: i64,
    ) -> (r: (i64, bool))
        requires
            old(self)@.wf(),
            old(self)@.has_state(chain, IndexedType::Token),
        ensures
            r == (block_number, true),
            final(self)@.wf(),
            final(self)@.logs == old(self)@.logs,
            final(self)@.tokens == spec_upsert_token(old(self)@.tokens, token@),
            final(self)@.states == spec_set_state(
                old(self)@.states,
                chain,
                IndexedType::Token,
                block_number,
            ),
            final(self)@.has_state(chain, IndexedType::Token),
            final(self)@.state_of(chain, IndexedType::Token) == block_number,
            forall|c: Chain, t: IndexedType|
                !(c == chain && t == IndexedType::Token) ==> spec_lookup_state(
                    final(self)@.states,
                    c,
                    t,
                ) == spec_lookup_state(old(self)@.states, c, t),
    {
        let ghost pre = self@.tokens;
        let n = self.tokens.len();
        let mut i: usize = 0;
        let mut present = false;
        while i < n
            invariant
                0 <= i <= n,
                n == self@.tokens.len(),
                pre == self@.tokens,
                present == exists|j: int| 0 <= j < i && token_key_eq(self@.tokens[j], token@),
            decreases n - i,
        {
            let row_chain = self.tokens[i].chain;
            if row_chain == token.chain && self.tokens[i].token_id == token.token_id
                && self.tokens[i].contract == token.contract {
                present = true;
                proof {
                    assert(token_key_eq(self@.tokens[i as int], token@));
                }
            }
            i = i + 1;
        }
        if !present {
            let ghost prev = self.tokens.deep_view();
            self.tokens.push(token.clone());
            proof {
                assert(self.tokens.deep_view() =~= prev.push(token@));
                assert(tokens_unique(self@.tokens)) by {
                    assert forall|a: int, b: int|
                        0 <= a < b < self@.tokens.len() implies !token_key_eq(
                        self@.tokens[a],
                        self@.tokens[b],
                    ) by {
                        if b == self@.tokens.len() - 1 {
                            assert(self@.tokens[a] == prev[a]);
                            assert(!token_key_eq(prev[a], token@));
                        }
                    }
                }
            }
        } else {
            proof {
                assert(self@.tokens == spec_upsert_token(pre, token@));
            }
        }
        let _ = self.set_state(chain, IndexedType::Token, block_number);
        (block_number, true)
    }

    /// All `Logs` rows of one block, in ascending `log_index` order:
    /// every returned row is at `block_number` and from the table, and
    /// every table row at `block_number` is returned.
    pub fn find_logs_at_block(&self, block_number: i64) -> (r: Vec<LogRow>)
        requires
            self@.wf(),
        ensures
            forall|p: int|
                0 <= p < r.deep_view().len() ==> (#[trigger] r.deep_view()[p]).block_number
                    == block_number,
            forall|p: int, q: int|
                0 <= p < q < r.deep_view().len() ==> r.deep_view()[p].log_index
                    < r.deep_view()[q].log_index,
            forall|p: int|
                0 <= p < r.deep_view().len() ==> self@.logs.contains(#[trigger] r.deep_view()[p]),
            forall|j: int|
                0 <= j < self@.logs.len() && (#[trigger] self@.logs[j]).block_number
                    == block_number ==> r.deep_view().contains(self@.logs[j]),
    {
        let mut r: Vec<LogRow> = Vec::new();
        let n = self.logs.len();
        let mut i: usize = 0;
        while i < n
            invariant
                0 <= i <= n,
                n == self@.logs.len(),
                self@.wf(),
                forall|p: int|
                    0 <= p < r.deep_view().len() ==> row_from(
                        self@.logs,
                        i as int,
                        block_number,
                        #[trigger] r.deep_view()[p],
                    ),
                forall|p: int, q: int|
                    0 <= p < q < r.deep_view().len() ==> r.deep_view()[p].log_index
                        < r.deep_view()[q].log_index,
                forall|j: int|
                    0 <= j < i && (#[trigger] self@.logs[j]).block_number == block_number
                        ==> r.deep_view().contains(self@.logs[j]),
            decreases n - i,
        {
            let matched = self.logs[i].block_number == block_number;
            let ghost prev = r.deep_view();
            if matched {
                r.push(self.logs[i].clone());
            }
            i = i + 1;
            proof {
                let last = i as int - 1;
                if matched {
                    assert(r.deep_view() =~= prev.push(self@.logs[last]));
                } else {
                    assert(r.deep_view() == prev);
                }
                assert forall|p: int|
                    0 <= p < r.deep_view().len() implies row_from(
                    self@.logs,
                    i as int,
                    block_number,
                    #[trigger] r.deep_view()[p],
                ) by {
                    if p < prev.len() {
                        assert(r.deep_view()[p] == prev[p]);
                        assert(row_from(self@.logs, last, block_number, prev[p]));
                        lemma_row_from_widen(self@.logs, last, i as int, block_number, prev[p]);
                    } else {
                        assert(r.deep_view()[p] == self@.logs[last]);
                        assert(0 <= last < i as int && r.deep_view()[p] == self@.logs[last]
                            && self@.logs[last].block_number == block_number);
                    }
                }
                assert forall|p: int, q: int|
                    0 <= p < q < r.deep_view().len() implies r.deep_view()[p].log_index
                        < r.deep_view()[q].log_index by {
                    if q < prev.len() {
                        assert(r.deep_view()[p] == prev[p] && r.deep_view()[q] == prev[q]);
                    } else {
                        assert(r.deep_view()[p] == prev[p]);
                        assert(r.deep_view()[q] == self@.logs[last]);
                        assert(row_from(self@.logs, last, block_number, prev[p]));
                        let j = choose|j: int|
                            #![auto]
                            0 <= j < last && prev[p] == self@.logs[j]
                                && self@.logs[j].block_number == block_number;
                        assert(log_key_lt(self@.logs[j], self@.logs[last]));
                    }
                }
                assert forall|j: int|
                    0 <= j < i && (#[trigger] self@.logs[j]).block_number == block_number
                        implies r.deep_view().contains(self@.logs[j]) by {
                    if j < last {
                        assert(prev.contains(self@.logs[j]));
                        let p = choose|p: int| 0 <= p < prev.len() && prev[p] == self@.logs[j];
                        assert(r.deep_view()[p] == self@.logs[j]);
                    } else {
                        assert(r.deep_view()[prev.len() as int] == self@.logs[last]);
                    }
                }
            }
        }
        proof {
            assert forall|p: int|
                0 <= p < r.deep_view().len() implies self@.logs.contains(
                #[trigger] r.deep_view()[p],
            ) && r.deep_view()[p].block_number == block_number by {
                assert(row_from(self@.logs, n as int, block_number, r.deep_view()[p]));
                let j = choose|j: int|
                    #![auto]
                    0 <= j < n && r.deep_view()[p] == self@.logs[j] && self@.logs[j].block_number
                        == block_number;
                assert(self@.logs[j] == r.deep_view()[p]);
            }
        }
        r
    }

    /// The sparse-skip query: the first block after `current_block`
    /// that has a log row, or `current_block` itself when none does.
    pub fn next_block(&self, current_block: i64) -> (r: i64)
        ensures
            r == spec_next_block(self@.logs, current_block),
    {
        let n = self.logs.len();
        let mut i: usize = 0;
        proof {
            assert(self@.logs.skip(0) =~= self@.logs);
        }
        while i < n
            invariant
                0 <= i <= n,
                n == self@.logs.len(),
                spec_next_block(self@.logs, current_block) == spec_next_block(
                    self@.logs.skip(i as int),
                    current_block,
                ),
                forall|j: int| 0 <= j < i ==> self@.logs[j].block_number <= current_block,
            decreases n - i,
        {
            let b = self.logs[i].block_number;
            proof {
                assert(self@.logs.skip(i as int).first() == self@.logs[i as int]);
            }
            if b > current_block {
                return b;
            }
            i = i + 1;
            proof {
                assert(self@.logs.skip(i - 1).drop_first() =~= self@.logs.skip(i as int));
            }
        }
        current_block
    }
}

impl Store {
    /// How many `Logs` rows the store holds.
    pub fn logs_len(&self) -> (n: usize)
        ensures
            n == self@.logs.len(),
    {
        self.logs.len()
    }

    /// How many `Tokens` rows the store holds.
    pub fn tokens_len(&self) -> (n: usize)
        ensures
            n == self@.tokens.len(),
    {
        self.tokens.len()
    }

    /// The stored log row under a key, if any.
    pub fn find_log(&self, block_number: i64, log_index: i64) -> (r: Option<LogRow>)
        ensures
            r matches Some(row) ==> spec_lookup_log(self@.logs, block_number, log_index) == Some(
                row@,
            ),
            r is None ==> spec_lookup_log(self@.logs, block_number, log_index) is None,
    {
        let n = self.logs.len();
        let mut i: usize = 0;
        proof {
            assert(self@.logs.skip(0) =~= self@.logs);
        }
        while i < n
            invariant
                0 <= i <= n,
                n == self@.logs.len(),
                spec_lookup_log(self@.logs, block_number, log_index) == spec_lookup_log(
                    self@.logs.skip(i as int),
                    block_number,
                    log_index,
                ),
            decreases n - i,
        {
            proof {
                assert(self@.logs.skip(i as int).first() == self@.logs[i as int]);
            }
            if self.logs[i].block_number == block_number && self.logs[i].log_index == log_index {
                return Some(self.logs[i].clone());
            }
            i = i + 1;
            proof {
                assert(self@.logs.skip(i - 1).drop_first() =~= self@.logs.skip(i as int));
            }
        }
        None
    }

    /// The stored token row under a key, if any.
    pub fn find_token(&self, chain: Chain, token_id: &String, contract: &String) -> (r: Option<
        TokenRow,
    >)
        ensures
            r matches Some(row) ==> spec_lookup_token(self@.tokens, chain, token_id@, contract@)
                == Some(row@),
            r is None ==> spec_lookup_token(self@.tokens, chain, token_id@, contract@) is None,
    {
        let n = self.tokens.len();
        let mut i: usize = 0;
        proof {
            assert(self@.tokens.skip(0) =~= self@.tokens);
        }
        while i < n
            invariant
                0 <= i <= n,
                n == self@.tokens.len(),
                spec_lookup_token(self@.tokens, chain, token_id@, contract@) == spec_lookup_token(
                    self@.tokens.skip(i as int),
                    chain,
                    token_id@,
                    contract@,
                ),
            decreases n - i,
        {
            proof {
                assert(self@.tokens.skip(i as int).first() == self@.tokens[i as int]);
            }
            let row_chain = self.tokens[i].chain;
            if row_chain == chain && self.tokens[i].token_id == *token_id
                && self.tokens[i].contract == *contract {
                return Some(self.tokens[i].clone());
            }
            i = i + 1;
            proof {
                assert(self@.tokens.skip(i - 1).drop_first() =~= self@.tokens.skip(i as int));
            }
        }
        None
    }
}

/// First-match lookup of a log row by key.
pub open spec fn spec_lookup_log(logs: Seq<LogRowV>, block_number: i64, log_index: i64) -> Option<
    LogRowV,
>
    decreases logs.len(),
{
    if logs.len() == 0 {
        None
    } else if logs.first().block_number == block_number && logs.first().log_index == log_index {
        Some(logs.first())
    } else {
        spec_lookup_log(logs.drop_first(), block_number, log_index)
    }
}

/// First-match lookup of a token row by key.
pub open spec fn spec_lookup_token(
    tokens: Seq<TokenRowV>,
    chain: Chain,
    token_id: Seq<char>,
    contract: Seq<char>,
) -> Option<TokenRowV>
    decreases tokens.len(),
{
    if tokens.len() == 0 {
        None
    } else if tokens.first().chain == chain && tokens.first().token_id == token_id
        && tokens.first().contract == contract {
        Some(tokens.first())
    } else {
        spec_lookup_token(tokens.drop_first(), chain, token_id, contract)
    }
}

// ---------------------------------------------------------------------
// Lemmas about the log table
// ---------------------------------------------------------------------

/// Splitting an upsert at a scan position: once every row before `i`
/// orders strictly below the new row, the upsert leaves that prefix
/// alone.
pub proof fn lemma_upsert_log_split(logs: Seq<LogRowV>, row: LogRowV, i: int)
    requires
        0 <= i <= logs.len(),
        forall|j: int| 0 <= j < i ==> log_key_lt(logs[j], row),
    ensures
        spec_upsert_log(logs, row) == logs.take(i) + spec_upsert_log(logs.skip(i), row),
    decreases i,
{
    if i == 0 {
        assert(logs.take(0) =~= Seq::<LogRowV>::empty());
        assert(logs.skip(0) =~= logs);
        assert(logs.take(0) + spec_upsert_log(logs, row) =~= spec_upsert_log(logs, row));
    } else {
        assert(log_key_lt(logs.first(), row));
        assert(forall|j: int|
            0 <= j < i - 1 ==> logs.drop_first()[j] == logs[j + 1] && log_key_lt(
                #[trigger] logs.drop_first()[j],
                row,
            ));
        lemma_upsert_log_split(logs.drop_first(), row, i - 1);
        assert(logs.drop_first().take(i - 1) =~= logs.take(i).drop_first());
        assert(logs.drop_first().skip(i - 1) =~= logs.skip(i));
        assert(seq![logs.first()] + (logs.take(i).drop_first() + spec_upsert_log(
            logs.skip(i),
            row,
        )) =~= logs.take(i) + spec_upsert_log(logs.skip(i), row));
    }
}

/// What an upsert does to the sorted log table: order is kept, a key
/// already present leaves the table unchanged, a fresh key adds
/// exactly the new row, and no other row appears or disappears.
pub proof fn lemma_upsert_log_props(logs: Seq<LogRowV>, row: LogRowV)
    requires
        logs_sorted(logs),
    ensures
        logs_sorted(spec_upsert_log(logs, row)),
        has_log_key(logs, row.block_number, row.log_index) ==> spec_upsert_log(logs, row) == logs,
        !has_log_key(logs, row.block_number, row.log_index) ==> spec_upsert_log(logs, row).len()
            == logs.len() + 1,
        forall|x: LogRowV|
            #[trigger] spec_upsert_log(logs, row).contains(x) <==> logs.contains(x) || (
            !has_log_key(logs, row.block_number, row.log_index) && x == row),
        forall|bn: i64, li: i64|
            #[trigger] has_log_key(spec_upsert_log(logs, row), bn, li) <==> has_log_key(
                logs,
                bn,
                li,
            ) || (bn == row.block_number && li == row.log_index),
    decreases logs.len(),
{
    let res = spec_upsert_log(logs, row);
    if logs.len() == 0 {
        assert(res =~= seq![row]);
        assert(res[0] == row);
        assert forall|x: LogRowV| #[trigger] res.contains(x) implies x == row by {
            let p = choose|p: int| 0 <= p < res.len() && res[p] == x;
        }
        assert(res.contains(row));
        assert forall|bn: i64, li: i64| #[trigger] has_log_key(res, bn, li) implies bn
            == row.block_number && li == row.log_index by {
            let p = choose|p: int|
                0 <= p < res.len() && res[p].block_number == bn && res[p].log_index == li;
        }
        assert(has_log_key(res, row.block_number, row.log_index));
    } else if log_key_lt(logs.first(), row) {
        let tail = logs.drop_first();
        assert(forall|j: int, k: int|
            0 <= j < k < tail.len() ==> log_key_lt(#[trigger] tail[j], #[trigger] tail[k]));
        lemma_upsert_log_props(tail, row);
        let rec = spec_upsert_log(tail, row);
        assert(res == seq![logs.first()] + rec);
        lemma_seq_cons_facts(logs);
        lemma_seq_cons_facts_general(logs.first(), rec, res);
        // the head is strictly below everything in the recursion's result
        assert forall|p: int| 0 <= p < rec.len() implies log_key_lt(logs.first(), rec[p]) by {
            assert(rec.contains(rec[p]));
            if tail.contains(rec[p]) {
                let q = choose|q: int| 0 <= q < tail.len() && tail[q] == rec[p];
                assert(logs[q + 1] == tail[q]);
            }
        }
        assert(logs_sorted(res)) by {
            assert forall|a: int, b: int|
                0 <= a < b < res.len() implies log_key_lt(res[a], res[b]) by {
                if a == 0 {
                    assert(res[b] == rec[b - 1]);
                } else {
                    assert(res[a] == rec[a - 1] && res[b] == rec[b - 1]);
                }
            }
        }
        // a key equal to row's cannot be the head, whose key is below row's
        assert(!log_key_eq(logs.first(), row));
        assert(has_log_key(logs, row.block_number, row.log_index) <==> has_log_key(
            tail,
            row.block_number,
            row.log_index,
        )) by {
            if has_log_key(logs, row.block_number, row.log_index) {
                let p = choose|p: int|
                    0 <= p < logs.len() && logs[p].block_number == row.block_number
                        && logs[p].log_index == row.log_index;
                assert(p > 0);
                assert(tail[p - 1] == logs[p]);
            }
            if has_log_key(tail, row.block_number, row.log_index) {
                let p = choose|p: int|
                    0 <= p < tail.len() && tail[p].block_number == row.block_number
                        && tail[p].log_index == row.log_index;
                assert(logs[p + 1] == tail[p]);
            }
        }
        if has_log_key(logs, row.block_number, row.log_index) {
            assert(rec == tail);
            assert(res =~= logs);
        }
        assert forall|x: LogRowV| #[trigger] res.contains(x) implies logs.contains(x) || (
        !has_log_key(logs, row.block_number, row.log_index) && x == row) by {
            let p = choose|p: int| 0 <= p < res.len() && res[p] == x;
            if p == 0 {
                assert(logs[0] == x);
            } else {
                assert(rec[p - 1] == x);
                assert(rec.contains(x));
                if tail.contains(x) {
                    let q = choose|q: int| 0 <= q < tail.len() && tail[q] == x;
                    assert(logs[q + 1] == x);
                }
            }
        }
        assert forall|x: LogRowV|
            logs.contains(x) || (!has_log_key(logs, row.block_number, row.log_index) && x
                == row) implies #[trigger] res.contains(x) by {
            if logs.contains(x) {
                let p = choose|p: int| 0 <= p < logs.len() && logs[p] == x;
                if p == 0 {
                    assert(res[0] == x);
                } else {
                    assert(tail[p - 1] == x);
                    assert(tail.contains(x));
                    assert(rec.contains(x));
                    let q = choose|q: int| 0 <= q < rec.len() && rec[q] == x;
                    assert(res[q + 1] == x);
                }
            } else {
                assert(rec.contains(row));
                let q = choose|q: int| 0 <= q < rec.len() && rec[q] == row;
                assert(res[q + 1] == row);
            }
        }
        assert forall|bn: i64, li: i64| #[trigger] has_log_key(res, bn, li) implies has_log_key(
            logs,
            bn,
            li,
        ) || (bn == row.block_number && li == row.log_index) by {
            let p = choose|p: int|
                0 <= p < res.len() && res[p].block_number == bn && res[p].log_index == li;
            assert(res.contains(res[p]));
        }
        assert forall|bn: i64, li: i64|
            has_log_key(logs, bn, li) || (bn == row.block_number && li
                == row.log_index) implies #[trigger] has_log_key(res, bn, li) by {
            if has_log_key(logs, bn, li) {
                let p = choose|p: int|
                    0 <= p < logs.len() && logs[p].block_number == bn && logs[p].log_index == li;
                assert(logs.contains(logs[p]));
                assert(res.contains(logs[p]));
                let q = choose|q: int| 0 <= q < res.len() && res[q] == logs[p];
            } else {
                assert(res.contains(row));
                let q = choose|q: int| 0 <= q < res.len() && res[q] == row;
            }
        }
    } else if log_key_eq(logs.first(), row) {
        assert(res == logs);
        assert(has_log_key(logs, row.block_number, row.log_index)) by {
            assert(logs[0].block_number == row.block_number && logs[0].log_index == row.log_index);
        }
    } else {
        // row's key is strictly below the head's, so below every row
        assert(res == seq![row] + logs);
        lemma_seq_cons_facts_general(row, logs, res);
        assert(log_key_lt(row, logs.first()));
        assert(!has_log_key(logs, row.block_number, row.log_index)) by {
            if has_log_key(logs, row.block_number, row.log_index) {
                let p = choose|p: int|
                    0 <= p < logs.len() && logs[p].block_number == row.block_number
                        && logs[p].log_index == row.log_index;
                if p > 0 {
                    assert(log_key_lt(logs[0], logs[p]));
                }
            }
        }
        assert(logs_sorted(res)) by {
            assert forall|a: int, b: int|
                0 <= a < b < res.len() implies log_key_lt(res[a], res[b]) by {
                if a == 0 {
                    assert(res[b] == logs[b - 1]);
                    if b > 1 {
                        assert(log_key_lt(logs[0], logs[b - 1]));
                    }
                } else {
                    assert(res[a] == logs[a - 1] && res[b] == logs[b - 1]);
                }
            }
        }
        assert forall|x: LogRowV| #[trigger] res.contains(x) implies logs.contains(x) || x
            == row by {
            let p = choose|p: int| 0 <= p < res.len() && res[p] == x;
            if p > 0 {
                assert(logs[p - 1] == x);
            }
        }
        assert forall|x: LogRowV| logs.contains(x) || x == row implies #[trigger] res.contains(
            x,
        ) by {
            if logs.contains(x) {
                let p = choose|p: int| 0 <= p < logs.len() && logs[p] == x;
                assert(res[p + 1] == x);
            } else {
                assert(res[0] == row);
            }
        }
        assert forall|bn: i64, li: i64| #[trigger] has_log_key(res, bn, li) implies has_log_key(
            logs,
            bn,
            li,
        ) || (bn == row.block_number && li == row.log_index) by {
            let p = choose|p: int|
                0 <= p < res.len() && res[p].block_number == bn && res[p].log_index == li;
            if p > 0 {
                assert(logs[p - 1].block_number == bn && logs[p - 1].log_index == li);
            }
        }
        assert forall|bn: i64, li: i64|
            has_log_key(logs, bn, li) || (bn == row.block_number && li
                == row.log_index) implies #[trigger] has_log_key(res, bn, li) by {
            if has_log_key(logs, bn, li) {
                let p = choose|p: int|
                    0 <= p < logs.len() && logs[p].block_number == bn && logs[p].log_index == li;
                assert(res[p + 1] == logs[p]);
            } else {
                assert(res[0] == row);
            }
        }
    }
}

/// Index bookkeeping for a non-empty sequence seen as head and tail.
proof fn lemma_seq_cons_facts(logs: Seq<LogRowV>)
    requires
        logs.len() > 0,
    ensures
        forall|j: int| 0 <= j < logs.drop_first().len() ==> #[trigger] logs.drop_first()[j]
            == logs[j + 1],
{
}

/// Index bookkeeping for a sequence built as one element before a tail.
proof fn lemma_seq_cons_facts_general(head: LogRowV, tail: Seq<LogRowV>, whole: Seq<LogRowV>)
    requires
        whole == seq![head] + tail,
    ensures
        whole.len() == tail.len() + 1,
        whole[0] == head,
        forall|j: int| 0 <= j < tail.len() ==> whole[j + 1] == #[trigger] tail[j],
{
    assert(whole.len() == tail.len() + 1);
    assert(whole[0] == head);
    assert forall|j: int| 0 <= j < tail.len() implies whole[j + 1] == #[trigger] tail[j] by {
        assert(whole[j + 1] == (seq![head] + tail)[j + 1]);
    }
}

// ---------------------------------------------------------------------
// Lemmas about the state table
// ---------------------------------------------------------------------

/// Looking a key up after `spec_set_state`: the updated key reads the
/// new block when it exists; every other key reads as before.
pub proof fn lemma_lookup_set_state(
    states: Seq<StateRow>,
    chain: Chain,
    indexed_type: IndexedType,
    block_number: i64,
    c: Chain,
    t: IndexedType,
)
    ensures
        c == chain && t == indexed_type ==> spec_lookup_state(
            spec_set_state(states, chain, indexed_type, block_number),
            c,
            t,
        ) == (if spec_lookup_state(states, c, t) is Some {
            Some(block_number)
        } else {
            None::<i64>
        }),
        !(c == chain && t == indexed_type) ==> spec_lookup_state(
            spec_set_state(states, chain, indexed_type, block_number),
            c,
            t,
        ) == spec_lookup_state(states, c, t),
    decreases states.len(),
{
    if states.len() > 0 {
        let updated = spec_set_state(states, chain, indexed_type, block_number);
        assert(updated.drop_first() =~= spec_set_state(
            states.drop_first(),
            chain,
            indexed_type,
            block_number,
        ));
        lemma_lookup_set_state(
            states.drop_first(),
            chain,
            indexed_type,
            block_number,
            c,
            t,
        );
    }
}

/// A key that occurs in the table is found by the lookup.
pub proof fn lemma_has_state_from_key(states: Seq<StateRow>, chain: Chain, indexed_type: IndexedType)
    requires
        exists|j: int| 0 <= j < states.len() && state_key_eq(states[j], chain, indexed_type),
    ensures
        spec_lookup_state(states, chain, indexed_type) is Some,
    decreases states.len(),
{
    if !state_key_eq(states.first(), chain, indexed_type) {
        let j = choose|j: int|
            0 <= j < states.len() && state_key_eq(states[j], chain, indexed_type);
        assert(states.drop_first()[j - 1] == states[j]);
        lemma_has_state_from_key(states.drop_first(), chain, indexed_type);
    }
}

/// A key that occurs nowhere in the table is not found by the lookup.
pub proof fn lemma_no_key_no_state(states: Seq<StateRow>, chain: Chain, indexed_type: IndexedType)
    requires
        forall|j: int| 0 <= j < states.len() ==> !state_key_eq(states[j], chain, indexed_type),
    ensures
        spec_lookup_state(states, chain, indexed_type) is None,
    decreases states.len(),
{
    if states.len() > 0 {
        assert(forall|j: int|
            0 <= j < states.drop_first().len() ==> states.drop_first()[j] == states[j + 1]);
        lemma_no_key_no_state(states.drop_first(), chain, indexed_type);
    }
}

/// The contrapositive: a missing lookup means the key occurs nowhere.
pub proof fn lemma_lookup_state_none_no_key(
    states: Seq<StateRow>,
    chain: Chain,
    indexed_type: IndexedType,
)
    requires
        spec_lookup_state(states, chain, indexed_type) is None,
    ensures
        forall|j: int| 0 <= j < states.len() ==> !state_key_eq(states[j], chain, indexed_type),
    decreases states.len(),
{
    if states.len() > 0 {
        lemma_lookup_state_none_no_key(states.drop_first(), chain, indexed_type);
        assert forall|j: int|
            0 <= j < states.len() implies !state_key_eq(states[j], chain, indexed_type) by {
            if j > 0 {
                assert(states.drop_first()[j - 1] == states[j]);
            }
        }
    }
}

/// Pushing a row with a key that the lookup does not find makes that
/// key readable at the pushed block.
pub proof fn lemma_lookup_state_push(
    states: Seq<StateRow>,
    chain: Chain,
    indexed_type: IndexedType,
    block_number: i64,
)
    requires
        spec_lookup_state(states, chain, indexed_type) is None,
    ensures
        spec_lookup_state(
            states.push(StateRow { chain, indexed_type, indexed_block: block_number }),
            chain,
            indexed_type,
        ) == Some(block_number),
    decreases states.len(),
{
    let pushed = states.push(StateRow { chain, indexed_type, indexed_block: block_number });
    if states.len() == 0 {
        assert(state_key_eq(pushed.first(), chain, indexed_type));
    } else {
        assert(pushed.drop_first() =~= states.drop_first().push(
            StateRow { chain, indexed_type, indexed_block: block_number },
        ));
        lemma_lookup_state_push(states.drop_first(), chain, indexed_type, block_number);
    }
}

/// Pushing a row never changes what any other key reads.
pub proof fn lemma_lookup_state_push_other(
    states: Seq<StateRow>,
    chain: Chain,
    indexed_type: IndexedType,
    block_number: i64,
    c: Chain,
    t: IndexedType,
)
    requires
        !(c == chain && t == indexed_type),
    ensures
        spec_lookup_state(
            states.push(StateRow { chain, indexed_type, indexed_block: block_number }),
            c,
            t,
        ) == spec_lookup_state(states, c, t),
    decreases states.len(),
{
    let pushed = states.push(StateRow { chain, indexed_type, indexed_block: block_number });
    if states.len() == 0 {
        assert(!state_key_eq(pushed.first(), c, t));
        assert(pushed.drop_first() =~= Seq::<StateRow>::empty());
        assert(spec_lookup_state(Seq::<StateRow>::empty(), c, t) is None);
        assert(spec_lookup_state(pushed, c, t) == spec_lookup_state(pushed.drop_first(), c, t));
    } else {
        assert(pushed.drop_first() =~= states.drop_first().push(
            StateRow { chain, indexed_type, indexed_block: block_number },
        ));
        lemma_lookup_state_push_other(states.drop_first(), chain, indexed_type, block_number, c, t);
    }
}

} // verus!
