//! The laws of the indexer: what any sequence of core operations,
//! driven the way the two pipelines drive them, preserves about the
//! store — monotone cursors, the Token cursor held behind the Log
//! cursor, the justification of every token row by a log row, and the
//! idempotence
//! of the two upsert transactions.

use vstd::prelude::*;

use crate::data::{Chain, IndexedType, LogRowV, Standard, TokenRowV};
use crate::hex::word_hex;
use crate::store::{
    has_log_key, has_token_key, lemma_lookup_set_state, lemma_upsert_log_props, log_key_lt,
    logs_sorted, spec_next_block, spec_set_state, spec_upsert_log, spec_upsert_token,
    state_key_eq, token_key_eq, tokens_unique, StoreV,
};

verus! {

/// One core mutation of the store, seen at the level of its image:
/// the two upsert transactions and the bare cursor bump.
pub enum StoreOp {
    UpsertLog(LogRowV),
    UpsertToken(TokenRowV, i64),
    SetState(IndexedType, i64),
}

/// The transition relation of one core operation: exactly what the
/// corresponding store primitive ensures.
pub open spec fn store_step(pre: StoreV, post: StoreV, chain: Chain, op: StoreOp) -> bool {
    match op {
        StoreOp::UpsertLog(row) => {
            &&& post.logs == spec_upsert_log(pre.logs, row)
            &&& post.tokens == pre.tokens
            &&& post.states == spec_set_state(
                pre.states,
                chain,
                IndexedType::Log,
                row.block_number,
            )
        },
        StoreOp::UpsertToken(row, block_number) => {
            &&& post.logs == pre.logs
            &&& post.tokens == spec_upsert_token(pre.tokens, row)
            &&& post.states == spec_set_state(
                pre.states,
                chain,
                IndexedType::Token,
                block_number,
            )
        },
        StoreOp::SetState(indexed_type, block_number) => {
            &&& post.logs == pre.logs
            &&& post.tokens == pre.tokens
            &&& post.states == spec_set_state(pre.states, chain, indexed_type, block_number)
        },
    }
}

/// A `Tokens` row is consistent with a `Logs` row it could have been
/// derived from: same contract, and recipient and token id read off
/// the row's topics or payload as the standard prescribes.
pub open spec fn token_from_log(t: TokenRowV, l: LogRowV) -> bool {
    &&& t.contract == l.address
    &&& l.topics.len() >= 4
    &&& ((t.standard == Standard::Erc721 && t.token_id == l.topics[3] && t.owner == l.topics[2])
        || (t.standard == Standard::Erc1155 && l.data.len() >= 64 && t.token_id == word_hex(
        l.data.take(32),
    ) && t.owner == l.topics[3]))
}

/// How the two pipelines drive the store: logs arrive at or above the
/// Log cursor (a conforming node answers a range query in ascending
/// order), token writes sit between the two cursors and are derived
/// from a stored log row, and a bare bump never regresses its own
/// cursor nor outruns the Log cursor.
pub open spec fn op_in_discipline(pre: StoreV, chain: Chain, op: StoreOp) -> bool {
    match op {
        StoreOp::UpsertLog(row) => row.block_number >= pre.state_of(chain, IndexedType::Log),
        StoreOp::UpsertToken(row, block_number) => {
            &&& pre.state_of(chain, IndexedType::Token) <= block_number <= pre.state_of(
                chain,
                IndexedType::Log,
            )
            &&& row.chain == chain
            &&& exists|j: int|
                0 <= j < pre.logs.len() && token_from_log(row, #[trigger] pre.logs[j])
        },
        StoreOp::SetState(indexed_type, block_number) => {
            if indexed_type == IndexedType::Log {
                block_number >= pre.state_of(chain, IndexedType::Log)
            } else {
                pre.state_of(chain, IndexedType::Token) <= block_number <= pre.state_of(
                    chain,
                    IndexedType::Log,
                )
            }
        },
    }
}

/// The ordering the pipelines cooperate under: both cursors exist,
/// the Token cursor never leads the Log cursor, and the Log cursor
/// dominates every stored log row.
pub open spec fn cursors_ordered(s: StoreV, chain: Chain) -> bool {
    &&& s.has_state(chain, IndexedType::Log)
    &&& s.has_state(chain, IndexedType::Token)
    &&& s.state_of(chain, IndexedType::Token) <= s.state_of(chain, IndexedType::Log)
    &&& forall|j: int|
        0 <= j < s.logs.len() ==> (#[trigger] s.logs[j]).block_number <= s.state_of(
            chain,
            IndexedType::Log,
        )
}

/// Every token row of the chain is justified by some stored log row.
pub open spec fn tokens_justified(s: StoreV, chain: Chain) -> bool {
    forall|i: int|
        0 <= i < s.tokens.len() && (#[trigger] s.tokens[i]).chain == chain ==> exists|j: int|
            0 <= j < s.logs.len() && token_from_log(s.tokens[i], #[trigger] s.logs[j])
}

/// A consistent read of the store: well-formed tables, ordered
/// cursors, and justified tokens.
pub open spec fn consistent(s: StoreV, chain: Chain) -> bool {
    &&& s.wf()
    &&& cursors_ordered(s, chain)
    &&& tokens_justified(s, chain)
}

/// Law: under the pipelines' discipline, one core operation never
/// decreases either cursor.
pub proof fn lemma_cursor_monotone(
    pre: StoreV,
    post: StoreV,
    chain: Chain,
    op: StoreOp,
    indexed_type: IndexedType,
)
    requires
        store_step(pre, post, chain, op),
        op_in_discipline(pre, chain, op),
        pre.has_state(chain, indexed_type),
    ensures
        post.has_state(chain, indexed_type),
        pre.state_of(chain, indexed_type) <= post.state_of(chain, indexed_type),
{
    match op {
        StoreOp::UpsertLog(row) => {
            lemma_lookup_set_state(
                pre.states,
                chain,
                IndexedType::Log,
                row.block_number,
                chain,
                indexed_type,
            );
        },
        StoreOp::UpsertToken(_row, block_number) => {
            lemma_lookup_set_state(
                pre.states,
                chain,
                IndexedType::Token,
                block_number,
                chain,
                indexed_type,
            );
        },
        StoreOp::SetState(it, block_number) => {
            lemma_lookup_set_state(pre.states, chain, it, block_number, chain, indexed_type);
        },
    }
}

/// Steps a segment of a trace, carrying existence and monotonicity of
/// one cursor from `a` to `b`.
proof fn lemma_trace_segment(
    trace: Seq<StoreV>,
    ops: Seq<StoreOp>,
    chain: Chain,
    indexed_type: IndexedType,
    a: int,
    b: int,
)
    requires
        trace.len() == ops.len() + 1,
        forall|k: int|
            0 <= k < ops.len() ==> store_step(trace[k], trace[k + 1], chain, #[trigger] ops[k])
                && op_in_discipline(trace[k], chain, ops[k]),
        0 <= a <= b < trace.len(),
        trace[a].has_state(chain, indexed_type),
    ensures
        trace[b].has_state(chain, indexed_type),
        trace[a].state_of(chain, indexed_type) <= trace[b].state_of(chain, indexed_type),
    decreases b - a,
{
    if b > a {
        lemma_trace_segment(trace, ops, chain, indexed_type, a, b - 1);
        lemma_cursor_monotone(trace[b - 1], trace[b], chain, ops[b - 1], indexed_type);
    }
}

/// Law: across any sequence of core operations driven in discipline,
/// each cursor is monotone non-decreasing.
pub proof fn lemma_cursor_monotone_trace(
    trace: Seq<StoreV>,
    ops: Seq<StoreOp>,
    chain: Chain,
    indexed_type: IndexedType,
)
    requires
        trace.len() == ops.len() + 1,
        forall|k: int|
            0 <= k < ops.len() ==> store_step(trace[k], trace[k + 1], chain, #[trigger] ops[k])
                && op_in_discipline(trace[k], chain, ops[k]),
        trace[0].has_state(chain, indexed_type),
    ensures
        forall|a: int, b: int|
            0 <= a <= b < trace.len() ==> trace[a].state_of(chain, indexed_type) <= trace[b].state_of(
                chain,
                indexed_type,
            ),
{
    assert forall|a: int, b: int|
        0 <= a <= b < trace.len() implies trace[a].state_of(chain, indexed_type)
        <= trace[b].state_of(chain, indexed_type) by {
        lemma_trace_segment(trace, ops, chain, indexed_type, 0, a);
        lemma_trace_segment(trace, ops, chain, indexed_type, a, b);
    }
}

/// Law: one disciplined core operation preserves the cursor ordering;
/// in particular `States[Token] <= States[Log]` holds at every
/// consistent read.
pub proof fn lemma_cursor_order_preserved(pre: StoreV, post: StoreV, chain: Chain, op: StoreOp)
    requires
        pre.wf(),
        cursors_ordered(pre, chain),
        store_step(pre, post, chain, op),
        op_in_discipline(pre, chain, op),
    ensures
        cursors_ordered(post, chain),
{
    lemma_cursor_monotone(pre, post, chain, op, IndexedType::Log);
    lemma_cursor_monotone(pre, post, chain, op, IndexedType::Token);
    match op {
        StoreOp::UpsertLog(row) => {
            lemma_lookup_set_state(
                pre.states,
                chain,
                IndexedType::Log,
                row.block_number,
                chain,
                IndexedType::Log,
            );
            lemma_lookup_set_state(
                pre.states,
                chain,
                IndexedType::Log,
                row.block_number,
                chain,
                IndexedType::Token,
            );
            lemma_upsert_log_props(pre.logs, row);
            assert forall|j: int|
                0 <= j < post.logs.len() implies (#[trigger] post.logs[j]).block_number
                <= post.state_of(chain, IndexedType::Log) by {
                assert(post.logs.contains(post.logs[j]));
                if pre.logs.contains(post.logs[j]) {
                    let q = choose|q: int| 0 <= q < pre.logs.len() && pre.logs[q] == post.logs[j];
                }
            }
        },
        StoreOp::UpsertToken(_row, block_number) => {
            lemma_lookup_set_state(
                pre.states,
                chain,
                IndexedType::Token,
                block_number,
                chain,
                IndexedType::Log,
            );
            lemma_lookup_set_state(
                pre.states,
                chain,
                IndexedType::Token,
                block_number,
                chain,
                IndexedType::Token,
            );
        },
        StoreOp::SetState(it, block_number) => {
            lemma_lookup_set_state(pre.states, chain, it, block_number, chain, IndexedType::Log);
            lemma_lookup_set_state(pre.states, chain, it, block_number, chain, IndexedType::Token);
        },
    }
}

/// Law: one disciplined core operation keeps every token row of the
/// chain justified by a stored log row.
pub proof fn lemma_justified_preserved(pre: StoreV, post: StoreV, chain: Chain, op: StoreOp)
    requires
        pre.wf(),
        tokens_justified(pre, chain),
        store_step(pre, post, chain, op),
        op_in_discipline(pre, chain, op),
    ensures
        tokens_justified(post, chain),
{
    match op {
        StoreOp::UpsertLog(row) => {
            lemma_upsert_log_props(pre.logs, row);
            assert forall|i: int|
                0 <= i < post.tokens.len() && (#[trigger] post.tokens[i]).chain
                == chain implies exists|j: int|
                0 <= j < post.logs.len() && token_from_log(post.tokens[i], #[trigger] post.logs[j]) by {
                let j0 = choose|j: int|
                    0 <= j < pre.logs.len() && token_from_log(post.tokens[i], #[trigger] pre.logs[j]);
                assert(pre.logs.contains(pre.logs[j0]));
                assert(post.logs.contains(pre.logs[j0]));
                let j1 = choose|j: int| 0 <= j < post.logs.len() && post.logs[j] == pre.logs[j0];
                assert(token_from_log(post.tokens[i], post.logs[j1]));
            }
        },
        StoreOp::UpsertToken(row, _block_number) => {
            assert forall|i: int|
                0 <= i < post.tokens.len() && (#[trigger] post.tokens[i]).chain
                == chain implies exists|j: int|
                0 <= j < post.logs.len() && token_from_log(post.tokens[i], #[trigger] post.logs[j]) by {
                if i < pre.tokens.len() {
                    assert(post.tokens[i] == pre.tokens[i]);
                } else {
                    assert(post.tokens[i] == row);
                }
            }
        },
        StoreOp::SetState(_it, _block_number) => {
        },
    }
}

/// Well-formedness of the tables survives every core operation.
pub proof fn lemma_wf_preserved(pre: StoreV, post: StoreV, chain: Chain, op: StoreOp)
    requires
        pre.wf(),
        store_step(pre, post, chain, op),
    ensures
        post.wf(),
{
    match op {
        StoreOp::UpsertLog(row) => {
            lemma_upsert_log_props(pre.logs, row);
        },
        StoreOp::UpsertToken(row, _block_number) => {
            if !has_token_key(pre.tokens, row) {
                assert forall|a: int, b: int|
                    0 <= a < b < post.tokens.len() implies !token_key_eq(
                    post.tokens[a],
                    post.tokens[b],
                ) by {
                    if b == post.tokens.len() - 1 {
                        assert(post.tokens[a] == pre.tokens[a]);
                        assert(!token_key_eq(pre.tokens[a], row));
                    }
                }
            }
        },
        StoreOp::SetState(_it, _block_number) => {
        },
    }
    assert forall|a: int, b: int|
        0 <= a < b < post.states.len() implies !state_key_eq(
        post.states[a],
        post.states[b].chain,
        post.states[b].indexed_type,
    ) by {
        assert(post.states[a].chain == pre.states[a].chain);
        assert(post.states[a].indexed_type == pre.states[a].indexed_type);
        assert(post.states[b].chain == pre.states[b].chain);
        assert(post.states[b].indexed_type == pre.states[b].indexed_type);
    }
}

/// Law: a consistent store stays consistent under every disciplined
/// core operation.
pub proof fn lemma_consistent_preserved(pre: StoreV, post: StoreV, chain: Chain, op: StoreOp)
    requires
        consistent(pre, chain),
        store_step(pre, post, chain, op),
        op_in_discipline(pre, chain, op),
    ensures
        consistent(post, chain),
{
    lemma_wf_preserved(pre, post, chain, op);
    lemma_cursor_order_preserved(pre, post, chain, op);
    lemma_justified_preserved(pre, post, chain, op);
}

/// Carries consistency along a prefix of a trace.
proof fn lemma_consistent_prefix(
    trace: Seq<StoreV>,
    ops: Seq<StoreOp>,
    chain: Chain,
    k: int,
)
    requires
        trace.len() == ops.len() + 1,
        forall|m: int|
            0 <= m < ops.len() ==> store_step(trace[m], trace[m + 1], chain, #[trigger] ops[m])
                && op_in_discipline(trace[m], chain, ops[m]),
        consistent(trace[0], chain),
        0 <= k < trace.len(),
    ensures
        consistent(trace[k], chain),
    decreases k,
{
    if k > 0 {
        lemma_consistent_prefix(trace, ops, chain, k - 1);
        lemma_consistent_preserved(trace[k - 1], trace[k], chain, ops[k - 1]);
    }
}

/// Law: a store that starts consistent stays consistent at every read
/// of any disciplined run — the cursor ordering and the justification
/// of the token table hold throughout.
pub proof fn lemma_consistent_trace(trace: Seq<StoreV>, ops: Seq<StoreOp>, chain: Chain)
    requires
        trace.len() == ops.len() + 1,
        forall|m: int|
            0 <= m < ops.len() ==> store_step(trace[m], trace[m + 1], chain, #[trigger] ops[m])
                && op_in_discipline(trace[m], chain, ops[m]),
        consistent(trace[0], chain),
    ensures
        forall|k: int| 0 <= k < trace.len() ==> consistent(#[trigger] trace[k], chain),
{
    assert forall|k: int| 0 <= k < trace.len() implies consistent(#[trigger] trace[k], chain) by {
        lemma_consistent_prefix(trace, ops, chain, k);
    }
}

/// Law: in a consistent store, every token row of the chain is backed
/// by a log row whose block does not exceed the committed Log cursor
/// and whose contract and topics agree with the token row.
pub proof fn lemma_tokens_supported(s: StoreV, chain: Chain, i: int)
    requires
        consistent(s, chain),
        0 <= i < s.tokens.len(),
        s.tokens[i].chain == chain,
    ensures
        exists|j: int|
            0 <= j < s.logs.len() && (#[trigger] s.logs[j]).block_number <= s.state_of(
                chain,
                IndexedType::Log,
            ) && token_from_log(s.tokens[i], s.logs[j]),
{
    let j = choose|j: int| 0 <= j < s.logs.len() && token_from_log(s.tokens[i], #[trigger] s.logs[j]);
    assert(s.logs[j].block_number <= s.state_of(chain, IndexedType::Log));
}

/// Law: the log transaction is idempotent — absorbing the same log
/// row twice leaves the store exactly as one absorption left it, with
/// a single row under the key and the Log cursor at the row's block.
pub proof fn lemma_upsert_log_idempotent(
    s0: StoreV,
    s1: StoreV,
    s2: StoreV,
    chain: Chain,
    row: LogRowV,
)
    requires
        s0.wf(),
        s0.has_state(chain, IndexedType::Log),
        store_step(s0, s1, chain, StoreOp::UpsertLog(row)),
        store_step(s1, s2, chain, StoreOp::UpsertLog(row)),
    ensures
        s2 == s1,
        s1.wf(),
        has_log_key(s1.logs, row.block_number, row.log_index),
        s1.state_of(chain, IndexedType::Log) == row.block_number,
        s2.state_of(chain, IndexedType::Log) == row.block_number,
{
    lemma_upsert_log_props(s0.logs, row);
    lemma_upsert_log_props(s1.logs, row);
    assert(s2.logs == s1.logs);
    assert(s2.states =~= s1.states);
    assert(s2 =~= s1);
    lemma_lookup_set_state(
        s0.states,
        chain,
        IndexedType::Log,
        row.block_number,
        chain,
        IndexedType::Log,
    );
    lemma_lookup_set_state(
        s1.states,
        chain,
        IndexedType::Log,
        row.block_number,
        chain,
        IndexedType::Log,
    );
}

/// Law: the token transaction is idempotent — absorbing the same
/// derived row twice, at the same block, leaves the store exactly as
/// one absorption left it, with a single row under the key; the first
/// write fixed the owner.
pub proof fn lemma_upsert_token_idempotent(
    s0: StoreV,
    s1: StoreV,
    s2: StoreV,
    chain: Chain,
    row: TokenRowV,
    block_number: i64,
)
    requires
        s0.wf(),
        s0.has_state(chain, IndexedType::Token),
        store_step(s0, s1, chain, StoreOp::UpsertToken(row, block_number)),
        store_step(s1, s2, chain, StoreOp::UpsertToken(row, block_number)),
    ensures
        s2 == s1,
        tokens_unique(s1.tokens),
        has_token_key(s1.tokens, row),
        s1.state_of(chain, IndexedType::Token) == block_number,
{
    lemma_wf_preserved(s0, s1, chain, StoreOp::UpsertToken(row, block_number));
    if !has_token_key(s0.tokens, row) {
        assert(s1.tokens == s0.tokens.push(row));
        assert(s1.tokens[s1.tokens.len() - 1] == row);
        assert(token_key_eq(s1.tokens[s1.tokens.len() - 1], row));
        assert(has_token_key(s1.tokens, row));
    } else {
        let p = choose|p: int| 0 <= p < s0.tokens.len() && token_key_eq(#[trigger] s0.tokens[p], row);
        assert(has_token_key(s1.tokens, row));
    }
    assert(s2.tokens == s1.tokens);
    assert(s2.states =~= s1.states);
    assert(s2 =~= s1);
    lemma_lookup_set_state(
        s0.states,
        chain,
        IndexedType::Token,
        block_number,
        chain,
        IndexedType::Token,
    );
    lemma_lookup_set_state(
        s1.states,
        chain,
        IndexedType::Token,
        block_number,
        chain,
        IndexedType::Token,
    );
}

/// Law: the sparse skip never moves backwards; with no newer log row
/// it stays put, and otherwise it lands exactly on the least populated
/// block beyond the cursor.
pub proof fn lemma_next_block_properties(logs: Seq<LogRowV>, block_number: i64)
    requires
        logs_sorted(logs),
    ensures
        (forall|j: int| 0 <= j < logs.len() ==> (#[trigger] logs[j]).block_number <= block_number)
            ==> spec_next_block(logs, block_number) == block_number,
        (exists|j: int| 0 <= j < logs.len() && (#[trigger] logs[j]).block_number > block_number)
            ==> spec_next_block(logs, block_number) > block_number && (exists|j: int|
            0 <= j < logs.len() && (#[trigger] logs[j]).block_number == spec_next_block(
                logs,
                block_number,
            )) && (forall|j: int|
            0 <= j < logs.len() && (#[trigger] logs[j]).block_number > block_number
                ==> logs[j].block_number >= spec_next_block(logs, block_number)),
    decreases logs.len(),
{
    if logs.len() > 0 {
        assert(forall|j: int|
            0 <= j < logs.drop_first().len() ==> #[trigger] logs.drop_first()[j] == logs[j + 1]);
        if logs.first().block_number > block_number {
            let nb = logs.first().block_number;
            assert(logs[0].block_number == nb);
            assert forall|j: int|
                0 <= j < logs.len() && (#[trigger] logs[j]).block_number
                    > block_number implies logs[j].block_number >= nb by {
                if j > 0 {
                    assert(log_key_lt(logs[0], logs[j]));
                }
            }
        } else {
            lemma_next_block_properties(logs.drop_first(), block_number);
            assert(spec_next_block(logs, block_number) == spec_next_block(
                logs.drop_first(),
                block_number,
            ));
            if exists|j: int|
                0 <= j < logs.len() && (#[trigger] logs[j]).block_number > block_number {
                let j0 = choose|j: int|
                    0 <= j < logs.len() && (#[trigger] logs[j]).block_number > block_number;
                assert(j0 > 0);
                assert(logs.drop_first()[j0 - 1] == logs[j0]);
                assert(logs.drop_first()[j0 - 1].block_number > block_number);
                let nb = spec_next_block(logs.drop_first(), block_number);
                assert(nb > block_number);
                let jw = choose|j: int|
                    0 <= j < logs.drop_first().len() && (#[trigger] logs.drop_first()[j]).block_number
                        == nb;
                assert(logs[jw + 1].block_number == nb);
                assert forall|j: int|
                    0 <= j < logs.len() && (#[trigger] logs[j]).block_number
                        > block_number implies logs[j].block_number >= nb by {
                    assert(j > 0);
                    assert(logs.drop_first()[j - 1] == logs[j]);
                    assert(logs.drop_first()[j - 1].block_number > block_number);
                }
            }
        }
    }
}

} // verus!
