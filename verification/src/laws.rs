//! Laws of the transaction counter and of the history stack.

use crate::transaction::commit_transaction_spec;
use crate::transaction::discard_transaction_spec;
use crate::transaction::set_spec;
use crate::transaction::synchronized;
use crate::transaction::HistoricalValue;
use crate::transaction::State;
use vstd::prelude::*;

verus! {

/// One mutation of the transaction-depth counter: `start_transaction`,
/// `discard_transaction` or `commit_transaction`.
pub enum DepthOp {
    Start,
    Discard,
    Commit,
}

/// The effect of one counter mutation on the depth, exactly as the
/// corresponding method of [`crate::transaction::States`] states it:
/// `Start` adds one, the two closing operations subtract one unless the
/// counter is already zero.
pub open spec fn step_depth(d: nat, op: DepthOp) -> nat {
    match op {
        DepthOp::Start => d + 1,
        DepthOp::Discard | DepthOp::Commit => if d > 0 {
            (d - 1) as nat
        } else {
            0nat
        },
    }
}

/// The depth after a whole sequence of counter mutations.
pub open spec fn run_depth(d: nat, ops: Seq<DepthOp>) -> nat
    decreases ops.len(),
{
    if ops.len() == 0 {
        d
    } else {
        run_depth(step_depth(d, ops[0]), ops.drop_first())
    }
}

/// How many operations of the sequence open a layer.
pub open spec fn count_opens(ops: Seq<DepthOp>) -> nat
    decreases ops.len(),
{
    if ops.len() == 0 {
        0nat
    } else {
        (if ops[0] is Start {
            1nat
        } else {
            0nat
        }) + count_opens(ops.drop_first())
    }
}

/// How many closing operations of the sequence actually decrement the
/// counter: a close at depth zero is a no-op and is not counted.
pub open spec fn count_effective_closes(d: nat, ops: Seq<DepthOp>) -> nat
    decreases ops.len(),
{
    if ops.len() == 0 {
        0nat
    } else {
        (if !(ops[0] is Start) && d > 0 {
            1nat
        } else {
            0nat
        }) + count_effective_closes(step_depth(d, ops[0]), ops.drop_first())
    }
}

/// After any sequence of `start_transaction` / `discard_transaction` /
/// `commit_transaction` calls, the depth equals the initial depth plus the
/// number of opens minus the number of closes that were not no-ops; being a
/// `nat`, it never goes negative.
pub proof fn lemma_depth_balance(d: nat, ops: Seq<DepthOp>)
    ensures
        run_depth(d, ops) + count_effective_closes(d, ops) == d + count_opens(ops),
    decreases ops.len(),
{
    if ops.len() > 0 {
        lemma_depth_balance(step_depth(d, ops[0]), ops.drop_first());
    }
}

/// A second write at the same depth overwrites the top entry in place, so
/// the stack size is unchanged, whatever the two values are.
pub proof fn lemma_set_idempotent<V>(s: Seq<HistoricalValue<V>>, depth: usize, first: V, second: V)
    ensures
        set_spec(set_spec(s, depth, first), depth, second).len() == set_spec(
            s,
            depth,
            first,
        ).len(),
{
    let t = set_spec(s, depth, first);
    assert(t.last() == (HistoricalValue { value: first, index: State::Transaction(depth) }));
}

/// A write followed immediately by a read of the latest pending value
/// returns the value just written.
pub proof fn lemma_set_then_get<V>(s: Seq<HistoricalValue<V>>, depth: usize, value: V)
    ensures
        set_spec(s, depth, value).len() > 0,
        set_spec(s, depth, value).last().value == value,
{
}

/// Opening a transaction on a synchronised stack, writing under it,
/// discarding the transaction and reconciling restores the stack exactly as
/// it stood before the write: the speculative write never happened, and the
/// latest pending value is again whatever was visible before (or nothing, if
/// the stack was empty).
pub proof fn lemma_discard_transaction_restores<V>(
    s: Seq<HistoricalValue<V>>,
    depth: usize,
    value: V,
)
    requires
        synchronized(s, depth),
        depth < usize::MAX,
    ensures
        discard_transaction_spec(set_spec(s, (depth + 1) as usize, value), depth) == s,
{
    let inner = (depth + 1) as usize;
    let entry = HistoricalValue { value, index: State::Transaction(inner) };
    if s.len() > 0 {
        assert(s[s.len() - 1].index.rank() <= depth);
    }
    let t = set_spec(s, inner, value);
    assert(t == s.push(entry));
    assert(t.drop_last() =~= s);
    assert(discard_transaction_spec(t, depth) == discard_transaction_spec(s, depth));
    assert(discard_transaction_spec(s, depth) == s);
}

/// Opening a transaction on a synchronised stack, writing under it,
/// committing the transaction and reconciling keeps the written value as the
/// latest pending one, now tagged at the layer that is again the deepest
/// open one.
pub proof fn lemma_commit_transaction_keeps_value<V>(
    s: Seq<HistoricalValue<V>>,
    depth: usize,
    value: V,
)
    requires
        synchronized(s, depth),
        depth < usize::MAX,
    ensures
        ({
            let t = commit_transaction_spec(set_spec(s, (depth + 1) as usize, value), depth);
            t.len() > 0 && t.last() == (HistoricalValue {
                value,
                index: State::Transaction(depth),
            })
        }),
{
    let inner = (depth + 1) as usize;
    let entry = HistoricalValue { value, index: State::Transaction(inner) };
    if s.len() > 0 {
        assert(s[s.len() - 1].index.rank() <= depth);
    }
    let t = set_spec(s, inner, value);
    assert(t == s.push(entry));
}

} // verus!
