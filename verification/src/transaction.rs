//! The transaction-depth counter and the per-key history stack.
//!
//! Convention for layer numbering: the prospective layer is layer `0` and is
//! always open; `start_transaction` opens the nested layers `1, 2, ...`.  A
//! write made while `depth` layers are open is tagged `Transaction(depth)`, so
//! writes made outside any transaction carry `Transaction(0)`.  `Committed`
//! entries are produced only by [`States::apply_commit_prospective`], which
//! collapses the whole speculative stack into the baseline.

use vstd::prelude::*;

verus! {

/// Outcome of a reconciliation step on one history: whether the owning
/// collection still needs the cell (`Keep`), or the cell holds no entry any
/// more and may be removed (`Prune`).
#[derive(Clone, Copy, Debug, PartialEq, Eq, Structural)]
pub enum PruneResult {
    Keep,
    Prune,
}

/// Global state: a counter of the currently open transaction layers.
#[derive(Clone, Debug, PartialEq, Eq, Structural)]
pub struct States(pub(crate) usize);

impl States {
    /// The number of open layers.
    pub closed spec fn depth(self) -> usize {
        self.0
    }

    /// Build any state, for testing only.
    pub fn test_state(current_layer_number: usize) -> (r: Self)
        ensures
            r.depth() == current_layer_number,
    {
        States(current_layer_number)
    }

    /// Discard prospective changes to state.
    /// It does not revert actual values.
    /// A subsequent synchronisation of stored values is needed.
    pub fn discard_prospective(&mut self)
        ensures
            final(self).depth() == if old(self).depth() > 0 {
                (old(self).depth() - 1) as usize
            } else {
                0usize
            },
    {
        if self.0 > 0 {
            self.0 = self.0 - 1;
        }
    }

    /// Commit prospective changes to state.
    /// A subsequent synchronisation of stored values is needed.
    pub fn commit_prospective(&mut self)
        ensures
            final(self).depth() == if old(self).depth() > 0 {
                (old(self).depth() - 1) as usize
            } else {
                0usize
            },
    {
        if self.0 > 0 {
            self.0 = self.0 - 1;
        }
    }

    /// Create a new transactional layer.
    pub fn start_transaction(&mut self)
        requires
            old(self).depth() < usize::MAX,
        ensures
            final(self).depth() == old(self).depth() + 1,
    {
        self.0 = self.0 + 1;
    }

    /// Discard a transactional layer.
    /// It does not revert actual values.
    /// A subsequent synchronisation of stored values is needed.
    pub fn discard_transaction(&mut self)
        ensures
            final(self).depth() == if old(self).depth() > 0 {
                (old(self).depth() - 1) as usize
            } else {
                0usize
            },
    {
        if self.0 > 0 {
            self.0 = self.0 - 1;
        }
    }

    /// Commit a transactional layer.
    /// It does not revert actual values.
    /// A subsequent synchronisation of stored values is needed.
    pub fn commit_transaction(&mut self)
        ensures
            final(self).depth() == if old(self).depth() > 0 {
                (old(self).depth() - 1) as usize
            } else {
                0usize
            },
    {
        if self.0 > 0 {
            self.0 = self.0 - 1;
        }
    }
}

impl Default for States {
    fn default() -> (r: Self)
        ensures
            r.depth() == 0,
    {
        States(0)
    }
}

/// Possible state for a historical value: `Committed` is not touched by
/// transactional action, `Transaction` stores the transaction layer of
/// insertion.
#[derive(Clone, Copy, Debug, PartialEq, Eq, Structural)]
pub enum State {
    Committed,
    Transaction(usize),
}

impl State {
    /// Rank of a tag in the stack order: `Committed` sorts below every
    /// transaction layer.
    pub open spec fn rank(self) -> int {
        match self {
            State::Committed => -1,
            State::Transaction(n) => n as int,
        }
    }

    /// The transaction layer of the tag, if it is a transaction tag.
    pub fn transaction_index(&self) -> (r: Option<usize>)
        ensures
            r == (match *self {
                State::Transaction(ix) => Some(ix),
                State::Committed => None::<usize>,
            }),
    {
        if let State::Transaction(ix) = *self {
            Some(ix)
        } else {
            None
        }
    }
}

/// An entry at a given history height: a value and the tag of the layer that
/// wrote it.
#[derive(Clone, Debug)]
pub struct HistoricalValue<V> {
    /// The stored value.
    pub value: V,
    /// The tag of the layer under which the value was written.
    pub index: State,
}

/// History of values and their state, ordered oldest to newest.
#[derive(Clone, Debug)]
pub struct History<V>(pub(crate) Vec<HistoricalValue<V>>);

impl<V> View for History<V> {
    type V = Seq<HistoricalValue<V>>;

    closed spec fn view(&self) -> Seq<HistoricalValue<V>> {
        self.0@
    }
}

impl<V> Default for History<V> {
    fn default() -> (r: Self)
        ensures
            r@ == Seq::<HistoricalValue<V>>::empty(),
    {
        History(Vec::new())
    }
}

/// The stack invariant: tag ranks strictly increase from bottom to top.  This
/// says at once that at most one entry is `Committed` and only at index 0
/// (its rank is below every transaction rank), and that no two entries share
/// a transaction layer.
pub open spec fn ordered<V>(s: Seq<HistoricalValue<V>>) -> bool {
    forall|i: int, j: int|
        0 <= i < j < s.len() ==> s[i].index.rank() < s[j].index.rank()
}

/// Every entry of the stack was written at or below the given depth.
pub open spec fn synchronized<V>(s: Seq<HistoricalValue<V>>, depth: usize) -> bool {
    forall|i: int| 0 <= i < s.len() ==> s[i].index.rank() <= depth
}

/// What a write at the given depth does to the stack: replace the value of
/// the top entry if it carries the same transaction tag, push a new tagged
/// entry otherwise.
pub open spec fn set_spec<V>(s: Seq<HistoricalValue<V>>, depth: usize, value: V) -> Seq<
    HistoricalValue<V>,
> {
    let entry = HistoricalValue { value, index: State::Transaction(depth) };
    if s.len() > 0 && s.last().index == State::Transaction(depth) {
        s.update(s.len() - 1, entry)
    } else {
        s.push(entry)
    }
}

/// What discarding the layers above `depth` does to a stack: the entries
/// written above `depth` are removed from the top, their values thrown away.
pub open spec fn discard_transaction_spec<V>(s: Seq<HistoricalValue<V>>, depth: usize) -> Seq<
    HistoricalValue<V>,
>
    decreases s.len(),
{
    if s.len() > 0 && s.last().index.rank() > depth {
        discard_transaction_spec(s.drop_last(), depth)
    } else {
        s
    }
}

/// The stack with the entries written at or above `depth` removed from the
/// top.
pub open spec fn drop_at_or_above<V>(s: Seq<HistoricalValue<V>>, depth: usize) -> Seq<
    HistoricalValue<V>,
>
    decreases s.len(),
{
    if s.len() > 0 && s.last().index.rank() >= depth {
        drop_at_or_above(s.drop_last(), depth)
    } else {
        s
    }
}

/// What committing the layers above `depth` does to a stack: if the top entry
/// was written above `depth`, its value is re-tagged to layer `depth`,
/// absorbing every other entry at or above that layer; otherwise nothing
/// changes.
pub open spec fn commit_transaction_spec<V>(s: Seq<HistoricalValue<V>>, depth: usize) -> Seq<
    HistoricalValue<V>,
> {
    if s.len() > 0 && s.last().index.rank() > depth {
        drop_at_or_above(s, depth).push(
            HistoricalValue { value: s.last().value, index: State::Transaction(depth) },
        )
    } else {
        s
    }
}

/// What discarding the whole prospective state does: only the committed
/// baseline survives.
pub open spec fn discard_prospective_spec<V>(s: Seq<HistoricalValue<V>>) -> Seq<
    HistoricalValue<V>,
> {
    if s.len() > 0 && s[0].index is Committed {
        s.take(1)
    } else {
        Seq::empty()
    }
}

/// What committing the whole prospective state does: the latest pending
/// value becomes the committed baseline, everything else is dropped.
pub open spec fn commit_prospective_spec<V>(s: Seq<HistoricalValue<V>>) -> Seq<
    HistoricalValue<V>,
> {
    if s.len() > 0 {
        seq![HistoricalValue { value: s.last().value, index: State::Committed }]
    } else {
        Seq::empty()
    }
}

/// The signal a reconciliation step hands to the owning collection: prune
/// exactly when the history holds no entry any more.
pub open spec fn prune_of<V>(s: Seq<HistoricalValue<V>>) -> PruneResult {
    if s.len() == 0 {
        PruneResult::Prune
    } else {
        PruneResult::Keep
    }
}

impl States {
    /// Update a history to a new prospective: every speculative entry is
    /// dropped and only the committed baseline survives.
    pub fn apply_discard_prospective<V>(&self, value: &mut History<V>) -> (r: PruneResult)
        ensures
            final(value)@ == discard_prospective_spec(old(value)@),
            r == prune_of(final(value)@),
            ordered(final(value)@),
            synchronized(final(value)@, self.depth()),
    {
        let ghost pre = value@;
        if value.0.len() == 0 {
            return PruneResult::Prune;
        }
        match value.0[0].index {
            State::Committed => {
                value.0.truncate(1);
                proof {
                    assert(value@ =~= discard_prospective_spec(pre));
                }
                PruneResult::Keep
            },
            State::Transaction(_) => {
                value.0.clear();
                PruneResult::Prune
            },
        }
    }

    /// Update a history to a new prospective: the latest pending value, if
    /// any, becomes the committed baseline.  Multiple commits can be applied
    /// at the same time.
    pub fn apply_commit_prospective<V>(&self, value: &mut History<V>) -> (r: PruneResult)
        ensures
            final(value)@ == commit_prospective_spec(old(value)@),
            r == prune_of(final(value)@),
            ordered(final(value)@),
            synchronized(final(value)@, self.depth()),
    {
        let ghost pre = value@;
        if value.0.len() == 0 {
            return PruneResult::Prune;
        }
        let top = value.0.pop().unwrap();
        value.0.clear();
        value.0.push(HistoricalValue { value: top.value, index: State::Committed });
        proof {
            assert(value@ =~= commit_prospective_spec(pre));
        }
        PruneResult::Keep
    }

    /// Update a history after one or more `discard_transaction` calls: the
    /// entries of the discarded layers are removed.  Returns whether the
    /// history is still needed.
    pub fn apply_discard_transaction<V>(&self, value: &mut History<V>) -> (r: PruneResult)
        ensures
            final(value)@ == discard_transaction_spec(old(value)@, self.depth()),
            r == prune_of(final(value)@),
            ordered(old(value)@) ==> ordered(final(value)@) && synchronized(
                final(value)@,
                self.depth(),
            ),
    {
        let ghost pre = value@;
        loop
            invariant_except_break
                discard_transaction_spec(value@, self.depth()) == discard_transaction_spec(
                    pre,
                    self.depth(),
                ),
            ensures
                value@ == discard_transaction_spec(pre, self.depth()),
            decreases value@.len(),
        {
            let n = value.0.len();
            if n == 0 {
                break ;
            }
            match value.0[n - 1].index {
                State::Transaction(ix) => {
                    if ix > self.0 {
                        let ghost before = value@;
                        value.0.pop();
                        proof {
                            assert(value@ == before.drop_last());
                        }
                    } else {
                        break ;
                    }
                },
                State::Committed => {
                    break ;
                },
            }
        }
        proof {
            if ordered(pre) {
                lemma_discard_transaction_keeps_invariant(pre, self.depth());
            }
        }
        if value.0.len() == 0 {
            PruneResult::Prune
        } else {
            PruneResult::Keep
        }
    }

    /// Update a history after one or more `commit_transaction` calls: the
    /// latest pending value, if it was written under a discarded layer, is
    /// re-tagged to the layer that is now the deepest open one.  Returns
    /// whether the history is still needed.
    pub fn apply_commit_transaction<V>(&self, value: &mut History<V>) -> (r: PruneResult)
        ensures
            final(value)@ == commit_transaction_spec(old(value)@, self.depth()),
            r == prune_of(final(value)@),
            ordered(old(value)@) ==> ordered(final(value)@) && synchronized(
                final(value)@,
                self.depth(),
            ),
    {
        let ghost pre = value@;
        let n = value.0.len();
        if n == 0 {
            return PruneResult::Prune;
        }
        let above = match value.0[n - 1].index {
            State::Transaction(ix) => ix > self.0,
            State::Committed => false,
        };
        if !above {
            proof {
                if ordered(pre) {
                    lemma_top_bounds_stack(pre, self.depth());
                }
            }
            return PruneResult::Keep;
        }
        let top = value.0.pop().unwrap();
        proof {
            assert(value@ == pre.drop_last());
        }
        loop
            invariant_except_break
                drop_at_or_above(value@, self.depth()) == drop_at_or_above(pre, self.depth()),
            ensures
                value@ == drop_at_or_above(pre, self.depth()),
            decreases value@.len(),
        {
            let m = value.0.len();
            if m == 0 {
                break ;
            }
            match value.0[m - 1].index {
                State::Transaction(ix) => {
                    if ix >= self.0 {
                        let ghost before = value@;
                        value.0.pop();
                        proof {
                            assert(value@ == before.drop_last());
                        }
                    } else {
                        break ;
                    }
                },
                State::Committed => {
                    break ;
                },
            }
        }
        value.0.push(HistoricalValue { value: top.value, index: State::Transaction(self.0) });
        proof {
            assert(value@ == commit_transaction_spec(pre, self.depth()));
            if ordered(pre) {
                lemma_commit_transaction_keeps_invariant(pre, self.depth());
            }
        }
        PruneResult::Keep
    }
}

/// A stack whose top entry sits at or below `depth` is, when ordered, wholly
/// at or below `depth`.
proof fn lemma_top_bounds_stack<V>(s: Seq<HistoricalValue<V>>, depth: usize)
    requires
        ordered(s),
        s.len() > 0 ==> s.last().index.rank() <= depth,
    ensures
        synchronized(s, depth),
{
    assert forall|i: int| 0 <= i < s.len() implies s[i].index.rank() <= depth by {
        if i < s.len() - 1 {
            assert(s[i].index.rank() < s[s.len() - 1].index.rank());
        }
    }
}

/// Removing entries from the top of an ordered stack leaves it ordered.
proof fn lemma_ordered_drop_last<V>(s: Seq<HistoricalValue<V>>)
    requires
        ordered(s),
        s.len() > 0,
    ensures
        ordered(s.drop_last()),
{
    assert forall|i: int, j: int| 0 <= i < j < s.drop_last().len() implies s.drop_last()[i].index.rank()
        < s.drop_last()[j].index.rank() by {
        assert(s.drop_last()[i] == s[i] && s.drop_last()[j] == s[j]);
    }
}

/// Discarding the layers above `depth` keeps the stack invariant and leaves
/// no entry above `depth`.
proof fn lemma_discard_transaction_keeps_invariant<V>(s: Seq<HistoricalValue<V>>, depth: usize)
    requires
        ordered(s),
    ensures
        ordered(discard_transaction_spec(s, depth)),
        synchronized(discard_transaction_spec(s, depth), depth),
    decreases s.len(),
{
    if s.len() > 0 && s.last().index.rank() > depth {
        lemma_ordered_drop_last(s);
        lemma_discard_transaction_keeps_invariant(s.drop_last(), depth);
    } else {
        lemma_top_bounds_stack(s, depth);
    }
}

/// After removing the entries at or above `depth` from an ordered stack,
/// everything left sits strictly below `depth`.
proof fn lemma_drop_at_or_above_stays_below<V>(s: Seq<HistoricalValue<V>>, depth: usize)
    requires
        ordered(s),
    ensures
        ordered(drop_at_or_above(s, depth)),
        forall|i: int|
            0 <= i < drop_at_or_above(s, depth).len() ==> drop_at_or_above(s, depth)[i].index.rank()
                < depth,
    decreases s.len(),
{
    if s.len() > 0 && s.last().index.rank() >= depth {
        lemma_ordered_drop_last(s);
        lemma_drop_at_or_above_stays_below(s.drop_last(), depth);
    } else {
        let r = drop_at_or_above(s, depth);
        assert forall|i: int| 0 <= i < r.len() implies r[i].index.rank() < depth by {
            if i < s.len() - 1 {
                assert(s[i].index.rank() < s[s.len() - 1].index.rank());
            }
        }
    }
}

/// Committing the layers above `depth` keeps the stack invariant and leaves
/// no entry above `depth`.
proof fn lemma_commit_transaction_keeps_invariant<V>(s: Seq<HistoricalValue<V>>, depth: usize)
    requires
        ordered(s),
    ensures
        ordered(commit_transaction_spec(s, depth)),
        synchronized(commit_transaction_spec(s, depth), depth),
    decreases s.len(),
{
    if s.len() > 0 && s.last().index.rank() > depth {
        lemma_drop_at_or_above_stays_below(s, depth);
        let t = commit_transaction_spec(s, depth);
        let kept = drop_at_or_above(s, depth);
        assert forall|i: int, j: int| 0 <= i < j < t.len() implies t[i].index.rank()
            < t[j].index.rank() by {
            if j < t.len() - 1 {
                assert(t[i] == kept[i] && t[j] == kept[j]);
            } else {
                assert(t[i] == kept[i]);
                assert(kept[i].index.rank() < depth);
            }
        }
        assert forall|i: int| 0 <= i < t.len() implies t[i].index.rank() <= depth by {
            if i < t.len() - 1 {
                assert(t[i] == kept[i]);
            }
        }
    } else {
        lemma_top_bounds_stack(s, depth);
    }
}

impl<V> History<V> {
    /// Set a value; it uses the global state as parameter.
    ///
    /// The top entry, if any, must have been written at or below the current
    /// depth: a deeper tag means the history was not synchronised after a
    /// depth change, which is a contract violation of the caller.
    pub fn set(&mut self, states: &States, value: V)
        requires
            old(self)@.len() > 0 ==> old(self)@.last().index.rank() <= states.depth(),
        ensures
            final(self)@ == set_spec(old(self)@, states.depth(), value),
            ordered(old(self)@) ==> ordered(final(self)@) && synchronized(
                final(self)@,
                states.depth(),
            ),
    {
        let ghost pre = self@;
        let ghost v = value;
        let n = self.0.len();
        if n > 0 {
            let top = self.0[n - 1].index;
            if let State::Transaction(ix) = top {
                if ix == states.0 {
                    let entry = vstd::std_specs::vec::vec_index_mut(&mut self.0, n - 1);
                    entry.value = value;
                    proof {
                        assert(self@ == set_spec(pre, states.depth(), v));
                        if ordered(pre) {
                            lemma_set_keeps_invariant(pre, states.depth(), v);
                        }
                    }
                    return ;
                }
            }
        }
        self.0.push(HistoricalValue { value, index: State::Transaction(states.0) });
        proof {
            assert(self@ == set_spec(pre, states.depth(), v));
            if ordered(pre) {
                lemma_set_keeps_invariant(pre, states.depth(), v);
            }
        }
    }

    /// Access to the latest pending value.
    pub fn get(&self) -> (r: Option<&V>)
        ensures
            self@.len() == 0 ==> r is None,
            self@.len() > 0 ==> (r matches Some(v) && *v == self@.last().value),
    {
        let n = self.0.len();
        if n == 0 {
            None
        } else {
            Some(&self.0[n - 1].value)
        }
    }

    /// Get the latest value, consuming the historical data.
    pub fn into_pending(self) -> (r: Option<V>)
        ensures
            self@.len() == 0 ==> r is None,
            self@.len() > 0 ==> r == Some(self@.last().value),
    {
        let mut this = self;
        match this.0.pop() {
            Some(entry) => Some(entry.value),
            None => None,
        }
    }

    /// The oldest prospective value: the first entry that is not the
    /// committed baseline.
    pub fn get_prospective(&self) -> (r: Option<&V>)
        ensures
            self@.len() == 0 ==> r is None,
            self@.len() > 0 && self@[0].index is Transaction ==> (r matches Some(v) && *v
                == self@[0].value),
            self@.len() == 1 && self@[0].index is Committed ==> r is None,
            self@.len() > 1 && self@[0].index is Committed && self@[1].index is Transaction ==> (
            r matches Some(v) && *v == self@[1].value),
            self@.len() > 1 && self@[0].index is Committed && self@[1].index is Committed ==> r
                is None,
    {
        if self.0.len() == 0 {
            return None;
        }
        match self.0[0].index {
            State::Committed => {
                if self.0.len() > 1 {
                    match self.0[1].index {
                        State::Transaction(_) => Some(&self.0[1].value),
                        State::Committed => None,
                    }
                } else {
                    None
                }
            },
            State::Transaction(_) => Some(&self.0[0].value),
        }
    }

    /// The committed baseline value, if the history holds one.
    pub fn get_committed(&self) -> (r: Option<&V>)
        ensures
            self@.len() > 0 && self@[0].index is Committed ==> (r matches Some(v) && *v
                == self@[0].value),
            !(self@.len() > 0 && self@[0].index is Committed) ==> r is None,
    {
        if self.0.len() == 0 {
            return None;
        }
        match self.0[0].index {
            State::Committed => Some(&self.0[0].value),
            State::Transaction(_) => None,
        }
    }

    /// Returns the latest pending historical value, with mutable access to
    /// the value itself; the tag comes along read-only, so in-place updates
    /// preserve the tagging.
    pub fn get_mut(&mut self) -> (r: Option<HistoricalValue<&mut V>>)
        ensures
            old(self)@.len() == 0 ==> (r is None && final(self)@ == old(self)@),
            old(self)@.len() > 0 ==> (r is Some && *r.unwrap().value == old(self)@.last().value
                && r.unwrap().index == old(self)@.last().index && final(self)@ == old(
                self,
            )@.update(
                old(self)@.len() - 1,
                HistoricalValue {
                    value: *final(r.unwrap().value),
                    index: old(self)@.last().index,
                },
            )),
    {
        let n = self.0.len();
        if n == 0 {
            None
        } else {
            let entry = vstd::std_specs::vec::vec_index_mut(&mut self.0, n - 1);
            let ix = entry.index;
            Some(HistoricalValue { value: &mut entry.value, index: ix })
        }
    }

    /// The committed baseline value, consuming the historical data; every
    /// entry beyond the baseline is dropped.
    pub fn into_committed(self) -> (r: Option<V>)
        ensures
            self@.len() > 0 && self@[0].index is Committed ==> r == Some(self@[0].value),
            !(self@.len() > 0 && self@[0].index is Committed) ==> r is None,
    {
        let mut this = self;
        this.0.truncate(1);
        match this.0.pop() {
            Some(entry) => match entry.index {
                State::Committed => Some(entry.value),
                State::Transaction(_) => None,
            },
            None => None,
        }
    }
}

/// A write at the current depth keeps the stack invariant, and leaves no
/// entry above the current depth.
proof fn lemma_set_keeps_invariant<V>(s: Seq<HistoricalValue<V>>, depth: usize, value: V)
    requires
        s.len() > 0 ==> s.last().index.rank() <= depth,
        ordered(s),
    ensures
        ordered(set_spec(s, depth, value)),
        synchronized(set_spec(s, depth, value), depth),
{
    let t = set_spec(s, depth, value);
    let entry = HistoricalValue { value, index: State::Transaction(depth) };
    assert(forall|i: int| 0 <= i < t.len() - 1 ==> t[i] == s[i]);
    assert(t.last() == entry);
    if !(s.len() > 0 && s.last().index == State::Transaction(depth)) {
        assert(s.len() > 0 ==> s.last().index.rank() < depth);
    }
    assert forall|i: int, j: int| 0 <= i < j < t.len() implies t[i].index.rank()
        < t[j].index.rank() by {
        if j < t.len() - 1 {
            assert(t[i] == s[i] && t[j] == s[j]);
        } else {
            assert(t[j] == entry);
            if i < s.len() - 1 {
                assert(s[i].index.rank() < s[s.len() - 1].index.rank());
            }
        }
    }
    assert forall|i: int| 0 <= i < t.len() implies t[i].index.rank() <= depth by {
        if i < t.len() - 1 {
            assert(t[i].index.rank() < t[t.len() - 1].index.rank());
        }
    }
}

} // verus!
