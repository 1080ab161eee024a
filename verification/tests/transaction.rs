use historical_data::transaction::History;
use historical_data::transaction::PruneResult;
use historical_data::transaction::State;
use historical_data::transaction::States;

#[test]
fn depth_counter_opens_and_closes() {
    let mut s = States::default();
    assert_eq!(s, States::test_state(0));
    s.start_transaction();
    s.start_transaction();
    assert_eq!(s, States::test_state(2));
    s.discard_transaction();
    assert_eq!(s, States::test_state(1));
    s.commit_transaction();
    assert_eq!(s, States::test_state(0));
}

#[test]
fn closing_at_depth_zero_is_a_no_op() {
    let mut s = States::default();
    s.discard_transaction();
    assert_eq!(s, States::test_state(0));
    s.commit_transaction();
    assert_eq!(s, States::test_state(0));
    s.discard_prospective();
    assert_eq!(s, States::test_state(0));
    s.commit_prospective();
    assert_eq!(s, States::test_state(0));
}

#[test]
fn empty_cell_write_then_peek() {
    let mut s = States::default();
    let mut h: History<String> = History::default();
    h.set(&s, String::from("a"));
    assert_eq!(h.get(), Some(&String::from("a")));
    // The tag is Transaction(0), not Committed, so nothing is committed yet.
    assert_eq!(h.clone().into_committed(), None);
    assert_eq!(h.get_committed(), None);
    // Committing the prospective state at depth zero makes it the baseline.
    s.commit_prospective();
    let r = s.apply_commit_prospective(&mut h);
    assert_eq!(r, PruneResult::Keep);
    assert_eq!(h.get_committed(), Some(&String::from("a")));
    assert_eq!(h.into_committed(), Some(String::from("a")));
}

#[test]
fn discard_transaction_restores_previous() {
    let mut s = States::default();
    let mut h: History<u64> = History::default();
    h.set(&s, 10);
    s.start_transaction();
    h.set(&s, 20);
    assert_eq!(h.get(), Some(&20));
    s.discard_transaction();
    let r = s.apply_discard_transaction(&mut h);
    assert_eq!(r, PruneResult::Keep);
    assert_eq!(h.get(), Some(&10));
}

#[test]
fn discard_transaction_on_fresh_cell_prunes() {
    let mut s = States::default();
    let mut h: History<u64> = History::default();
    s.start_transaction();
    h.set(&s, 20);
    s.discard_transaction();
    let r = s.apply_discard_transaction(&mut h);
    assert_eq!(r, PruneResult::Prune);
    assert_eq!(h.get(), None);
}

#[test]
fn commit_transaction_keeps_value() {
    let mut s = States::default();
    let mut h: History<u64> = History::default();
    h.set(&s, 10);
    s.start_transaction();
    h.set(&s, 20);
    s.commit_transaction();
    let r = s.apply_commit_transaction(&mut h);
    assert_eq!(r, PruneResult::Keep);
    // The committed write absorbed the older layer-zero entry.
    assert_eq!(h.get(), Some(&20));
    assert_eq!(h.get_prospective(), Some(&20));
    assert_eq!(h.into_pending(), Some(20));
}

#[test]
fn write_twice_at_same_depth_overwrites() {
    let mut s = States::default();
    let mut h: History<u64> = History::default();
    h.set(&s, 1);
    s.start_transaction();
    h.set(&s, 2);
    h.set(&s, 3);
    assert_eq!(h.get(), Some(&3));
    // Both writes of the transaction layer sit in one entry: one discard
    // removes them together.
    s.discard_transaction();
    let r = s.apply_discard_transaction(&mut h);
    assert_eq!(r, PruneResult::Keep);
    assert_eq!(h.get(), Some(&1));
}

#[test]
fn get_prospective_skips_committed_baseline() {
    let mut s = States::default();
    let mut h: History<u64> = History::default();
    h.set(&s, 10);
    s.commit_prospective();
    s.apply_commit_prospective(&mut h);
    // Baseline committed; a new speculative write goes on top of it.
    h.set(&s, 20);
    assert_eq!(h.get(), Some(&20));
    assert_eq!(h.get_prospective(), Some(&20));
    assert_eq!(h.get_committed(), Some(&10));
}

#[test]
fn get_prospective_none_without_speculative_entry() {
    let mut s = States::default();
    let mut h: History<u64> = History::default();
    assert_eq!(h.get_prospective(), None);
    h.set(&s, 10);
    s.commit_prospective();
    s.apply_commit_prospective(&mut h);
    assert_eq!(h.get_prospective(), None);
    assert_eq!(h.get_committed(), Some(&10));
}

#[test]
fn into_pending_returns_latest() {
    let s = States::default();
    let mut h: History<u64> = History::default();
    assert_eq!(h.clone().into_pending(), None);
    h.set(&s, 4);
    assert_eq!(h.into_pending(), Some(4));
}

#[test]
fn get_mut_updates_in_place() {
    let s = States::default();
    let mut h: History<u64> = History::default();
    assert!(h.get_mut().is_none());
    h.set(&s, 5);
    {
        let entry = h.get_mut().unwrap();
        assert_eq!(entry.index, State::Transaction(0));
        *entry.value = 7;
    }
    assert_eq!(h.get(), Some(&7));
    // The tag was preserved by the in-place update.
    assert_eq!(h.get_committed(), None);
}

#[test]
fn transaction_index_of_tags() {
    assert_eq!(State::Committed.transaction_index(), None);
    assert_eq!(State::Transaction(3).transaction_index(), Some(3));
}

#[test]
fn reconciliation_on_empty_cell_prunes() {
    let s = States::default();
    let mut h: History<u64> = History::default();
    assert_eq!(s.apply_discard_prospective(&mut h), PruneResult::Prune);
    assert_eq!(s.apply_commit_prospective(&mut h), PruneResult::Prune);
    assert_eq!(s.apply_discard_transaction(&mut h), PruneResult::Prune);
    assert_eq!(s.apply_commit_transaction(&mut h), PruneResult::Prune);
    assert_eq!(h.get(), None);
}

#[test]
fn multiple_discards_reconciled_at_once() {
    let mut s = States::default();
    let mut h: History<u64> = History::default();
    h.set(&s, 1);
    s.start_transaction();
    h.set(&s, 2);
    s.start_transaction();
    h.set(&s, 3);
    s.start_transaction();
    h.set(&s, 4);
    s.discard_transaction();
    s.discard_transaction();
    s.discard_transaction();
    let r = s.apply_discard_transaction(&mut h);
    assert_eq!(r, PruneResult::Keep);
    assert_eq!(h.get(), Some(&1));
}

#[test]
fn multiple_commits_reconciled_at_once() {
    let mut s = States::default();
    let mut h: History<u64> = History::default();
    h.set(&s, 1);
    s.start_transaction();
    h.set(&s, 2);
    s.start_transaction();
    h.set(&s, 3);
    s.commit_transaction();
    s.commit_transaction();
    let r = s.apply_commit_transaction(&mut h);
    assert_eq!(r, PruneResult::Keep);
    assert_eq!(h.get(), Some(&3));
    assert_eq!(h.get_prospective(), Some(&3));
}

#[test]
fn discard_prospective_keeps_baseline_only() {
    let mut s = States::default();
    let mut h: History<u64> = History::default();
    h.set(&s, 10);
    s.commit_prospective();
    s.apply_commit_prospective(&mut h);
    h.set(&s, 20);
    s.start_transaction();
    h.set(&s, 30);
    s.discard_prospective();
    let r = s.apply_discard_prospective(&mut h);
    assert_eq!(r, PruneResult::Keep);
    assert_eq!(h.get(), Some(&10));
    assert_eq!(h.get_committed(), Some(&10));
}

#[test]
fn discard_prospective_without_baseline_prunes() {
    let mut s = States::default();
    let mut h: History<u64> = History::default();
    h.set(&s, 10);
    s.start_transaction();
    h.set(&s, 20);
    s.discard_prospective();
    let r = s.apply_discard_prospective(&mut h);
    assert_eq!(r, PruneResult::Prune);
    assert_eq!(h.get(), None);
}

#[test]
fn stale_layer_zero_entries_survive_transaction_reconciliation() {
    let mut s = States::default();
    let mut h: History<u64> = History::default();
    h.set(&s, 10);
    // A closing operation at depth zero leaves the counter alone, but the
    // reconciliation must still run correctly against depth zero.
    s.discard_transaction();
    let r = s.apply_discard_transaction(&mut h);
    assert_eq!(r, PruneResult::Keep);
    assert_eq!(h.get(), Some(&10));
    s.commit_transaction();
    let r = s.apply_commit_transaction(&mut h);
    assert_eq!(r, PruneResult::Keep);
    assert_eq!(h.get(), Some(&10));
    assert_eq!(h.get_committed(), None);
}

#[test]
fn commit_prospective_takes_latest_pending_value() {
    let mut s = States::default();
    let mut h: History<u64> = History::default();
    h.set(&s, 10);
    s.start_transaction();
    h.set(&s, 20);
    // The whole speculative stack collapses into the baseline at once.
    s.commit_prospective();
    let r = s.apply_commit_prospective(&mut h);
    assert_eq!(r, PruneResult::Keep);
    assert_eq!(h.get_committed(), Some(&20));
    assert_eq!(h.into_committed(), Some(20));
}
