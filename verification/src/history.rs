//! Histories: what any sequence of operations makes of the key/value map.
//!
//! An operation of the store is one of three steps on its log: a record is
//! appended, the log is compacted, or the store is opened anew. The store's
//! functions say of each call which step it is. The lemmas here follow a
//! log through any number of steps: the key/value map at the end is what a
//! plain map yields that is fed the appended commands in their order. A
//! compaction and a reopening change nothing in it.

use crate::command::{CommandView, Pos, RecordView, TermLogView};
use crate::compaction::{compacted_log, lemma_compacted_log_values};
use crate::index::enumerates;
use crate::log::{
    append_record, apply_command, apply_record, empty_file, file_len, file_values, initial_state,
    lemma_append_record, lemma_push_empty_file, log_values, replay, replay_file, IndexState,
};
use vstd::prelude::*;

verus! {

/// One step in the life of a log.
pub enum Step {
    /// A `set` or a `remove` took note of the record `rec` at the end of
    /// the active file.
    Append { rec: RecordView },
    /// A compaction copied the live records, in the order `order`, to the
    /// file of `compact_term` and made the file of `next_term` the active
    /// one.
    Compact { order: Seq<(Seq<char>, Pos)>, compact_term: u64, next_term: u64 },
    /// The store was opened anew, with the file of `term` as the new
    /// active file.
    Reopen { term: u64 },
}

/// Whether `step` can be taken on `log`: a record needs an active file to
/// go to, and a compaction copies exactly the records of the index.
pub open spec fn step_fits(log: Seq<TermLogView>, step: Step) -> bool {
    match step {
        Step::Append { rec } => log.len() > 0,
        Step::Compact { order, compact_term, next_term } => enumerates(order, replay(log).index),
        Step::Reopen { term } => true,
    }
}

/// The log after `step`.
pub open spec fn after_step(log: Seq<TermLogView>, step: Step) -> Seq<TermLogView> {
    match step {
        Step::Append { rec } => append_record(log, rec),
        Step::Compact { order, compact_term, next_term } => compacted_log(
            order,
            log_values(log),
            compact_term,
            next_term,
        ),
        Step::Reopen { term } => log.push(empty_file(term)),
    }
}

/// The log after the steps of `steps`, taken in their order.
pub open spec fn after_steps(log: Seq<TermLogView>, steps: Seq<Step>) -> Seq<TermLogView>
    decreases steps.len(),
{
    if steps.len() == 0 {
        log
    } else {
        after_step(after_steps(log, steps.drop_last()), steps.last())
    }
}

/// Whether each step of `steps` can be taken on the log that the steps
/// before it leave.
pub open spec fn steps_fit(log: Seq<TermLogView>, steps: Seq<Step>) -> bool
    decreases steps.len(),
{
    steps.len() == 0 || (steps_fit(log, steps.drop_last()) && step_fits(
        after_steps(log, steps.drop_last()),
        steps.last(),
    ))
}

/// The plain map after the steps of `steps`: each appended command is
/// applied, in order; a compaction and a reopening leave the map alone.
pub open spec fn oracle(values: Map<Seq<char>, Seq<char>>, steps: Seq<Step>) -> Map<
    Seq<char>,
    Seq<char>,
>
    decreases steps.len(),
{
    if steps.len() == 0 {
        values
    } else {
        match steps.last() {
            Step::Append { rec } => apply_command(oracle(values, steps.drop_last()), rec.cmd),
            _ => oracle(values, steps.drop_last()),
        }
    }
}

/// Replaying a file keeps the keys of the index and of the key/value map
/// the same.
pub proof fn lemma_file_keys_agree(
    state: IndexState,
    values: Map<Seq<char>, Seq<char>>,
    term: u64,
    records: Seq<RecordView>,
)
    requires
        state.index.dom() == values.dom(),
    ensures
        replay_file(state, term, records).index.dom() == file_values(values, records).dom(),
    decreases records.len(),
{
    if records.len() != 0 {
        lemma_file_keys_agree(state, values, term, records.drop_last());
        let before = replay_file(state, term, records.drop_last());
        let after = apply_record(before, term, file_len(records.drop_last()), records.last());
        assert(after.index.dom() =~= apply_command(
            file_values(values, records.drop_last()),
            records.last().cmd,
        ).dom());
    }
}

/// The index that replaying a log yields has the keys of the key/value map
/// that the log stands for.
pub proof fn lemma_keys_agree(log: Seq<TermLogView>)
    ensures
        replay(log).index.dom() == log_values(log).dom(),
    decreases log.len(),
{
    if log.len() == 0 {
        assert(initial_state().index.dom() =~= Map::<Seq<char>, Seq<char>>::empty().dom());
    } else {
        lemma_keys_agree(log.drop_last());
        lemma_file_keys_agree(
            replay(log.drop_last()),
            log_values(log.drop_last()),
            log.last().term,
            log.last().records,
        );
    }
}

/// One step does to the key/value map of the log what it does to the plain
/// map: an appended command is applied, a compaction and a reopening change
/// nothing.
pub proof fn lemma_step_follows_oracle(log: Seq<TermLogView>, step: Step)
    requires
        step_fits(log, step),
    ensures
        log_values(after_step(log, step)) == oracle(log_values(log), seq![step]),
{
    assert(seq![step].drop_last() =~= Seq::<Step>::empty());
    assert(seq![step].last() == step);
    assert(oracle(log_values(log), Seq::<Step>::empty()) == log_values(log));
    match step {
        Step::Append { rec } => {
            lemma_append_record(log, rec);
        },
        Step::Compact { order, compact_term, next_term } => {
            lemma_keys_agree(log);
            lemma_compacted_log_values(
                order,
                replay(log).index,
                log_values(log),
                compact_term,
                next_term,
            );
        },
        Step::Reopen { term } => {
            lemma_push_empty_file(log, term);
        },
    }
}

/// After any number of steps, compactions and reopenings among them, the
/// log stands for the key/value map that the plain map yields.
pub proof fn lemma_history_follows_oracle(log: Seq<TermLogView>, steps: Seq<Step>)
    requires
        steps_fit(log, steps),
    ensures
        log_values(after_steps(log, steps)) == oracle(log_values(log), steps),
    decreases steps.len(),
{
    if steps.len() != 0 {
        let before = after_steps(log, steps.drop_last());
        lemma_history_follows_oracle(log, steps.drop_last());
        lemma_step_follows_oracle(before, steps.last());
        assert(seq![steps.last()].drop_last() =~= Seq::<Step>::empty());
        assert(seq![steps.last()].last() == steps.last());
        assert(oracle(log_values(before), Seq::<Step>::empty()) == log_values(before));
    }
}

/// Whether no step of `steps` behind the one at `last` appends a command
/// about the key of the record that the step at `last` appends.
pub open spec fn last_about_its_key(steps: Seq<Step>, last: int) -> bool {
    &&& 0 <= last < steps.len()
    &&& steps[last] is Append
    &&& forall|i: int|
        last < i < steps.len() && (#[trigger] steps[i]) is Append ==> steps[i]->rec.cmd.key()
            != steps[last]->rec.cmd.key()
}

/// In the plain map the last command about a key decides: the key has the
/// value of a `Put`, and none after a `Remove`, whatever was appended about
/// other keys since, and however often the log was compacted or reopened.
pub proof fn lemma_oracle_last_write_wins(
    values: Map<Seq<char>, Seq<char>>,
    steps: Seq<Step>,
    last: int,
)
    requires
        last_about_its_key(steps, last),
    ensures
        steps[last]->rec.cmd matches CommandView::Put { key, value } ==> oracle(
            values,
            steps,
        ).contains_key(key) && oracle(values, steps)[key] == value,
        steps[last]->rec.cmd matches CommandView::Remove { key } ==> !oracle(
            values,
            steps,
        ).contains_key(key),
    decreases steps.len(),
{
    if last < steps.len() - 1 {
        let fewer = steps.drop_last();
        assert(fewer[last] == steps[last]);
        assert forall|i: int| last < i < fewer.len() && (#[trigger] fewer[i]) is Append implies fewer[i]->rec.cmd.key()
            != fewer[last]->rec.cmd.key() by {
            assert(fewer[i] == steps[i]);
        }
        lemma_oracle_last_write_wins(values, fewer, last);
        assert(steps.last() == steps[steps.len() - 1]);
    }
}

/// What a store holds for a key after any history: where the last record
/// about the key is a `Put`, its value; where it is a `Remove`, nothing.
/// Records about other keys, compactions and reopenings that come after it
/// change nothing in that.
pub proof fn lemma_history_last_write_wins(log: Seq<TermLogView>, steps: Seq<Step>, last: int)
    requires
        steps_fit(log, steps),
        last_about_its_key(steps, last),
    ensures
        steps[last]->rec.cmd matches CommandView::Put { key, value } ==> log_values(
            after_steps(log, steps),
        ).contains_key(key) && log_values(after_steps(log, steps))[key] == value,
        steps[last]->rec.cmd matches CommandView::Remove { key } ==> !log_values(
            after_steps(log, steps),
        ).contains_key(key),
{
    lemma_history_follows_oracle(log, steps);
    lemma_oracle_last_write_wins(log_values(log), steps, last);
}

} // verus!
