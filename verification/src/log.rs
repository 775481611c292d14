//! The log as mathematics: what a sequence of term files means.
//!
//! A log is a sequence of term files, each a sequence of records. Replaying
//! it record by record yields the index, the count of dead bytes and the
//! key/value map that the store stands for. The functions here define that
//! replay; the lemmas relate it to the lengths of the files.

use crate::command::{CommandView, Pos, RecordView, TermLogView};
use vstd::prelude::*;

verus! {

/// What replaying a log yields for the engine: the index and the number of
/// bytes taken by records that the index no longer refers to.
pub struct IndexState {
    pub index: Map<Seq<char>, Pos>,
    pub uncompacted: int,
}

/// The state before any record.
pub open spec fn initial_state() -> IndexState {
    IndexState { index: Map::empty(), uncompacted: 0 }
}

/// The length of the record that `index` holds for `key`, or 0 without one.
pub open spec fn len_at(index: Map<Seq<char>, Pos>, key: Seq<char>) -> int {
    if index.contains_key(key) {
        index[key].len as int
    } else {
        0
    }
}

/// The state after the record `rec`, which starts at `offset` of the file
/// of `term`.
///
/// A `Put` binds its key to the record's position; the record that it
/// displaces becomes dead. A `Remove` unbinds its key; the record that was
/// bound and the `Remove` record itself become dead.
pub open spec fn apply_record(state: IndexState, term: u64, offset: int, rec: RecordView)
    -> IndexState {
    match rec.cmd {
        CommandView::Put { key, .. } => IndexState {
            index: state.index.insert(key, Pos { term, offset: offset as u64, len: rec.len }),
            uncompacted: state.uncompacted + len_at(state.index, key),
        },
        CommandView::Remove { key } => IndexState {
            index: state.index.remove(key),
            uncompacted: state.uncompacted + len_at(state.index, key) + rec.len,
        },
    }
}

/// The number of bytes of a file that holds `records`.
pub open spec fn file_len(records: Seq<RecordView>) -> int
    decreases records.len(),
{
    if records.len() == 0 {
        0
    } else {
        file_len(records.drop_last()) + records.last().len
    }
}

/// The state after the records of one file, replayed in file order from
/// `state`.
pub open spec fn replay_file(state: IndexState, term: u64, records: Seq<RecordView>)
    -> IndexState
    decreases records.len(),
{
    if records.len() == 0 {
        state
    } else {
        apply_record(
            replay_file(state, term, records.drop_last()),
            term,
            file_len(records.drop_last()),
            records.last(),
        )
    }
}

/// The state after all files of `log`, replayed in the order of the
/// sequence.
pub open spec fn replay(log: Seq<TermLogView>) -> IndexState
    decreases log.len(),
{
    if log.len() == 0 {
        initial_state()
    } else {
        replay_file(replay(log.drop_last()), log.last().term, log.last().records)
    }
}

/// The number of bytes of all files of `log` together.
pub open spec fn total_len(log: Seq<TermLogView>) -> int
    decreases log.len(),
{
    if log.len() == 0 {
        0
    } else {
        total_len(log.drop_last()) + file_len(log.last().records)
    }
}

/// The key/value map after the command `cmd`.
pub open spec fn apply_command(values: Map<Seq<char>, Seq<char>>, cmd: CommandView) -> Map<
    Seq<char>,
    Seq<char>,
> {
    match cmd {
        CommandView::Put { key, value } => values.insert(key, value),
        CommandView::Remove { key } => values.remove(key),
    }
}

/// The key/value map after the records of one file, applied in file order
/// to `values`.
pub open spec fn file_values(values: Map<Seq<char>, Seq<char>>, records: Seq<RecordView>) -> Map<
    Seq<char>,
    Seq<char>,
>
    decreases records.len(),
{
    if records.len() == 0 {
        values
    } else {
        apply_command(file_values(values, records.drop_last()), records.last().cmd)
    }
}

/// The key/value map that `log` stands for.
pub open spec fn log_values(log: Seq<TermLogView>) -> Map<Seq<char>, Seq<char>>
    decreases log.len(),
{
    if log.len() == 0 {
        Map::empty()
    } else {
        file_values(log_values(log.drop_last()), log.last().records)
    }
}

/// The log after one more record at the end of its last file.
pub open spec fn append_record(log: Seq<TermLogView>, rec: RecordView) -> Seq<TermLogView>
    recommends
        log.len() > 0,
{
    log.drop_last().push(
        TermLogView { term: log.last().term, records: log.last().records.push(rec) },
    )
}

/// The greatest term of `log`, or 0 for the empty log.
pub open spec fn max_term(log: Seq<TermLogView>) -> int
    decreases log.len(),
{
    if log.len() == 0 {
        0
    } else if log.last().term > max_term(log.drop_last()) {
        log.last().term as int
    } else {
        max_term(log.drop_last())
    }
}

/// The sum of the lengths of the records that `index` refers to.
pub open spec fn live_len(index: Map<Seq<char>, Pos>) -> int
    decreases index.dom().len(),
    when index.dom().finite()
    via live_len_decreases
{
    if index.dom().len() == 0 {
        0
    } else {
        let key = index.dom().choose();
        index[key].len + live_len(index.remove(key))
    }
}

#[via_fn]
proof fn live_len_decreases(index: Map<Seq<char>, Pos>) {
    if index.dom().len() != 0 {
        let key = index.dom().choose();
        assert(index.dom().contains(key));
        assert(index.remove(key).dom() =~= index.dom().remove(key));
    }
}

/// The sum does not depend on the key that is taken out first.
pub proof fn lemma_live_len_remove(index: Map<Seq<char>, Pos>, key: Seq<char>)
    requires
        index.dom().finite(),
        index.contains_key(key),
    ensures
        live_len(index) == index[key].len + live_len(index.remove(key)),
    decreases index.dom().len(),
{
    let first = index.dom().choose();
    assert(index.dom().len() != 0);
    assert(index.dom().contains(first));
    if first != key {
        assert(index.remove(first).dom() =~= index.dom().remove(first));
        assert(index.remove(key).dom() =~= index.dom().remove(key));
        lemma_live_len_remove(index.remove(first), key);
        lemma_live_len_remove(index.remove(key), first);
        assert(index.remove(first).remove(key) =~= index.remove(key).remove(first));
    }
}

/// Binding a key adds the new length and takes off the one it displaces.
pub proof fn lemma_live_len_insert(index: Map<Seq<char>, Pos>, key: Seq<char>, pos: Pos)
    requires
        index.dom().finite(),
    ensures
        live_len(index.insert(key, pos)) == live_len(index) - len_at(index, key) + pos.len,
{
    let after = index.insert(key, pos);
    assert(after.dom() =~= index.dom().insert(key));
    lemma_live_len_remove(after, key);
    assert(after.remove(key) =~= index.remove(key));
    if index.contains_key(key) {
        lemma_live_len_remove(index, key);
    } else {
        assert(index.remove(key) =~= index);
    }
}

/// Unbinding a key takes off its length.
pub proof fn lemma_live_len_unbind(index: Map<Seq<char>, Pos>, key: Seq<char>)
    requires
        index.dom().finite(),
    ensures
        live_len(index.remove(key)) == live_len(index) - len_at(index, key),
{
    if index.contains_key(key) {
        lemma_live_len_remove(index, key);
    } else {
        assert(index.remove(key) =~= index);
    }
}

/// A sum of lengths is never negative.
pub proof fn lemma_live_len_nonnegative(index: Map<Seq<char>, Pos>)
    requires
        index.dom().finite(),
    ensures
        live_len(index) >= 0,
    decreases index.dom().len(),
{
    if index.dom().len() != 0 {
        let key = index.dom().choose();
        assert(index.dom().contains(key));
        assert(index.remove(key).dom() =~= index.dom().remove(key));
        lemma_live_len_nonnegative(index.remove(key));
    }
}

/// A file is never shorter than nothing.
pub proof fn lemma_file_len_nonnegative(records: Seq<RecordView>)
    ensures
        file_len(records) >= 0,
    decreases records.len(),
{
    if records.len() != 0 {
        lemma_file_len_nonnegative(records.drop_last());
    }
}

/// A log is never shorter than nothing.
pub proof fn lemma_total_len_nonnegative(log: Seq<TermLogView>)
    ensures
        total_len(log) >= 0,
    decreases log.len(),
{
    if log.len() != 0 {
        lemma_total_len_nonnegative(log.drop_last());
        lemma_file_len_nonnegative(log.last().records);
    }
}

/// One record keeps the index finite, and every byte of it is either live
/// or dead afterwards.
pub proof fn lemma_apply_record_accounts(state: IndexState, term: u64, offset: int, rec: RecordView)
    requires
        state.index.dom().finite(),
    ensures
        apply_record(state, term, offset, rec).index.dom().finite(),
        apply_record(state, term, offset, rec).uncompacted + live_len(
            apply_record(state, term, offset, rec).index,
        ) == state.uncompacted + live_len(state.index) + rec.len,
        apply_record(state, term, offset, rec).uncompacted >= state.uncompacted,
{
    match rec.cmd {
        CommandView::Put { key, .. } => {
            let pos = Pos { term, offset: offset as u64, len: rec.len };
            lemma_live_len_insert(state.index, key, pos);
        },
        CommandView::Remove { key } => {
            lemma_live_len_unbind(state.index, key);
        },
    }
}

/// Replaying a file keeps the index finite, and every byte of the file is
/// either live or dead afterwards.
pub proof fn lemma_replay_file_accounts(state: IndexState, term: u64, records: Seq<RecordView>)
    requires
        state.index.dom().finite(),
    ensures
        replay_file(state, term, records).index.dom().finite(),
        replay_file(state, term, records).uncompacted + live_len(
            replay_file(state, term, records).index,
        ) == state.uncompacted + live_len(state.index) + file_len(records),
        replay_file(state, term, records).uncompacted >= state.uncompacted,
    decreases records.len(),
{
    if records.len() != 0 {
        lemma_replay_file_accounts(state, term, records.drop_last());
        lemma_apply_record_accounts(
            replay_file(state, term, records.drop_last()),
            term,
            file_len(records.drop_last()),
            records.last(),
        );
    }
}

/// Replaying a log yields a finite index, and the dead and the live bytes
/// are together the bytes of the log.
pub proof fn lemma_replay_accounts(log: Seq<TermLogView>)
    ensures
        replay(log).index.dom().finite(),
        replay(log).uncompacted + live_len(replay(log).index) == total_len(log),
        replay(log).uncompacted >= 0,
    decreases log.len(),
{
    if log.len() != 0 {
        lemma_replay_accounts(log.drop_last());
        lemma_replay_file_accounts(replay(log.drop_last()), log.last().term, log.last().records);
    } else {
        assert(live_len(initial_state().index) == 0);
    }
}

/// The state that holds `index` and has counted no dead byte yet.
pub open spec fn starting_from(index: Map<Seq<char>, Pos>) -> IndexState {
    IndexState { index, uncompacted: 0 }
}

/// An empty file of `term`.
pub open spec fn empty_file(term: u64) -> TermLogView {
    TermLogView { term, records: Seq::empty() }
}

/// The record of a `Put` of `key` and `value` that takes `len` bytes.
pub open spec fn put_record(key: Seq<char>, value: Seq<char>, len: u64) -> RecordView {
    RecordView { cmd: CommandView::Put { key, value }, len }
}

/// The record of a `Remove` of `key` that takes `len` bytes.
pub open spec fn remove_record(key: Seq<char>, len: u64) -> RecordView {
    RecordView { cmd: CommandView::Remove { key }, len }
}

/// Whether `rec` is a record of `log` that lies at `pos`: in a file of the
/// term of `pos`, behind exactly `pos.offset` bytes of earlier records, and
/// `pos.len` bytes long.
pub open spec fn holds_at(log: Seq<TermLogView>, pos: Pos, rec: RecordView) -> bool {
    exists|f: int, i: int|
        0 <= f < log.len() && 0 <= i < log[f].records.len() && log[f].term == pos.term
            && file_len(log[f].records.take(i)) == pos.offset && #[trigger] log[f].records[i]
            == rec && rec.len == pos.len
}

/// The dead bytes counted before a file add to those counted in it.
pub proof fn lemma_replay_file_shift(state: IndexState, term: u64, records: Seq<RecordView>)
    ensures
        replay_file(state, term, records).index == replay_file(
            starting_from(state.index),
            term,
            records,
        ).index,
        replay_file(state, term, records).uncompacted == state.uncompacted + replay_file(
            starting_from(state.index),
            term,
            records,
        ).uncompacted,
    decreases records.len(),
{
    if records.len() != 0 {
        lemma_replay_file_shift(state, term, records.drop_last());
    }
}

/// A record at the end of the last file is one more step of the replay.
pub proof fn lemma_append_record(log: Seq<TermLogView>, rec: RecordView)
    requires
        log.len() > 0,
    ensures
        replay(append_record(log, rec)) == apply_record(
            replay(log),
            log.last().term,
            file_len(log.last().records),
            rec,
        ),
        total_len(append_record(log, rec)) == total_len(log) + rec.len,
        log_values(append_record(log, rec)) == apply_command(log_values(log), rec.cmd),
        max_term(append_record(log, rec)) == max_term(log),
{
    let after = append_record(log, rec);
    assert(after.drop_last() =~= log.drop_last());
    assert(after.last().records.drop_last() =~= log.last().records);
}

/// An empty file at the end of the log changes nothing that replay yields.
pub proof fn lemma_push_empty_file(log: Seq<TermLogView>, term: u64)
    ensures
        replay(log.push(empty_file(term))) == replay(log),
        total_len(log.push(empty_file(term))) == total_len(log),
        log_values(log.push(empty_file(term))) == log_values(log),
{
    assert(log.push(empty_file(term)).drop_last() =~= log);
}

/// No term of a log is greater than its greatest.
pub proof fn lemma_max_term_bounds(log: Seq<TermLogView>, f: int)
    requires
        0 <= f < log.len(),
    ensures
        log[f].term <= max_term(log),
    decreases log.len(),
{
    if f < log.len() - 1 {
        lemma_max_term_bounds(log.drop_last(), f);
    }
}

/// A longer log is not shorter in bytes.
pub proof fn lemma_total_len_prefix(log: Seq<TermLogView>, n: int)
    requires
        0 <= n <= log.len(),
    ensures
        total_len(log.take(n)) <= total_len(log),
    decreases log.len(),
{
    if n == log.len() {
        assert(log.take(n) =~= log);
    } else {
        lemma_total_len_prefix(log.drop_last(), n);
        lemma_file_len_nonnegative(log.last().records);
        assert(log.drop_last().take(n) =~= log.take(n));
    }
}

/// What holds at a position keeps holding when a record is appended.
pub proof fn lemma_holds_at_after_append(
    log: Seq<TermLogView>,
    rec: RecordView,
    pos: Pos,
    held: RecordView,
)
    requires
        log.len() > 0,
        holds_at(log, pos, held),
    ensures
        holds_at(append_record(log, rec), pos, held),
{
    let after = append_record(log, rec);
    let (f, i) = choose|f: int, i: int|
        0 <= f < log.len() && 0 <= i < log[f].records.len() && log[f].term == pos.term
            && file_len(log[f].records.take(i)) == pos.offset && #[trigger] log[f].records[i]
            == held && held.len == pos.len;
    assert(after[f].records.take(i) =~= log[f].records.take(i));
    assert(after[f].records[i] == held);
}

/// What holds at a position keeps holding when a file is added.
pub proof fn lemma_holds_at_after_push(
    log: Seq<TermLogView>,
    file: TermLogView,
    pos: Pos,
    held: RecordView,
)
    requires
        holds_at(log, pos, held),
    ensures
        holds_at(log.push(file), pos, held),
{
    let after = log.push(file);
    let (f, i) = choose|f: int, i: int|
        0 <= f < log.len() && 0 <= i < log[f].records.len() && log[f].term == pos.term
            && file_len(log[f].records.take(i)) == pos.offset && #[trigger] log[f].records[i]
            == held && held.len == pos.len;
    assert(after[f].records[i] == held);
}

/// Whether the index and the key/value map agree with the log: they have
/// the same keys, and at the position of each key lies a `Put` of that key
/// and its value.
pub open spec fn index_matches(
    log: Seq<TermLogView>,
    index: Map<Seq<char>, Pos>,
    values: Map<Seq<char>, Seq<char>>,
) -> bool {
    &&& index.dom() == values.dom()
    &&& forall|key: Seq<char>| #[trigger]
        index.contains_key(key) ==> holds_at(
            log,
            index[key],
            put_record(key, values[key], index[key].len),
        )
}

/// The index that replay yields points at the records that hold the
/// values that replay yields.
pub proof fn lemma_replay_matches(log: Seq<TermLogView>)
    requires
        total_len(log) <= u64::MAX,
    ensures
        index_matches(log, replay(log).index, log_values(log)),
    decreases log.len(), (if log.len() > 0 { log.last().records.len() } else { 0 }),
{
    if log.len() == 0 {
        assert(replay(log).index.dom() =~= log_values(log).dom());
    } else if log.last().records.len() == 0 {
        let before = log.drop_last();
        lemma_file_len_nonnegative(log.last().records);
        lemma_replay_matches(before);
        assert(log =~= before.push(log.last()));
        assert forall|key: Seq<char>| #[trigger] replay(log).index.contains_key(key) implies holds_at(
            log,
            replay(log).index[key],
            put_record(key, log_values(log)[key], replay(log).index[key].len),
        ) by {
            lemma_holds_at_after_push(
                before,
                log.last(),
                replay(log).index[key],
                put_record(key, log_values(log)[key], replay(log).index[key].len),
            );
        }
    } else {
        let term = log.last().term;
        let records = log.last().records;
        let rec = records.last();
        let before = log.drop_last().push(
            TermLogView { term, records: records.drop_last() },
        );
        assert(before.drop_last() =~= log.drop_last());
        assert(append_record(before, rec) =~= log) by {
            assert(records.drop_last().push(rec) =~= records);
        }
        lemma_append_record(before, rec);
        lemma_total_len_nonnegative(log.drop_last());
        lemma_file_len_nonnegative(records.drop_last());
        lemma_replay_matches(before);
        let old_index = replay(before).index;
        let old_values = log_values(before);
        let new_index = replay(log).index;
        let new_values = log_values(log);
        let offset = file_len(records.drop_last());
        assert(new_index.dom() =~= new_values.dom());
        assert forall|key: Seq<char>| #[trigger] new_index.contains_key(key) implies holds_at(
            log,
            new_index[key],
            put_record(key, new_values[key], new_index[key].len),
        ) by {
            if rec.cmd is Put && rec.cmd->Put_key == key {
                let f = log.len() - 1;
                let i = records.len() - 1;
                assert(records.take(i) =~= records.drop_last());
                assert(log[f].records[i] == put_record(key, new_values[key], rec.len));
            } else {
                assert(old_index.contains_key(key));
                lemma_holds_at_after_append(
                    before,
                    rec,
                    old_index[key],
                    put_record(key, old_values[key], old_index[key].len),
                );
            }
        }
    }
}

} // verus!
