//! The store: the index, the counters of the writer, and the log that
//! they stand for.
//!
//! The store does not touch files. Its caller appends a record to the
//! active file and then tells the store, which moves the index; or asks the
//! store where a value lies and then reads it. What the files must hold for
//! this to be sound is the store's view: the log, file by file and record
//! by record. Every operation says how it changes that log.

use crate::command::{Command, LogRecord, Pos, RecordView, TermLog, TermLogView};
use crate::compaction::{
    compacted_log, copy_plan, lemma_compacted_log, lemma_enumerates_sums, lemma_pairs_len_prefix,
    lemma_replay_compacted, pairs_len, sources, Compaction, CopyStep,
};
use crate::error::KvsError;
use crate::history::{after_step, step_fits, Step};
use crate::index::{enumerates, KeyIndex};
use crate::log::{
    append_record, empty_file, file_len, holds_at, index_matches, lemma_append_record,
    lemma_file_len_nonnegative, lemma_live_len_nonnegative, lemma_max_term_bounds,
    lemma_push_empty_file, lemma_replay_accounts, lemma_replay_file_accounts,
    lemma_replay_file_shift, lemma_replay_matches, lemma_total_len_nonnegative,
    lemma_total_len_prefix, len_at, live_len, log_values, max_term, put_record, remove_record,
    replay, replay_file, starting_from, total_len,
};
use vstd::prelude::*;

verus! {

/// The number of dead bytes above which the log is due for compaction.
pub const COMPACTION_THRESHOLD: u64 = 1024 * 1024;

/// What a store stands for: the log that its files hold, and the safe
/// point, the least term whose file a reader may still have open.
pub struct StoreView {
    pub log: Seq<TermLogView>,
    pub safe_point: u64,
}

impl StoreView {
    /// The index: for each key the position of its latest `Put`, unless a
    /// `Remove` came after it.
    pub open spec fn index(self) -> Map<Seq<char>, Pos> {
        replay(self.log).index
    }

    /// The number of bytes of the log that the index does not refer to.
    pub open spec fn uncompacted(self) -> int {
        replay(self.log).uncompacted
    }

    /// The key/value map.
    pub open spec fn contents(self) -> Map<Seq<char>, Seq<char>> {
        log_values(self.log)
    }

    /// The term of the active file, the last of the log.
    pub open spec fn current_term(self) -> u64 {
        self.log.last().term
    }

    /// The number of bytes of the active file.
    pub open spec fn active_len(self) -> int {
        file_len(self.log.last().records)
    }

    /// The log has an active file, whose term is greater than every other;
    /// no file lies below the safe point; and the bytes of all files can be
    /// counted in 64 bits.
    pub open spec fn wf(self) -> bool {
        &&& self.log.len() > 0
        &&& forall|f: int|
            0 <= f < self.log.len() - 1 ==> (#[trigger] self.log[f]).term < self.current_term()
        &&& forall|f: int|
            0 <= f < self.log.len() ==> self.safe_point <= (#[trigger] self.log[f]).term
        &&& total_len(self.log) <= u64::MAX
    }
}

/// The store.
pub struct KvStore {
    index: KeyIndex,
    current_term: u64,
    uncompacted: u64,
    active_len: u64,
    log_bytes: u64,
    safe_point: u64,
    log: Ghost<Seq<TermLogView>>,
}

impl View for KvStore {
    type V = StoreView;

    closed spec fn view(&self) -> StoreView {
        StoreView { log: self.log@, safe_point: self.safe_point }
    }
}

/// Replays `records` as the file of `term` into `index`. Returns the
/// number of bytes that the replay found dead and the number of bytes of
/// the file.
fn replay_records(term: u64, records: &Vec<LogRecord>, index: &mut KeyIndex) -> (counts: (u64, u64))
    requires
        old(index)@.dom().finite(),
        live_len(old(index)@) + file_len(records.deep_view()) <= u64::MAX,
    ensures
        final(index)@ == replay_file(
            starting_from(old(index)@),
            term,
            records.deep_view(),
        ).index,
        counts.0 == replay_file(
            starting_from(old(index)@),
            term,
            records.deep_view(),
        ).uncompacted,
        counts.1 == file_len(records.deep_view()),
{
    let ghost all = records.deep_view();
    let ghost start = starting_from(index@);
    let mut dead: u64 = 0;
    let mut offset: u64 = 0;
    let mut i: usize = 0;
    proof {
        lemma_live_len_nonnegative(index@);
    }
    while i < records.len()
        invariant
            i <= records.len(),
            all == records.deep_view(),
            start.index.dom().finite(),
            start.uncompacted == 0,
            live_len(start.index) >= 0,
            live_len(start.index) + file_len(all) <= u64::MAX,
            index@ == replay_file(start, term, all.take(i as int)).index,
            dead == replay_file(start, term, all.take(i as int)).uncompacted,
            offset == file_len(all.take(i as int)),
        decreases records.len() - i,
    {
        let ghost seen = all.take(i as int);
        let ghost next = all.take(i + 1);
        let ghost before = replay_file(start, term, seen);
        proof {
            assert(next.drop_last() =~= seen);
            assert(next.last() == records[i as int]@);
            lemma_file_len_prefix(all, i + 1);
            lemma_replay_file_accounts(start, term, seen);
            lemma_replay_file_accounts(start, term, next);
            lemma_live_len_nonnegative(replay_file(start, term, next).index);
            lemma_file_len_nonnegative(seen);
        }
        let len: u64 = records[i].len;
        let pos = Pos { term, offset, len };
        match &records[i].cmd {
            Command::Put { key, .. } => {
                let displaced = index.insert(key.clone(), pos);
                if let Some(old_pos) = displaced {
                    dead = dead + old_pos.len;
                }
            },
            Command::Remove { key } => {
                let removed = index.remove(key.as_str());
                if let Some(old_pos) = removed {
                    dead = dead + old_pos.len;
                }
                dead = dead + len;
            },
        }
        offset = offset + len;
        i += 1;
    }
    proof {
        assert(all.take(records.len() as int) =~= all);
    }
    (dead, offset)
}

/// No prefix of a file is longer than the file.
proof fn lemma_file_len_prefix(records: Seq<RecordView>, n: int)
    requires
        0 <= n <= records.len(),
    ensures
        file_len(records.take(n)) <= file_len(records),
    decreases records.len(),
{
    if n == records.len() {
        assert(records.take(n) =~= records);
    } else {
        lemma_file_len_prefix(records.drop_last(), n);
        assert(records.drop_last().take(n) =~= records.take(n));
    }
}

/// Replays the records of the file of `term` into `index`, in file order:
/// a `Put` binds its key to the position of the record, a `Remove` unbinds
/// its key. Returns the number of bytes that the replay found dead: each
/// displaced or removed record, and each `Remove` record itself.
pub fn load(term: u64, records: &Vec<LogRecord>, index: &mut KeyIndex) -> (uncompacted: u64)
    requires
        old(index)@.dom().finite(),
        live_len(old(index)@) + file_len(records.deep_view()) <= u64::MAX,
    ensures
        final(index)@ == replay_file(
            starting_from(old(index)@),
            term,
            records.deep_view(),
        ).index,
        uncompacted == replay_file(
            starting_from(old(index)@),
            term,
            records.deep_view(),
        ).uncompacted,
{
    let counts = replay_records(term, records, index);
    counts.0
}

/// A store that is opened on the log of another holds what the other
/// held: the same key/value map, the same index, and as many dead bytes.
pub proof fn lemma_reopen_restores(before: StoreView, after: StoreView)
    requires
        after.log == before.log.push(empty_file(after.current_term())),
    ensures
        after.contents() == before.contents(),
        after.index() == before.index(),
        after.uncompacted() == before.uncompacted(),
{
    lemma_push_empty_file(before.log, after.current_term());
}

/// In a well-formed store the dead bytes and the bytes of the records that
/// the index refers to are together the bytes of the log, and the index
/// points at the records that hold the values of the key/value map.
pub proof fn lemma_store_accounts(store: StoreView)
    requires
        store.wf(),
    ensures
        store.index().dom().finite(),
        0 <= store.uncompacted() <= total_len(store.log),
        store.uncompacted() + live_len(store.index()) == total_len(store.log),
        index_matches(store.log, store.index(), store.contents()),
{
    lemma_replay_accounts(store.log);
    lemma_live_len_nonnegative(store.index());
    lemma_replay_matches(store.log);
}

/// Binds the key of each step to the position that the step copies to.
fn relocate(index: &mut KeyIndex, copies: &Vec<CopyStep>)
    requires
        enumerates(sources(copies.deep_view()), old(index)@),
    ensures
        final(index)@.dom() == old(index)@.dom(),
        forall|i: int|
            0 <= i < copies.len() ==> final(index)@[(#[trigger] copies.deep_view()[i]).key]
                == copies.deep_view()[i].to,
{
    let ghost moves = copies.deep_view();
    let ghost pairs = sources(moves);
    let ghost old_index = index@;
    let mut i: usize = 0;
    while i < copies.len()
        invariant
            i <= copies.len(),
            moves == copies.deep_view(),
            pairs == sources(moves),
            enumerates(pairs, old_index),
            index@.dom() == old_index.dom(),
            forall|j: int| 0 <= j < i ==> index@[(#[trigger] moves[j]).key] == moves[j].to,
        decreases copies.len() - i,
    {
        let key = copies[i].key.clone();
        let to = copies[i].to;
        proof {
            assert(moves[i as int] == copies[i as int]@);
            assert(pairs[i as int].0 == key@);
            assert(old_index.contains_key(pairs[i as int].0));
        }
        let ghost index_before = index@;
        index.insert(key, to);
        proof {
            assert(index@.dom() =~= old_index.dom());
            assert forall|j: int| 0 <= j < i + 1 implies index@[(#[trigger] moves[j]).key]
                == moves[j].to by {
                if j < i {
                    assert(pairs[j].0 != pairs[i as int].0);
                    assert(index_before[moves[j].key] == moves[j].to);
                }
            }
        }
        i += 1;
    }
}

/// An index that holds each key of a compaction at the place it was
/// copied to is the index that replaying the compacted log yields.
proof fn lemma_index_is_compacted(
    index: Map<Seq<char>, Pos>,
    old_index: Map<Seq<char>, Pos>,
    pairs: Seq<(Seq<char>, Pos)>,
    log: Seq<TermLogView>,
    compact_term: u64,
)
    requires
        enumerates(pairs, old_index),
        index.dom() == old_index.dom(),
        replay(log).index.dom() == old_index.dom(),
        forall|i: int|
            0 <= i < pairs.len() ==> index[pairs[i].0] == (#[trigger] copy_plan(
                pairs,
                compact_term,
            )[i]).to,
        forall|i: int|
            0 <= i < pairs.len() ==> replay(log).index[pairs[i].0] == (#[trigger] copy_plan(
                pairs,
                compact_term,
            )[i]).to,
    ensures
        index == replay(log).index,
{
    assert forall|k: Seq<char>| #[trigger] old_index.contains_key(k) implies index[k] == replay(
        log,
    ).index[k] by {
        let j = choose|j: int| 0 <= j < pairs.len() && #[trigger] pairs[j].0 == k;
        assert(index[pairs[j].0] == copy_plan(pairs, compact_term)[j].to);
    }
    assert(index =~= replay(log).index);
}

impl KvStore {
    /// The fields agree with the log: the index and the counters are what
    /// replaying the log yields.
    pub closed spec fn agrees(&self) -> bool {
        &&& self.index@ == self@.index()
        &&& self.current_term == self@.current_term()
        &&& self.uncompacted == self@.uncompacted()
        &&& self.active_len == self@.active_len()
        &&& self.log_bytes == total_len(self.log@)
    }

    /// The keys of the index with their positions, in the order in which a
    /// compaction copies them.
    pub closed spec fn compaction_order(&self) -> Seq<(Seq<char>, Pos)> {
        self.index.order()
    }

    /// The store is sound: its log is well formed and its fields agree with
    /// it.
    pub open spec fn wf(&self) -> bool {
        self@.wf() && self.agrees()
    }

    /// Recovers the store from the files of a log directory, given in the
    /// order in which they are to be replayed. The new active file is
    /// empty, and its term is one more than the greatest term found.
    pub fn open(logs: Vec<TermLog>) -> (store: KvStore)
        requires
            total_len(logs.deep_view()) <= u64::MAX,
            forall|f: int| 0 <= f < logs.len() ==> (#[trigger] logs[f]).term < u64::MAX,
        ensures
            store.wf(),
            store@.log == logs.deep_view().push(
                empty_file((max_term(logs.deep_view()) + 1) as u64),
            ),
            store@.log == after_step(
                logs.deep_view(),
                (Step::Reopen { term: store@.current_term() }),
            ),
            store@.current_term() == max_term(logs.deep_view()) + 1,
            store@.safe_point == 0,
            store@.index() == replay(logs.deep_view()).index,
            store@.uncompacted() == replay(logs.deep_view()).uncompacted,
            store@.contents() == log_values(logs.deep_view()),
            total_len(store@.log) == total_len(logs.deep_view()),
    {
        let ghost all = logs.deep_view();
        let mut index = KeyIndex::new();
        let mut uncompacted: u64 = 0;
        let mut log_bytes: u64 = 0;
        let mut greatest: u64 = 0;
        let mut f: usize = 0;
        while f < logs.len()
            invariant
                f <= logs.len(),
                all == logs.deep_view(),
                total_len(all) <= u64::MAX,
                forall|g: int| 0 <= g < logs.len() ==> (#[trigger] logs[g]).term < u64::MAX,
                index@ == replay(all.take(f as int)).index,
                uncompacted == replay(all.take(f as int)).uncompacted,
                log_bytes == total_len(all.take(f as int)),
                greatest == max_term(all.take(f as int)),
                greatest < u64::MAX,
            decreases logs.len() - f,
        {
            let ghost seen = all.take(f as int);
            let ghost next = all.take(f + 1);
            proof {
                assert(next.drop_last() =~= seen);
                assert(next.last() == logs[f as int]@);
                lemma_total_len_prefix(all, f + 1);
                lemma_replay_accounts(seen);
                lemma_replay_accounts(next);
                lemma_live_len_nonnegative(replay(next).index);
                lemma_replay_file_shift(replay(seen), next.last().term, next.last().records);
            }
            let counts = replay_records(logs[f].term, &logs[f].records, &mut index);
            uncompacted = uncompacted + counts.0;
            log_bytes = log_bytes + counts.1;
            if logs[f].term > greatest {
                greatest = logs[f].term;
            }
            f += 1;
        }
        let current_term: u64 = greatest + 1;
        let ghost log = all.push(empty_file(current_term));
        proof {
            assert(all.take(logs.len() as int) =~= all);
            lemma_push_empty_file(all, current_term);
            assert forall|g: int| 0 <= g < log.len() - 1 implies (#[trigger] log[g]).term
                < current_term by {
                lemma_max_term_bounds(all, g);
            }
        }
        KvStore {
            index,
            current_term,
            uncompacted,
            active_len: 0,
            log_bytes,
            safe_point: 0,
            log: Ghost(log),
        }
    }

    /// The term of the active file.
    pub fn current_term(&self) -> (term: u64)
        requires
            self.wf(),
        ensures
            term == self@.current_term(),
    {
        self.current_term
    }

    /// The least term whose file a reader may still have open.
    pub fn safe_point(&self) -> (term: u64)
        ensures
            term == self@.safe_point,
    {
        self.safe_point
    }

    /// The number of bytes of the log that the index does not refer to.
    pub fn uncompacted(&self) -> (bytes: u64)
        requires
            self.wf(),
        ensures
            bytes == self@.uncompacted(),
    {
        self.uncompacted
    }

    /// The number of bytes of the active file: the offset at which the
    /// next record starts.
    pub fn active_len(&self) -> (bytes: u64)
        requires
            self.wf(),
        ensures
            bytes == self@.active_len(),
    {
        self.active_len
    }

    /// The number of bytes of all files of the log together.
    pub fn log_bytes(&self) -> (bytes: u64)
        requires
            self.wf(),
        ensures
            bytes == total_len(self@.log),
    {
        self.log_bytes
    }

    /// Whether `key` has a value.
    pub fn contains_key(&self, key: &str) -> (present: bool)
        requires
            self.wf(),
        ensures
            present == self@.contents().contains_key(key@),
    {
        proof {
            lemma_replay_matches(self@.log);
        }
        self.index.contains_key(key)
    }

    /// The value that the record `cmd`, read at a position of the index,
    /// holds: that of a `Put`. A `Remove` at such a position is an error.
    pub fn read_value(cmd: Command) -> (outcome: Result<Option<String>, KvsError>)
        ensures
            cmd matches Command::Put { key, value } ==> outcome matches Ok(Some(read)) && read
                == value,
            cmd is Remove ==> outcome matches Err(KvsError::UnexpectedCommandType),
    {
        match cmd {
            Command::Put { key, value } => Ok(Some(value)),
            Command::Remove { key } => Err(KvsError::UnexpectedCommandType),
        }
    }

    /// Takes note of one more record at the end of the active file.
    fn record(&mut self, cmd: &Command, len: u64)
        requires
            old(self).wf(),
            total_len(old(self)@.log) + len <= u64::MAX,
        ensures
            final(self).wf(),
            final(self)@.log == append_record(old(self)@.log, (RecordView { cmd: cmd@, len })),
            final(self)@.safe_point == old(self)@.safe_point,
    {
        let ghost rec = RecordView { cmd: cmd@, len };
        let ghost before = self.log@;
        let ghost after = append_record(before, rec);
        proof {
            lemma_replay_accounts(before);
            lemma_replay_accounts(after);
            lemma_append_record(before, rec);
            lemma_live_len_nonnegative(replay(after).index);
            lemma_total_len_nonnegative(before.drop_last());
        }
        let pos = Pos { term: self.current_term, offset: self.active_len, len };
        match cmd {
            Command::Put { key, .. } => {
                let displaced = self.index.insert(key.clone(), pos);
                if let Some(old_pos) = displaced {
                    self.uncompacted = self.uncompacted + old_pos.len;
                }
            },
            Command::Remove { key } => {
                let removed = self.index.remove(key.as_str());
                if let Some(old_pos) = removed {
                    self.uncompacted = self.uncompacted + old_pos.len;
                }
                self.uncompacted = self.uncompacted + len;
            },
        }
        self.active_len = self.active_len + len;
        self.log_bytes = self.log_bytes + len;
        self.log = Ghost(after);
        proof {
            assert(after.last().records.drop_last() =~= before.last().records);
            assert forall|f: int| 0 <= f < after.len() implies self.safe_point <= (
            #[trigger] after[f]).term by {
                if f < after.len() - 1 {
                    assert(after[f] == before[f]);
                }
            }
            assert forall|f: int| 0 <= f < after.len() - 1 implies (#[trigger] after[f]).term
                < after.last().term by {
                assert(after[f] == before[f]);
            }
        }
    }

    /// Takes note that a `Put` of `key` and `value`, encoded in `len`
    /// bytes, has been appended to the active file: `key` is now bound to
    /// that record, and the record that it displaces is dead. Returns
    /// whether the dead bytes now exceed the compaction threshold.
    pub fn set(&mut self, key: String, value: String, len: u64) -> (due: bool)
        requires
            old(self).wf(),
            total_len(old(self)@.log) + len <= u64::MAX,
        ensures
            final(self).wf(),
            final(self)@.log == append_record(old(self)@.log, put_record(key@, value@, len)),
            final(self)@.log == after_step(
                old(self)@.log,
                (Step::Append { rec: put_record(key@, value@, len) }),
            ),
            final(self)@.safe_point == old(self)@.safe_point,
            due == (final(self)@.uncompacted() > COMPACTION_THRESHOLD),
            final(self)@.uncompacted() == old(self)@.uncompacted() + len_at(
                old(self)@.index(),
                key@,
            ),
            total_len(final(self)@.log) == total_len(old(self)@.log) + len,
            final(self)@.contents() == old(self)@.contents().insert(key@, value@),
            final(self)@.index() == old(self)@.index().insert(
                key@,
                (Pos {
                    term: old(self)@.current_term(),
                    offset: old(self)@.active_len() as u64,
                    len,
                }),
            ),
    {
        proof {
            lemma_append_record(self@.log, put_record(key@, value@, len));
        }
        let cmd = Command::Put { key, value };
        self.record(&cmd, len);
        self.uncompacted > COMPACTION_THRESHOLD
    }

    /// The position of the record that holds the value of `key`, or `None`
    /// where `key` has no value.
    pub fn get(&self, key: String) -> (found: Option<Pos>)
        requires
            self.wf(),
        ensures
            found is Some <==> self@.contents().contains_key(key@),
            found matches Some(pos) ==> {
                &&& pos == self@.index()[key@]
                &&& holds_at(self@.log, pos, put_record(key@, self@.contents()[key@], pos.len))
                &&& self@.safe_point <= pos.term <= self@.current_term()
            },
    {
        let found = self.index.get(key.as_str());
        proof {
            lemma_replay_matches(self@.log);
            if let Some(pos) = found {
                let held = put_record(key@, self@.contents()[key@], pos.len);
                assert(self@.index().contains_key(key@));
                let log = self@.log;
                let (f, i) = choose|f: int, i: int|
                    0 <= f < log.len() && 0 <= i < log[f].records.len() && log[f].term == pos.term
                        && file_len(log[f].records.take(i)) == pos.offset
                        && #[trigger] log[f].records[i] == held && held.len == pos.len;
                assert(self@.safe_point <= log[f].term);
                if f < log.len() - 1 {
                    assert(log[f].term < self@.current_term());
                }
            }
        }
        found
    }

    /// Takes note that a `Remove` of `key`, encoded in `len` bytes, has
    /// been appended to the active file: `key` is now unbound, and both the
    /// record that held its value and the `Remove` record are dead. Returns
    /// whether the dead bytes now exceed the compaction threshold.
    ///
    /// Where `key` has no value, nothing changes and the error is
    /// `KeyNotFound`; no record may be appended for such a key.
    pub fn remove(&mut self, key: String, len: u64) -> (outcome: Result<bool, KvsError>)
        requires
            old(self).wf(),
            old(self)@.contents().contains_key(key@) ==> total_len(old(self)@.log) + len
                <= u64::MAX,
        ensures
            final(self).wf(),
            old(self)@.contents().contains_key(key@) ==> {
                &&& final(self)@.log == append_record(old(self)@.log, remove_record(key@, len))
                &&& final(self)@.log == after_step(
                    old(self)@.log,
                    (Step::Append { rec: remove_record(key@, len) }),
                )
                &&& final(self)@.safe_point == old(self)@.safe_point
                &&& outcome matches Ok(due) && due == (final(self)@.uncompacted()
                    > COMPACTION_THRESHOLD)
                &&& final(self)@.uncompacted() == old(self)@.uncompacted() + old(
                    self,
                )@.index()[key@].len + len
                &&& total_len(final(self)@.log) == total_len(old(self)@.log) + len
                &&& final(self)@.contents() == old(self)@.contents().remove(key@)
                &&& final(self)@.index() == old(self)@.index().remove(key@)
            },
            !old(self)@.contents().contains_key(key@) ==> {
                &&& outcome matches Err(KvsError::KeyNotFound)
                &&& *final(self) == *old(self)
            },
    {
        proof {
            lemma_replay_matches(self@.log);
            lemma_append_record(self@.log, remove_record(key@, len));
        }
        if !self.index.contains_key(key.as_str()) {
            return Err(KvsError::KeyNotFound);
        }
        let cmd = Command::Remove { key };
        self.record(&cmd, len);
        Ok(self.uncompacted > COMPACTION_THRESHOLD)
    }

    /// The compaction that the store would carry out now, without carrying
    /// it out: the store is as it was. As long as the store does not
    /// change, `compact` returns the same plan.
    pub fn plan_compaction(&self) -> (plan: Compaction)
        requires
            self.wf(),
            self@.current_term() <= u64::MAX - 2,
        ensures
            plan.compact_term == self@.current_term() + 1,
            plan.next_term == self@.current_term() + 2,
            plan.copies.deep_view() == copy_plan(self.compaction_order(), plan.compact_term),
            sources(plan.copies.deep_view()) == self.compaction_order(),
            enumerates(self.compaction_order(), self@.index()),
    {
        let entries = self.index.entries();
        let ghost pairs = entries.deep_view();
        let compact_term: u64 = self.current_term + 1;
        let next_term: u64 = self.current_term + 2;
        proof {
            lemma_replay_accounts(self@.log);
            lemma_enumerates_sums(pairs, self.index@);
            lemma_live_len_nonnegative(self.index@);
        }
        let mut copies: Vec<CopyStep> = Vec::new();
        let mut offset: u64 = 0;
        let mut i: usize = 0;
        while i < entries.len()
            invariant
                i <= entries.len(),
                pairs == entries.deep_view(),
                pairs_len(pairs) <= u64::MAX,
                offset == pairs_len(pairs.take(i as int)),
                copies.deep_view() == copy_plan(pairs, compact_term).take(i as int),
            decreases entries.len() - i,
        {
            let key = entries[i].0.clone();
            let from = entries[i].1;
            let to = Pos { term: compact_term, offset, len: from.len };
            proof {
                assert(pairs[i as int] == (entries[i as int].0@, entries[i as int].1));
                assert(pairs.take(i + 1).drop_last() =~= pairs.take(i as int));
                lemma_pairs_len_prefix(pairs, i + 1);
            }
            copies.push(CopyStep { key, from, to });
            offset = offset + from.len;
            proof {
                assert(copies.deep_view() =~= copy_plan(pairs, compact_term).take(i + 1)) by {
                    assert(copies.deep_view().drop_last() =~= copy_plan(pairs, compact_term).take(
                        i as int,
                    ));
                }
            }
            i += 1;
        }
        proof {
            assert(copies.deep_view() =~= copy_plan(pairs, compact_term));
            assert(sources(copies.deep_view()) =~= pairs);
        }
        Compaction { compact_term, next_term, copies }
    }

    /// Moves the index to a new file that holds exactly the live records.
    ///
    /// Two terms are taken at once: the next for the compacted file, the
    /// one after it for the new active file. The plan lists each key of the
    /// index once, with the position its record is copied from and the
    /// position it is copied to; the copies lie in the compacted file one
    /// behind the other, in the order of the plan. Afterwards the index
    /// holds the new positions, no byte is dead, the safe point is the term
    /// of the compacted file, and the key/value map is as it was.
    pub fn compact(&mut self) -> (plan: Compaction)
        requires
            old(self).wf(),
            old(self)@.current_term() <= u64::MAX - 2,
        ensures
            final(self).wf(),
            plan.compact_term == old(self)@.current_term() + 1,
            plan.next_term == old(self)@.current_term() + 2,
            plan.copies.deep_view() == copy_plan(old(self).compaction_order(), plan.compact_term),
            sources(plan.copies.deep_view()) == old(self).compaction_order(),
            enumerates(old(self).compaction_order(), old(self)@.index()),
            final(self)@.log == compacted_log(
                old(self).compaction_order(),
                old(self)@.contents(),
                plan.compact_term,
                plan.next_term,
            ),
            step_fits(
                old(self)@.log,
                (Step::Compact {
                    order: old(self).compaction_order(),
                    compact_term: plan.compact_term,
                    next_term: plan.next_term,
                }),
            ),
            final(self)@.log == after_step(
                old(self)@.log,
                (Step::Compact {
                    order: old(self).compaction_order(),
                    compact_term: plan.compact_term,
                    next_term: plan.next_term,
                }),
            ),
            final(self)@.safe_point == plan.compact_term,
            final(self)@.contents() == old(self)@.contents(),
            final(self)@.uncompacted() == 0,
            final(self)@.active_len() == 0,
            total_len(final(self)@.log) == live_len(old(self)@.index()),
            total_len(final(self)@.log) == live_len(final(self)@.index()),
            final(self)@.index().dom() == old(self)@.index().dom(),
            forall|i: int|
                0 <= i < plan.copies.len() ==> final(self)@.index().contains_key(
                    (#[trigger] plan.copies[i]).key@,
                ) && final(self)@.index()[plan.copies[i].key@] == plan.copies[i].to,
    {
        let plan = self.plan_compaction();
        let ghost pairs = self.compaction_order();
        let ghost old_index = self.index@;
        let ghost values = self@.contents();
        let compact_term: u64 = plan.compact_term;
        let next_term: u64 = plan.next_term;
        let ghost log = compacted_log(pairs, values, compact_term, next_term);
        proof {
            lemma_replay_accounts(self@.log);
            lemma_replay_matches(self@.log);
            lemma_enumerates_sums(pairs, old_index);
            lemma_live_len_nonnegative(old_index);
        }
        relocate(&mut self.index, &plan.copies);
        proof {
            lemma_compacted_log(pairs, old_index, values, compact_term, next_term);
            lemma_replay_compacted(pairs, old_index, values, compact_term);
            lemma_index_is_compacted(self.index@, old_index, pairs, log, compact_term);
            assert(log.last() == empty_file(next_term));
            assert(log[0].term == compact_term);
            lemma_replay_accounts(log);
        }
        self.current_term = next_term;
        self.safe_point = compact_term;
        self.log_bytes = self.log_bytes - self.uncompacted;
        self.uncompacted = 0;
        self.active_len = 0;
        self.log = Ghost(log);
        proof {
            assert forall|i: int| 0 <= i < plan.copies.len() implies self@.index().contains_key(
                (#[trigger] plan.copies[i]).key@,
            ) && self@.index()[plan.copies[i].key@] == plan.copies[i].to by {
                assert(plan.copies.deep_view()[i] == plan.copies[i]@);
                assert(pairs[i].0 == plan.copies[i].key@);
                assert(old_index.contains_key(pairs[i].0));
            }
        }
        plan
    }
}

} // verus!
