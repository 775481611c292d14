//! Compaction as mathematics: the file that holds exactly the live records,
//! and what replaying it yields.

use crate::command::{Pos, RecordView, TermLogView};
use crate::index::enumerates;
use crate::log::{
    empty_file, file_len, file_values, initial_state, lemma_live_len_remove, live_len, put_record,
    replay, replay_file, total_len, log_values,
};
use vstd::prelude::*;

verus! {

/// One step of a compaction: the record of `key` that lies at `from` is
/// copied, byte for byte, to `to`.
#[derive(Debug, Clone, PartialEq, Eq)]
pub struct CopyStep {
    pub key: String,
    pub from: Pos,
    pub to: Pos,
}

/// The mathematical value of a [`CopyStep`].
pub struct CopyView {
    pub key: Seq<char>,
    pub from: Pos,
    pub to: Pos,
}

impl View for CopyStep {
    type V = CopyView;

    open spec fn view(&self) -> CopyView {
        CopyView { key: self.key@, from: self.from, to: self.to }
    }
}

impl DeepView for CopyStep {
    type V = CopyView;

    open spec fn deep_view(&self) -> CopyView {
        self@
    }
}

/// What a compaction asks of the files: create the file of `compact_term`
/// and fill it by the steps of `copies`, in their order; create the empty
/// file of `next_term`, which takes the appends from now on; then retire
/// every file of a term below `compact_term`.
#[derive(Debug, Clone, PartialEq, Eq)]
pub struct Compaction {
    pub compact_term: u64,
    pub next_term: u64,
    pub copies: Vec<CopyStep>,
}

/// The sum of the lengths of the positions of `pairs`.
pub open spec fn pairs_len(pairs: Seq<(Seq<char>, Pos)>) -> int
    decreases pairs.len(),
{
    if pairs.len() == 0 {
        0
    } else {
        pairs_len(pairs.drop_last()) + pairs.last().1.len
    }
}

/// The steps that copy the records of `pairs`, in their order, to the file
/// of `term`, each directly behind the one before it.
pub open spec fn copy_plan(pairs: Seq<(Seq<char>, Pos)>, term: u64) -> Seq<CopyView> {
    Seq::new(
        pairs.len(),
        |i: int|
            CopyView {
                key: pairs[i].0,
                from: pairs[i].1,
                to: Pos { term, offset: pairs_len(pairs.take(i)) as u64, len: pairs[i].1.len },
            },
    )
}

/// The key and the source of each step.
pub open spec fn sources(copies: Seq<CopyView>) -> Seq<(Seq<char>, Pos)> {
    Seq::new(copies.len(), |i: int| (copies[i].key, copies[i].from))
}

/// The records of the compacted file: for each pair a `Put` of its key and
/// the value that `values` has for it, as long as the record it came from.
pub open spec fn compacted_records(
    pairs: Seq<(Seq<char>, Pos)>,
    values: Map<Seq<char>, Seq<char>>,
) -> Seq<RecordView> {
    Seq::new(pairs.len(), |i: int| put_record(pairs[i].0, values[pairs[i].0], pairs[i].1.len))
}

/// The log after a compaction: the compacted file and the empty file that
/// takes the appends.
pub open spec fn compacted_log(
    pairs: Seq<(Seq<char>, Pos)>,
    values: Map<Seq<char>, Seq<char>>,
    compact_term: u64,
    next_term: u64,
) -> Seq<TermLogView> {
    seq![
        TermLogView { term: compact_term, records: compacted_records(pairs, values) },
        empty_file(next_term),
    ]
}

/// A sum of lengths is never negative, and no prefix sums to more.
pub proof fn lemma_pairs_len_prefix(pairs: Seq<(Seq<char>, Pos)>, n: int)
    requires
        0 <= n <= pairs.len(),
    ensures
        0 <= pairs_len(pairs.take(n)) <= pairs_len(pairs),
    decreases pairs.len(),
{
    if pairs.len() == 0 {
        assert(pairs.take(n) =~= pairs);
    } else if n == pairs.len() {
        assert(pairs.take(n) =~= pairs);
        lemma_pairs_len_prefix(pairs.drop_last(), n - 1);
    } else {
        lemma_pairs_len_prefix(pairs.drop_last(), n);
        assert(pairs.drop_last().take(n) =~= pairs.take(n));
    }
}

/// Without its last pair, a listing lists the map without that pair's key.
pub proof fn lemma_enumerates_drop_last(pairs: Seq<(Seq<char>, Pos)>, index: Map<Seq<char>, Pos>)
    requires
        enumerates(pairs, index),
        pairs.len() > 0,
    ensures
        enumerates(pairs.drop_last(), index.remove(pairs.last().0)),
        index.contains_key(pairs.last().0),
        index[pairs.last().0] == pairs.last().1,
{
    let rest = pairs.drop_last();
    let last = pairs.last();
    let smaller = index.remove(last.0);
    assert(pairs[pairs.len() - 1] == last);
    assert forall|i: int| 0 <= i < rest.len() implies smaller.contains_key(#[trigger] rest[i].0)
        && smaller[rest[i].0] == rest[i].1 by {
        assert(rest[i] == pairs[i]);
    }
    assert forall|k: Seq<char>| #[trigger] smaller.contains_key(k) implies exists|i: int|
        0 <= i < rest.len() && #[trigger] rest[i].0 == k by {
        assert(index.contains_key(k));
        let i = choose|i: int| 0 <= i < pairs.len() && #[trigger] pairs[i].0 == k;
        assert(rest[i].0 == k);
    }
    assert forall|i: int, j: int| 0 <= i < j < rest.len() implies #[trigger] rest[i].0
        != #[trigger] rest[j].0 by {
        assert(rest[i] == pairs[i] && rest[j] == pairs[j]);
    }
}

/// A map that a sequence lists is finite, and the lengths of the listing
/// sum to the lengths of the map.
pub proof fn lemma_enumerates_sums(pairs: Seq<(Seq<char>, Pos)>, index: Map<Seq<char>, Pos>)
    requires
        enumerates(pairs, index),
    ensures
        index.dom().finite(),
        pairs_len(pairs) == live_len(index),
    decreases pairs.len(),
{
    if pairs.len() == 0 {
        assert(index.dom() =~= Set::empty());
    } else {
        let last = pairs.last();
        lemma_enumerates_drop_last(pairs, index);
        lemma_enumerates_sums(pairs.drop_last(), index.remove(last.0));
        assert(index.dom() =~= index.remove(last.0).dom().insert(last.0));
        lemma_live_len_remove(index, last.0);
    }
}

/// The compacted file is as long as the records it was copied from.
pub proof fn lemma_compacted_records_len(
    pairs: Seq<(Seq<char>, Pos)>,
    values: Map<Seq<char>, Seq<char>>,
)
    ensures
        file_len(compacted_records(pairs, values)) == pairs_len(pairs),
    decreases pairs.len(),
{
    if pairs.len() != 0 {
        lemma_compacted_records_len(pairs.drop_last(), values);
        assert(compacted_records(pairs, values).drop_last() =~= compacted_records(
            pairs.drop_last(),
            values,
        ));
    }
}

/// Replaying the compacted file from nothing yields the index that holds
/// each key at the place where its copy lies, no dead byte, and the
/// key/value map that the records were taken from.
pub proof fn lemma_replay_compacted(
    pairs: Seq<(Seq<char>, Pos)>,
    index: Map<Seq<char>, Pos>,
    values: Map<Seq<char>, Seq<char>>,
    term: u64,
)
    requires
        enumerates(pairs, index),
        index.dom() == values.dom(),
        pairs_len(pairs) <= u64::MAX,
    ensures
        replay_file(initial_state(), term, compacted_records(pairs, values)).uncompacted == 0,
        replay_file(initial_state(), term, compacted_records(pairs, values)).index.dom()
            == index.dom(),
        forall|i: int|
            0 <= i < pairs.len() ==> replay_file(
                initial_state(),
                term,
                compacted_records(pairs, values),
            ).index[pairs[i].0] == #[trigger] copy_plan(pairs, term)[i].to,
        file_values(Map::empty(), compacted_records(pairs, values)) == values,
    decreases pairs.len(),
{
    let records = compacted_records(pairs, values);
    let after = replay_file(initial_state(), term, records);
    if pairs.len() == 0 {
        assert(index.dom() =~= Set::empty());
        assert(after.index.dom() =~= index.dom());
        assert(values =~= Map::empty());
    } else {
        let last = pairs.last();
        let rest = pairs.drop_last();
        let fewer = index.remove(last.0);
        let fewer_values = values.remove(last.0);
        lemma_enumerates_drop_last(pairs, index);
        lemma_pairs_len_prefix(pairs, pairs.len() - 1);
        assert(pairs.take(pairs.len() - 1) =~= rest);
        assert(fewer.dom() =~= fewer_values.dom());
        assert(records.drop_last() =~= compacted_records(rest, fewer_values)) by {
            assert forall|i: int| 0 <= i < rest.len() implies records[i] == compacted_records(
                rest,
                fewer_values,
            )[i] by {
                assert(rest[i] == pairs[i]);
                assert(fewer.contains_key(rest[i].0));
            }
        }
        lemma_replay_compacted(rest, fewer, fewer_values, term);
        lemma_compacted_records_len(rest, fewer_values);
        let before = replay_file(initial_state(), term, records.drop_last());
        assert(!before.index.contains_key(last.0));
        assert(after.index.dom() =~= index.dom());
        assert forall|i: int| 0 <= i < pairs.len() implies after.index[pairs[i].0]
            == #[trigger] copy_plan(pairs, term)[i].to by {
            if i < pairs.len() - 1 {
                assert(rest[i] == pairs[i]);
                assert(rest.take(i) =~= pairs.take(i));
                assert(before.index[rest[i].0] == copy_plan(rest, term)[i].to);
                assert(pairs[i].0 != pairs[pairs.len() - 1].0);
            }
        }
        assert(file_values(Map::empty(), records) =~= values);
    }
}

/// Replaying the log that a compaction leaves yields the index of the
/// compacted file, no dead byte, the key/value map as it was, and as many
/// bytes as the copied records have.
pub proof fn lemma_compacted_log(
    pairs: Seq<(Seq<char>, Pos)>,
    index: Map<Seq<char>, Pos>,
    values: Map<Seq<char>, Seq<char>>,
    compact_term: u64,
    next_term: u64,
)
    requires
        enumerates(pairs, index),
        index.dom() == values.dom(),
        pairs_len(pairs) <= u64::MAX,
    ensures
        replay(compacted_log(pairs, values, compact_term, next_term)) == replay_file(
            initial_state(),
            compact_term,
            compacted_records(pairs, values),
        ),
        log_values(compacted_log(pairs, values, compact_term, next_term)) == values,
        total_len(compacted_log(pairs, values, compact_term, next_term)) == pairs_len(pairs),
{
    let log = compacted_log(pairs, values, compact_term, next_term);
    let first = log.drop_last();
    assert(first.len() == 1);
    assert(first.drop_last() =~= Seq::<TermLogView>::empty());
    assert(first.last().records == compacted_records(pairs, values));
    assert(log.last() == empty_file(next_term));
    assert(first.last().term == compact_term);
    assert(replay(first.drop_last()) == initial_state());
    assert(replay(first) == replay_file(
        initial_state(),
        compact_term,
        compacted_records(pairs, values),
    ));
    assert(replay(log) == replay(first));
    assert(log_values(first.drop_last()) =~= Map::empty());
    assert(log_values(first) == file_values(Map::empty(), compacted_records(pairs, values)));
    assert(log_values(log) == log_values(first));
    assert(total_len(first.drop_last()) == 0);
    assert(total_len(first) == file_len(compacted_records(pairs, values)));
    assert(total_len(log) == total_len(first));
    lemma_replay_compacted(pairs, index, values, compact_term);
    lemma_compacted_records_len(pairs, values);
}

/// The compacted file holds the key/value map that its records were taken
/// from, whatever the lengths of the records.
pub proof fn lemma_compacted_values(
    pairs: Seq<(Seq<char>, Pos)>,
    index: Map<Seq<char>, Pos>,
    values: Map<Seq<char>, Seq<char>>,
)
    requires
        enumerates(pairs, index),
        index.dom() == values.dom(),
    ensures
        file_values(Map::empty(), compacted_records(pairs, values)) == values,
    decreases pairs.len(),
{
    let records = compacted_records(pairs, values);
    if pairs.len() == 0 {
        assert(index.dom() =~= Set::empty());
        assert(values =~= Map::empty());
    } else {
        let last = pairs.last();
        let rest = pairs.drop_last();
        let fewer = index.remove(last.0);
        let fewer_values = values.remove(last.0);
        lemma_enumerates_drop_last(pairs, index);
        assert(fewer.dom() =~= fewer_values.dom());
        assert(records.drop_last() =~= compacted_records(rest, fewer_values)) by {
            assert forall|i: int| 0 <= i < rest.len() implies records[i] == compacted_records(
                rest,
                fewer_values,
            )[i] by {
                assert(rest[i] == pairs[i]);
                assert(fewer.contains_key(rest[i].0));
            }
        }
        lemma_compacted_values(rest, fewer, fewer_values);
        assert(file_values(Map::empty(), records) =~= values);
    }
}

/// The log that a compaction leaves stands for the key/value map as it
/// was, whatever the lengths of the records.
pub proof fn lemma_compacted_log_values(
    pairs: Seq<(Seq<char>, Pos)>,
    index: Map<Seq<char>, Pos>,
    values: Map<Seq<char>, Seq<char>>,
    compact_term: u64,
    next_term: u64,
)
    requires
        enumerates(pairs, index),
        index.dom() == values.dom(),
    ensures
        log_values(compacted_log(pairs, values, compact_term, next_term)) == values,
{
    let log = compacted_log(pairs, values, compact_term, next_term);
    let first = log.drop_last();
    assert(first.len() == 1);
    assert(first.drop_last() =~= Seq::<TermLogView>::empty());
    assert(first.last().records == compacted_records(pairs, values));
    assert(log.last() == empty_file(next_term));
    assert(log_values(first.drop_last()) =~= Map::empty());
    assert(log_values(first) == file_values(Map::empty(), compacted_records(pairs, values)));
    assert(log_values(log) == log_values(first));
    lemma_compacted_values(pairs, index, values);
}

} // verus!
