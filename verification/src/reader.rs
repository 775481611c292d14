//! The reader's cache of open term files.
//!
//! A reader keeps a handle open for each term file it has read from. The
//! cache says which terms these are; the handles themselves are the
//! caller's. Before every read the reader gives up the handles of terms
//! below the safe point: compaction has retired those files.

use crate::command::Pos;
use vstd::prelude::*;

verus! {

/// Whether every term of `terms` is less than the next.
pub open spec fn strictly_ascending(terms: Seq<u64>) -> bool {
    forall|i: int, j: int| 0 <= i < j < terms.len() ==> terms[i] < terms[j]
}

/// What one read asks of the files: drop the handles of the terms in
/// `close`; open the file of `at.term` if `open` is set, and tell the
/// reader once it is open, else use the handle that is there; then seek to
/// `at.offset` and read `at.len` bytes.
#[derive(Debug, Clone, PartialEq, Eq)]
pub struct ReadPlan {
    pub close: Vec<u64>,
    pub open: bool,
    pub at: Pos,
}

/// The terms whose files a reader has open, in ascending order.
#[derive(Debug)]
pub struct KvsReader {
    terms: Vec<u64>,
}

impl View for KvsReader {
    type V = Set<u64>;

    closed spec fn view(&self) -> Set<u64> {
        self.terms@.to_set()
    }
}

impl KvsReader {
    /// The cache holds each term once, in ascending order.
    pub closed spec fn wf(&self) -> bool {
        strictly_ascending(self.terms@)
    }

    /// A reader with no file open.
    pub fn new() -> (reader: KvsReader)
        ensures
            reader.wf(),
            reader@ == Set::<u64>::empty(),
    {
        let reader = KvsReader { terms: Vec::new() };
        assert(reader.terms@.to_set() =~= Set::<u64>::empty());
        reader
    }

    /// Whether the file of `term` is open.
    pub fn is_open(&self, term: u64) -> (open: bool)
        requires
            self.wf(),
        ensures
            open == self@.contains(term),
    {
        let mut i: usize = 0;
        while i < self.terms.len()
            invariant
                i <= self.terms.len(),
                forall|j: int| 0 <= j < i ==> self.terms@[j] != term,
            decreases self.terms.len() - i,
        {
            if self.terms[i] == term {
                assert(self.terms@.contains(term));
                return true;
            }
            i += 1;
        }
        false
    }

    /// Takes note that the file of `term` is open. Returns whether it was
    /// closed before.
    pub fn open_term(&mut self, term: u64) -> (opened: bool)
        requires
            old(self).wf(),
        ensures
            final(self).wf(),
            final(self)@ == old(self)@.insert(term),
            opened == !old(self)@.contains(term),
    {
        let mut at: usize = 0;
        while at < self.terms.len() && self.terms[at] < term
            invariant
                at <= self.terms.len(),
                *self == *old(self),
                forall|j: int| 0 <= j < at ==> self.terms@[j] < term,
            decreases self.terms.len() - at,
        {
            at += 1;
        }
        let ghost before = self.terms@;
        if at < self.terms.len() && self.terms[at] == term {
            assert(before.contains(term));
            assert(before.to_set().insert(term) =~= before.to_set());
            false
        } else {
            self.terms.insert(at, term);
            proof {
                let after = self.terms@;
                assert forall|i: int, j: int| 0 <= i < j < after.len() implies after[i]
                    < after[j] by {
                    if j < at {
                        assert(after[i] == before[i] && after[j] == before[j]);
                    } else if i > at {
                        assert(after[i] == before[i - 1] && after[j] == before[j - 1]);
                    } else if i < at && j > at {
                        assert(after[i] == before[i] && after[j] == before[j - 1]);
                    } else if i == at {
                        assert(after[j] == before[j - 1]);
                        assert(before[at as int] <= before[j - 1]);
                    }
                }
                assert(!before.contains(term)) by {
                    if before.contains(term) {
                        let k = choose|k: int| 0 <= k < before.len() && before[k] == term;
                        if k > at {
                            assert(before[at as int] < before[k]);
                        }
                    }
                }
                assert(after.to_set() =~= before.to_set().insert(term)) by {
                    assert forall|t: u64| after.to_set().contains(t) implies before.to_set().insert(
                        term,
                    ).contains(t) by {
                        let k = choose|k: int| 0 <= k < after.len() && after[k] == t;
                        if k < at {
                            assert(before[k] == t);
                        } else if k > at {
                            assert(before[k - 1] == t);
                        }
                    }
                    assert forall|t: u64| before.to_set().insert(term).contains(
                        t,
                    ) implies after.to_set().contains(t) by {
                        if t == term {
                            assert(after[at as int] == t);
                        } else {
                            let k = choose|k: int| 0 <= k < before.len() && before[k] == t;
                            if k < at {
                                assert(after[k] == t);
                            } else {
                                assert(after[k + 1] == t);
                            }
                        }
                    }
                }
            }
            true
        }
    }

    /// Gives up the handle of every term below `safe_point`. Returns those
    /// terms, in ascending order.
    pub fn close_stale_handles(&mut self, safe_point: u64) -> (closed: Vec<u64>)
        requires
            old(self).wf(),
        ensures
            final(self).wf(),
            forall|t: u64| final(self)@.contains(t) <==> old(self)@.contains(t) && safe_point <= t,
            forall|t: u64| closed@.contains(t) <==> old(self)@.contains(t) && t < safe_point,
            strictly_ascending(closed@),
    {
        let mut closed: Vec<u64> = Vec::new();
        while self.terms.len() > 0 && self.terms[0] < safe_point
            invariant
                strictly_ascending(old(self).terms@),
                closed@ + self.terms@ == old(self).terms@,
                forall|i: int| 0 <= i < closed.len() ==> closed@[i] < safe_point,
            decreases self.terms.len(),
        {
            let ghost rest = self.terms@;
            let ghost done = closed@;
            let term: u64 = self.terms.remove(0);
            closed.push(term);
            assert(closed@ + self.terms@ =~= done + rest);
        }
        proof {
            let all = old(self).terms@;
            let kept = self.terms@;
            let n = closed@.len() as int;
            assert forall|i: int, j: int| 0 <= i < j < kept.len() implies kept[i] < kept[j] by {
                assert(all[n + i] == kept[i] && all[n + j] == kept[j]);
            }
            assert forall|i: int, j: int| 0 <= i < j < closed@.len() implies closed@[i]
                < closed@[j] by {
                assert(all[i] == closed@[i] && all[j] == closed@[j]);
            }
            assert forall|i: int| 0 <= i < kept.len() implies safe_point <= kept[i] by {
                assert(all[n] == kept[0] && all[n + i] == kept[i]);
            }
            assert forall|t: u64| kept.to_set().contains(t) <==> all.to_set().contains(t)
                && safe_point <= t by {
                if kept.to_set().contains(t) {
                    let k = choose|k: int| 0 <= k < kept.len() && kept[k] == t;
                    assert(all[n + k] == t);
                }
                if all.to_set().contains(t) && safe_point <= t {
                    let k = choose|k: int| 0 <= k < all.len() && all[k] == t;
                    if k < n {
                        assert(closed@[k] == t);
                    } else {
                        assert(kept[k - n] == t);
                    }
                }
            }
            assert forall|t: u64| closed@.contains(t) <==> all.to_set().contains(t) && t
                < safe_point by {
                if closed@.contains(t) {
                    let k = choose|k: int| 0 <= k < closed@.len() && closed@[k] == t;
                    assert(all[k] == t);
                }
                if all.to_set().contains(t) && t < safe_point {
                    let k = choose|k: int| 0 <= k < all.len() && all[k] == t;
                    if k < n {
                        assert(closed@[k] == t);
                    } else {
                        assert(kept[k - n] == t);
                    }
                }
            }
        }
        closed
    }

    /// Prepares the read of the record at `pos`: gives up the handles below
    /// `safe_point`, and says whether the file of `pos.term` has to be
    /// opened first. The cache does not yet count that file as open: the
    /// caller opens it and then calls `open_term`, so that a file that
    /// could not be opened leaves no trace.
    pub fn read_and(&mut self, safe_point: u64, pos: Pos) -> (plan: ReadPlan)
        requires
            old(self).wf(),
        ensures
            final(self).wf(),
            forall|t: u64| final(self)@.contains(t) <==> old(self)@.contains(t) && safe_point <= t,
            forall|t: u64| plan.close@.contains(t) <==> old(self)@.contains(t) && t < safe_point,
            strictly_ascending(plan.close@),
            plan.open == !(old(self)@.contains(pos.term) && safe_point <= pos.term),
            plan.at == pos,
    {
        let close = self.close_stale_handles(safe_point);
        let open = !self.is_open(pos.term);
        ReadPlan { close, open, at: pos }
    }
}

} // verus!
