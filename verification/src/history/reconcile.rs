//! Counting again what every job owns.

use crate::history::catalog::HistoryStore;
use crate::history::error::HistoryStoreError;
use crate::history::job::RawHistoryJobId;
use crate::history::lifecycle::{progress_problem, RawHistoryJob};
use crate::history::ownership::{all_owned, job_advanced, lemma_first_job};
use crate::order::{
    ascending, has_key, lemma_irreflexive, lemma_transitive, precedes, sort_dedup, Keyed,
};
use vstd::prelude::*;
use vstd::utf8::{encode_utf8, encode_utf8_decode_utf8};

verus! {

/// A job in the order of names, with its place in the table.
struct NamedJob {
    id: RawHistoryJobId,
    at: usize,
}

impl Keyed for NamedJob {
    closed spec fn key(&self) -> Seq<u8> {
        encode_utf8(self.id@)
    }

    fn key_bytes(&self) -> (bytes: Vec<u8>) {
        let mut bytes: Vec<u8> = Vec::new();
        crate::bytes::push_bytes(&mut bytes, self.id.as_str().as_bytes());
        assert(bytes@ =~= self.key());
        bytes
    }
}

/// Some entry is the job at `at`.
spec fn has_place(named: Seq<NamedJob>, at: int) -> bool {
    exists|p: int| 0 <= p < named.len() && (#[trigger] named[p]).at == at
}

/// One job comes before another by name.
pub open spec fn named_before(left: RawHistoryJob, right: RawHistoryJob) -> bool {
    precedes(encode_utf8(left.id@), encode_utf8(right.id@))
}

impl HistoryStore {
    /// What keeps the job at `at` from being counted again.
    pub open spec fn reconcile_problem(self, at: int, now: u64) -> Option<HistoryStoreError> {
        progress_problem(all_owned(self.segments@, self.owners@, self.jobs@[at].id@), now)
    }

    /// `after` has the job at `at` counted again.
    pub open spec fn job_reconciled(self, after: HistoryStore, at: int, now: u64) -> bool {
        self.reconcile_problem(at, now) is None && job_advanced(
            self.jobs@[at],
            after.jobs@[at],
            all_owned(self.segments@, self.owners@, self.jobs@[at].id@),
            now,
        )
    }

    /// `after` has every job counted again.
    pub open spec fn all_reconciled(self, after: HistoryStore, now: u64) -> bool {
        forall|i: int| 0 <= i < self.jobs@.len() ==> #[trigger] self.job_reconciled(after, i, now)
    }

    /// `after` has the job at `i` counted again if its name comes before that
    /// of the job at `at`, and otherwise unchanged.
    pub open spec fn settled(self, after: HistoryStore, i: int, at: int, now: u64) -> bool {
        if named_before(self.jobs@[i], self.jobs@[at]) {
            self.job_reconciled(after, i, now)
        } else {
            after.jobs@[i] == self.jobs@[i]
        }
    }

    /// `after` has those jobs counted again whose name comes before that of
    /// the job at `at`.
    pub open spec fn reconciled_until(self, after: HistoryStore, at: int, now: u64) -> bool {
        &&& 0 <= at < self.jobs@.len()
        &&& forall|i: int|
            0 <= i < self.jobs@.len() ==> #[trigger] self.settled(after, i, at, now)
    }

    /// Counts again what every job owns, in the order of their names, and
    /// stops at the first that cannot be counted.
    pub fn reconcile_all_jobs(&mut self, now: u64) -> (outcome: Result<(), HistoryStoreError>)
        requires
            old(self).wf(),
        ensures
            final(self).wf(),
            final(self).same_material(*old(self)),
            final(self).owners@ == old(self).owners@,
            final(self).jobs@.len() == old(self).jobs@.len(),
            match outcome {
                Ok(()) => old(self).all_reconciled(*final(self), now),
                Err(error) => exists|at: int| #[trigger]
                    old(self).reconciled_until(*final(self), at, now) && old(self).reconcile_problem(at, now) == Some(error),
            },
    {
        let ghost before = *self;
        let ghost count = self.jobs@.len() as int;
        let mut named: Vec<NamedJob> = Vec::new();
        let mut index: usize = 0;
        while index < self.jobs.len()
            invariant
                index <= self.jobs@.len(),
                *self == *old(self),
                named@.len() == index,
                forall|i: int|
                    0 <= i < index ==> (#[trigger] named@[i]).at == i && named@[i].id@
                        == self.jobs@[i].id@,
            decreases self.jobs@.len() - index,
        {
            named.push(NamedJob { id: self.jobs[index].id.clone(), at: index });
            index += 1;
        }
        let ghost listed = named@;
        let sorted: Vec<NamedJob> = sort_dedup(named);
        proof {
            assert forall|p: int| 0 <= p < sorted@.len() implies (#[trigger] sorted@[p]).at < count
                && sorted@[p].id@ == before.jobs@[sorted@[p].at as int].id@ by {
                assert(listed.contains(sorted@[p]));
            }
            assert forall|i: int| 0 <= i < count implies #[trigger] has_place(sorted@, i) by {
                assert(has_key(listed, listed[i].key()));
                assert(has_key(sorted@, listed[i].key()));
                let p = choose|p: int|
                    0 <= p < sorted@.len() && #[trigger] sorted@[p].key() == listed[i].key();
                let j = sorted@[p].at as int;
                assert(listed[i].id@ == before.jobs@[i].id@);
                assert(encode_utf8(before.jobs@[i].id@) == encode_utf8(before.jobs@[j].id@));
                assert(before.wf());
                encode_utf8_decode_utf8(before.jobs@[i].id@);
                encode_utf8_decode_utf8(before.jobs@[j].id@);
                assert(before.jobs@[i].id@ == before.jobs@[j].id@);
                if i != j {
                    assert(before.jobs@[i].id@ != before.jobs@[j].id@);
                }
            }
        }
        let mut next: usize = 0;
        while next < sorted.len()
            invariant
                next <= sorted@.len(),
                before == *old(self),
                before.wf(),
                self.wf(),
                count == before.jobs@.len(),
                self.same_material(before),
                self.owners@ == before.owners@,
                self.jobs@.len() == count,
                ascending(sorted@),
                forall|p: int|
                    0 <= p < sorted@.len() ==> (#[trigger] sorted@[p]).at < count && sorted@[p].id@
                        == before.jobs@[sorted@[p].at as int].id@,
                forall|i: int| 0 <= i < count ==> #[trigger] has_place(sorted@, i),
                forall|p: int|
                    0 <= p < sorted@.len() ==> if p < next {
                        before.job_reconciled(*self, (#[trigger] sorted@[p]).at as int, now)
                    } else {
                        self.jobs@[sorted@[p].at as int] == before.jobs@[sorted@[p].at as int]
                    },
                forall|i: int| 0 <= i < count ==> (#[trigger] self.jobs@[i]).id@
                    == before.jobs@[i].id@,
            decreases sorted@.len() - next,
        {
            let ghost current = *self;
            let ghost at = sorted@[next as int].at as int;
            proof {
                lemma_first_job(self.jobs@, sorted@[next as int].id@, 0);
                assert(self.jobs@[at].id@ == sorted@[next as int].id@);
            }
            let outcome = self.reconcile_raw_history_job(&sorted[next].id, now);
            proof {
                lemma_distinct(sorted@, before.jobs@, next as int);
            }
            match outcome {
                Ok(_) => {},
                Err(error) => {
                    proof {
                        assert(self.jobs@ =~= current.jobs@);
                        assert(before.reconcile_problem(at, now) == Some(error));
                        let after = *self;
                        assert forall|i: int| 0 <= i < count implies #[trigger] before.settled(
                            after,
                            i,
                            at,
                            now,
                        ) by {
                            assert(has_place(sorted@, i));
                            let p = choose|p: int|
                                0 <= p < sorted@.len() && (#[trigger] sorted@[p]).at == i;
                            lemma_place(sorted@, p, next as int);
                            assert(sorted@[p].key() == encode_utf8(before.jobs@[i].id@));
                            assert(sorted@[next as int].key() == encode_utf8(before.jobs@[at].id@));
                            if p < next {
                                assert(before.job_reconciled(current, i, now));
                            }
                        }
                        assert(before.reconciled_until(*self, at, now));
                    }
                    return Err(error);
                },
            }
            proof {
                assert forall|p: int| 0 <= p < sorted@.len() implies if p < next + 1 {
                    before.job_reconciled(*self, (#[trigger] sorted@[p]).at as int, now)
                } else {
                    self.jobs@[sorted@[p].at as int] == before.jobs@[sorted@[p].at as int]
                } by {
                    if p != next {
                        assert(sorted@[p].at != at);
                        assert(self.jobs@[sorted@[p].at as int]
                            == current.jobs@[sorted@[p].at as int]);
                    }
                }
            }
            next += 1;
        }
        proof {
            let after = *self;
            assert forall|i: int| 0 <= i < before.jobs@.len() implies #[trigger]
                before.job_reconciled(after, i, now) by {
                assert(has_place(sorted@, i));
            }
            assert(before.all_reconciled(after, now));
        }
        Ok(())
    }
}

/// In ascending order the places compare as the names do.
proof fn lemma_place(sorted: Seq<NamedJob>, p: int, q: int)
    requires
        ascending(sorted),
        0 <= p < sorted.len(),
        0 <= q < sorted.len(),
    ensures
        precedes(sorted[p].key(), sorted[q].key()) <==> p < q,
{
    lemma_irreflexive(sorted[p].key());
    if q < p && precedes(sorted[p].key(), sorted[q].key()) {
        lemma_transitive(sorted[p].key(), sorted[q].key(), sorted[p].key());
    }
}

/// No two places name the same job.
proof fn lemma_distinct(sorted: Seq<NamedJob>, jobs: Seq<RawHistoryJob>, q: int)
    requires
        ascending(sorted),
        0 <= q < sorted.len(),
        forall|p: int|
            0 <= p < sorted.len() ==> (#[trigger] sorted[p]).at < jobs.len() && sorted[p].id@
                == jobs[sorted[p].at as int].id@,
    ensures
        forall|p: int| 0 <= p < sorted.len() && p != q ==> (#[trigger] sorted[p]).at != sorted[q].at,
{
    assert forall|p: int| 0 <= p < sorted.len() && p != q implies (#[trigger] sorted[p]).at
        != sorted[q].at by {
        if sorted[p].at == sorted[q].at {
            assert(sorted[p].key() == sorted[q].key());
            lemma_irreflexive(sorted[p].key());
            if p < q {
                assert(precedes(sorted[p].key(), sorted[q].key()));
            } else {
                assert(precedes(sorted[q].key(), sorted[p].key()));
            }
        }
    }
}

} // verus!
