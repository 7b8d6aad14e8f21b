//! Polling pending transactions and emitting each newly seen one.
//!
//! Each cycle gathers candidate transaction ids: from the bulk mempool
//! query when it succeeds, else from the transactions listed in the
//! "pending" pseudo-block as a fallback.  For each candidate not yet in the
//! dedup window the full transaction is fetched and, if retrievable,
//! emitted and marked seen; a failed fetch skips that one id and never
//! aborts the cycle.  The queries and fetches are network I/O done by the
//! driver; the poller decides and records.

use vstd::prelude::*;
use crate::TxId;
use crate::dedup::{DedupWindow, distinct, see_spec};

verus! {

/// This cycle's candidate ids: the bulk mempool query's when it succeeded,
/// else the pending-block fallback's, else none.
pub fn cycle_candidates(primary: Option<Vec<TxId>>, fallback: Option<Vec<TxId>>) -> (c: Vec<TxId>)
    ensures
        primary matches Some(p) ==> c@ == p@,
        primary is None ==> (fallback matches Some(f) ==> c@ == f@),
        primary is None && fallback is None ==> c@ == Seq::<TxId>::empty(),
{
    match primary {
        Some(p) => p,
        None => match fallback {
            Some(f) => f,
            None => Vec::new(),
        },
    }
}

pub struct MempoolPoller {
    window: DedupWindow,
}

impl MempoolPoller {
    /// The ids currently recorded as seen, in insertion order.
    pub closed spec fn seen(&self) -> Seq<TxId> {
        self.window@
    }

    /// The dedup window's size ceiling.
    pub closed spec fn cap(&self) -> nat {
        self.window.cap()
    }

    pub closed spec fn wf(&self) -> bool {
        self.window.wf()
    }

    pub fn new(ceiling: usize) -> (p: MempoolPoller)
        requires
            ceiling >= 1,
        ensures
            p.wf(),
            p.seen() == Seq::<TxId>::empty(),
            p.cap() == ceiling,
    {
        MempoolPoller { window: DedupWindow::new(ceiling) }
    }

    /// Whether the full transaction for `id` is to be fetched this cycle:
    /// exactly when `id` is not recorded as seen.
    pub fn should_fetch(&self, id: TxId) -> (due: bool)
        ensures
            due == !self.seen().contains(id),
    {
        !self.window.contains(id)
    }

    /// Record what fetching the transaction `id` found.  It is emitted
    /// exactly when it was unseen and the fetch retrieved it, and only then
    /// is it marked seen; a failed fetch leaves the window unchanged.
    pub fn record_fetch(&mut self, id: TxId, retrieved: bool) -> (emit: bool)
        requires
            old(self).wf(),
        ensures
            final(self).wf(),
            final(self).cap() == old(self).cap(),
            emit == (!old(self).seen().contains(id) && retrieved),
            final(self).seen() == if !old(self).seen().contains(id) && retrieved {
                see_spec(old(self).seen(), old(self).cap(), id)
            } else {
                old(self).seen()
            },
    {
        if self.window.contains(id) {
            return false;
        }
        if retrieved {
            self.window.see(id);
            return true;
        }
        false
    }
}

/// The ids a cycle emits, processing candidates in order against a window
/// holding `w`: each unseen, retrievable candidate is emitted and recorded.
pub open spec fn cycle_emits(w: Seq<TxId>, cap: nat, cand: Seq<TxId>, ret: Seq<bool>) -> Seq<TxId>
    decreases cand.len(),
{
    if cand.len() == 0 {
        Seq::empty()
    } else {
        let id = cand[0];
        let hit = !w.contains(id) && ret[0];
        let w2 = if hit {
            see_spec(w, cap, id)
        } else {
            w
        };
        let rest = cycle_emits(w2, cap, cand.drop_first(), ret.drop_first());
        if hit {
            seq![id] + rest
        } else {
            rest
        }
    }
}

/// The window contents after a cycle.
pub open spec fn cycle_window(w: Seq<TxId>, cap: nat, cand: Seq<TxId>, ret: Seq<bool>) -> Seq<
    TxId,
>
    decreases cand.len(),
{
    if cand.len() == 0 {
        w
    } else {
        let id = cand[0];
        let w2 = if !w.contains(id) && ret[0] {
            see_spec(w, cap, id)
        } else {
            w
        };
        cycle_window(w2, cap, cand.drop_first(), ret.drop_first())
    }
}

impl MempoolPoller {
    /// Run one polling cycle over recorded per-candidate fetch outcomes:
    /// `retrieved[k]` says whether the fetch of `candidates[k]`, had one
    /// been due, retrieved the transaction.  Returns the emitted ids in
    /// discovery order.  This is the cycle loop with the I/O replaced by
    /// the recorded outcomes.
    pub fn run_cycle(&mut self, candidates: &Vec<TxId>, retrieved: &Vec<bool>) -> (emitted: Vec<
        TxId,
    >)
        requires
            old(self).wf(),
            candidates@.len() == retrieved@.len(),
        ensures
            final(self).wf(),
            final(self).cap() == old(self).cap(),
            emitted@ == cycle_emits(old(self).seen(), old(self).cap(), candidates@, retrieved@),
            final(self).seen() == cycle_window(
                old(self).seen(),
                old(self).cap(),
                candidates@,
                retrieved@,
            ),
    {
        let ghost start = self.seen();
        let ghost cap = self.cap();
        let mut emitted: Vec<TxId> = Vec::new();
        let mut i: usize = 0;
        proof {
            assert(candidates@.subrange(0, candidates@.len() as int) =~= candidates@);
            assert(retrieved@.subrange(0, retrieved@.len() as int) =~= retrieved@);
            assert(emitted@ + cycle_emits(start, cap, candidates@, retrieved@) =~= cycle_emits(
                start,
                cap,
                candidates@,
                retrieved@,
            ));
        }
        while i < candidates.len()
            invariant
                i <= candidates@.len(),
                candidates@.len() == retrieved@.len(),
                self.wf(),
                self.cap() == cap,
                cycle_emits(start, cap, candidates@, retrieved@) == emitted@ + cycle_emits(
                    self.seen(),
                    cap,
                    candidates@.subrange(i as int, candidates@.len() as int),
                    retrieved@.subrange(i as int, retrieved@.len() as int),
                ),
                cycle_window(start, cap, candidates@, retrieved@) == cycle_window(
                    self.seen(),
                    cap,
                    candidates@.subrange(i as int, candidates@.len() as int),
                    retrieved@.subrange(i as int, retrieved@.len() as int),
                ),
            decreases candidates@.len() - i,
        {
            let ghost rem_c = candidates@.subrange(i as int, candidates@.len() as int);
            let ghost rem_r = retrieved@.subrange(i as int, retrieved@.len() as int);
            let id = candidates[i];
            let r = retrieved[i];
            proof {
                assert(rem_c[0] == id);
                assert(rem_r[0] == r);
                assert(rem_c.drop_first() =~= candidates@.subrange(
                    i as int + 1,
                    candidates@.len() as int,
                ));
                assert(rem_r.drop_first() =~= retrieved@.subrange(
                    i as int + 1,
                    retrieved@.len() as int,
                ));
            }
            let emit = self.record_fetch(id, r);
            if emit {
                emitted.push(id);
                proof {
                    assert(emitted@.drop_last() + (seq![id] + cycle_emits(
                        self.seen(),
                        cap,
                        rem_c.drop_first(),
                        rem_r.drop_first(),
                    )) =~= emitted@ + cycle_emits(
                        self.seen(),
                        cap,
                        rem_c.drop_first(),
                        rem_r.drop_first(),
                    ));
                    assert(emitted@.drop_last() =~= emitted@.subrange(0, emitted@.len() - 1));
                }
            }
            i += 1;
        }
        proof {
            assert(candidates@.subrange(i as int, candidates@.len() as int) =~= Seq::<
                TxId,
            >::empty());
            assert(retrieved@.subrange(i as int, retrieved@.len() as int) =~= Seq::<
                bool,
            >::empty());
            assert(emitted@ + cycle_emits(
                self.seen(),
                cap,
                Seq::<TxId>::empty(),
                Seq::<bool>::empty(),
            ) =~= emitted@);
        }
        emitted
    }
}

/// Law (single emission per cycle): when the window has room for the whole
/// candidate list, a cycle emits no identifier twice, and only identifiers
/// that were not recorded as seen before the cycle began.  In particular a
/// cycle fed from the pending-block fallback emits each new transaction
/// exactly once.
pub proof fn lemma_cycle_emits_once(w: Seq<TxId>, cap: nat, cand: Seq<TxId>, ret: Seq<bool>)
    requires
        distinct(w),
        cand.len() == ret.len(),
        w.len() + cand.len() <= cap,
    ensures
        distinct(cycle_emits(w, cap, cand, ret)),
        forall|k: int|
            0 <= k < cycle_emits(w, cap, cand, ret).len() ==> !w.contains(
                #[trigger] cycle_emits(w, cap, cand, ret)[k],
            ),
    decreases cand.len(),
{
    if cand.len() > 0 {
        let id = cand[0];
        let hit = !w.contains(id) && ret[0];
        if hit {
            let w2 = see_spec(w, cap, id);
            assert(w2 == w.push(id));
            assert(distinct(w2)) by {
                assert forall|i: int, j: int| 0 <= i < j < w2.len() implies w2[i] != w2[j] by {
                    if j == w2.len() - 1 {
                        assert(w2[i] == w[i]);
                        assert(w.contains(w[i]));
                    }
                }
            }
            lemma_cycle_emits_once(w2, cap, cand.drop_first(), ret.drop_first());
            let rest = cycle_emits(w2, cap, cand.drop_first(), ret.drop_first());
            let e = cycle_emits(w, cap, cand, ret);
            assert(e == seq![id] + rest);
            assert(w2[w2.len() - 1] == id);
            assert(w2.contains(id));
            assert forall|x: TxId| w.contains(x) implies w2.contains(x) by {
                let t = choose|t: int| 0 <= t < w.len() && w[t] == x;
                assert(w2[t] == x);
            }
            assert forall|i: int, j: int| 0 <= i < j < e.len() implies e[i] != e[j] by {
                assert(e[j] == rest[j - 1]);
                assert(!w2.contains(rest[j - 1]));
                if i > 0 {
                    assert(e[i] == rest[i - 1]);
                }
            }
            assert forall|k: int| 0 <= k < e.len() implies !w.contains(#[trigger] e[k]) by {
                if k > 0 {
                    assert(e[k] == rest[k - 1]);
                    assert(!w2.contains(rest[k - 1]));
                }
            }
        } else {
            lemma_cycle_emits_once(w, cap, cand.drop_first(), ret.drop_first());
        }
    }
}

/// Law (emitted ids stay resident): when the window has room for the whole
/// candidate list, the cycle appends exactly the emitted ids, in emission
/// order, to the window.  An id emitted in one cycle is therefore recorded
/// when the next cycle begins and, by the law above, is not emitted again
/// while it stays resident.
pub proof fn lemma_cycle_records_emitted(w: Seq<TxId>, cap: nat, cand: Seq<TxId>, ret: Seq<bool>)
    requires
        distinct(w),
        cand.len() == ret.len(),
        w.len() + cand.len() <= cap,
    ensures
        cycle_window(w, cap, cand, ret) == w + cycle_emits(w, cap, cand, ret),
    decreases cand.len(),
{
    if cand.len() == 0 {
        assert(w + cycle_emits(w, cap, cand, ret) =~= w);
    } else {
        let id = cand[0];
        let hit = !w.contains(id) && ret[0];
        if hit {
            let w2 = see_spec(w, cap, id);
            assert(w2 == w.push(id));
            assert(distinct(w2)) by {
                assert forall|i: int, j: int| 0 <= i < j < w2.len() implies w2[i] != w2[j] by {
                    if j == w2.len() - 1 {
                        assert(w2[i] == w[i]);
                        assert(w.contains(w[i]));
                    }
                }
            }
            lemma_cycle_records_emitted(w2, cap, cand.drop_first(), ret.drop_first());
            let rest = cycle_emits(w2, cap, cand.drop_first(), ret.drop_first());
            assert(w2 =~= w + seq![id]);
            assert((w + seq![id]) + rest =~= w + (seq![id] + rest));
        } else {
            lemma_cycle_records_emitted(w, cap, cand.drop_first(), ret.drop_first());
        }
    }
}

} // verus!
