//! Bounded-memory record of recently seen transaction identifiers.
//!
//! The window is an ordered set: insertion order is kept, re-insertion of a
//! present id is a no-op that reports "already seen", and once the size
//! exceeds a configured ceiling the oldest half of the entries is evicted in
//! one batch.  Forgetting an id through eviction is benign (it may later be
//! reported as new again); reporting a genuinely new id as seen never
//! happens, because membership is decided by exact lookup.

use vstd::prelude::*;
use crate::TxId;

verus! {

/// No identifier occurs twice in `s`.
pub open spec fn distinct(s: Seq<TxId>) -> bool {
    forall|i: int, j: int| 0 <= i < j < s.len() ==> s[i] != s[j]
}

/// The window after `see(id)` on a window holding `s` with the given
/// ceiling: a present id changes nothing; a new id is appended, and if the
/// size then exceeds the ceiling the oldest half is evicted.
pub open spec fn see_spec(s: Seq<TxId>, ceiling: nat, id: TxId) -> Seq<TxId> {
    if s.contains(id) {
        s
    } else {
        let pushed = s.push(id);
        if pushed.len() > ceiling {
            pushed.subrange(pushed.len() as int / 2, pushed.len() as int)
        } else {
            pushed
        }
    }
}

pub struct DedupWindow {
    ids: Vec<TxId>,
    ceiling: usize,
}

impl View for DedupWindow {
    type V = Seq<TxId>;

    closed spec fn view(&self) -> Seq<TxId> {
        self.ids@
    }
}

impl DedupWindow {
    /// The configured size ceiling that triggers compaction.
    pub closed spec fn cap(&self) -> nat {
        self.ceiling as nat
    }

    /// Internal consistency: a positive ceiling, no duplicate entries, and a
    /// size that never exceeds the ceiling.
    pub open spec fn wf(&self) -> bool {
        &&& self.cap() >= 1
        &&& distinct(self@)
        &&& self@.len() <= self.cap()
    }

    pub fn new(ceiling: usize) -> (w: DedupWindow)
        requires
            ceiling >= 1,
        ensures
            w.wf(),
            w@ == Seq::<TxId>::empty(),
            w.cap() == ceiling,
    {
        DedupWindow { ids: Vec::new(), ceiling }
    }

    pub fn len(&self) -> (n: usize)
        ensures
            n == self@.len(),
    {
        self.ids.len()
    }

    /// Whether `id` is currently recorded.
    pub fn contains(&self, id: TxId) -> (present: bool)
        ensures
            present == self@.contains(id),
    {
        let mut i: usize = 0;
        while i < self.ids.len()
            invariant
                i <= self.ids.len(),
                forall|k: int| 0 <= k < i ==> self.ids@[k] != id,
            decreases self.ids.len() - i,
        {
            if self.ids[i] == id {
                assert(self@[i as int] == id);
                return true;
            }
            i += 1;
        }
        assert(!self@.contains(id)) by {
            if self@.contains(id) {
                let k = choose|k: int| 0 <= k < self@.len() && self@[k] == id;
                assert(self.ids@[k] != id);
            }
        }
        false
    }

    /// Record `id` if it is new.  Returns true exactly when `id` was not yet
    /// present; in that case it is appended, and the oldest half of the
    /// entries is evicted if the size then exceeds the ceiling.  Either way
    /// `id` is recorded afterwards.
    pub fn see(&mut self, id: TxId) -> (fresh: bool)
        requires
            old(self).wf(),
        ensures
            final(self).wf(),
            final(self).cap() == old(self).cap(),
            fresh == !old(self)@.contains(id),
            final(self)@ == see_spec(old(self)@, old(self).cap(), id),
            final(self)@.contains(id),
    {
        if self.contains(id) {
            assert(self@.contains(id));
            return false;
        }
        self.ids.push(id);
        let ghost pushed = self.ids@;
        assert(distinct(pushed)) by {
            let prior = old(self)@;
            assert forall|i: int, j: int| 0 <= i < j < pushed.len() implies pushed[i]
                != pushed[j] by {
                if j == pushed.len() - 1 {
                    assert(pushed[i] == prior[i]);
                    assert(prior.contains(prior[i]));
                }
            }
        }
        if self.ids.len() > self.ceiling {
            let half = self.ids.len() / 2;
            let mut kept: Vec<TxId> = Vec::new();
            let mut i: usize = half;
            while i < self.ids.len()
                invariant
                    half <= i <= self.ids.len(),
                    self.ids@ == pushed,
                    half == pushed.len() as int / 2,
                    kept@ == pushed.subrange(half as int, i as int),
                decreases self.ids.len() - i,
            {
                let x = self.ids[i];
                kept.push(x);
                i += 1;
                assert(kept@ =~= pushed.subrange(half as int, i as int));
            }
            self.ids = kept;
            assert(self@ == see_spec(old(self)@, old(self).cap(), id));
            assert(distinct(self@)) by {
                let h = half as int;
                assert forall|i: int, j: int| 0 <= i < j < self@.len() implies self@[i]
                    != self@[j] by {
                    assert(self@[i] == pushed[h + i]);
                    assert(self@[j] == pushed[h + j]);
                }
            }
            assert(self@.contains(id)) by {
                assert(self@[self@.len() - 1] == id);
            }
        } else {
            assert(self@.contains(id)) by {
                assert(self@[self@.len() - 1] == id);
            }
        }
        true
    }
}

/// Law: deduplication never misreports.  On any window contents `s`, a
/// `see(id)` reports "new" exactly when `s` does not hold `id`; afterwards
/// `id` is recorded, so an immediately repeated `see(id)` reports "seen";
/// and a `see` of a present id leaves the window unchanged.
pub proof fn lemma_dedup_correct(s: Seq<TxId>, ceiling: nat, id: TxId)
    requires
        ceiling >= 1,
    ensures
        s.contains(id) ==> see_spec(s, ceiling, id) == s,
        see_spec(s, ceiling, id).contains(id),
        see_spec(see_spec(s, ceiling, id), ceiling, id) == see_spec(s, ceiling, id),
{
    if !s.contains(id) {
        let pushed = s.push(id);
        if pushed.len() > ceiling {
            let kept = pushed.subrange(pushed.len() as int / 2, pushed.len() as int);
            assert(kept[kept.len() - 1] == id);
            assert(kept.contains(id));
        } else {
            assert(pushed[pushed.len() - 1] == id);
            assert(pushed.contains(id));
        }
    }
}

} // verus!
