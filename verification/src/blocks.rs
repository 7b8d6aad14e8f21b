//! Watching the chain head and emitting newly produced blocks.
//!
//! The watcher's sole persistent state is the height of the last block it
//! emitted.  Each cycle queries the current height; when there is no prior
//! height, or the reply is strictly greater, the block at that height is
//! fetched and, if present, emitted and recorded.  Equal or lower replies
//! and failed queries change nothing, so emitted heights strictly increase.
//!
//! The height query and the block fetch are network I/O done by the driver;
//! the watcher decides and records.

use vstd::prelude::*;

verus! {

/// The reply at which a fetch is due: the first ever reply, or one strictly
/// above the last emitted height.
pub open spec fn height_is_new(last: Option<u64>, height: u64) -> bool {
    match last {
        None => true,
        Some(l) => height > l,
    }
}

pub struct BlockWatcher {
    last: Option<u64>,
}

impl BlockWatcher {
    /// The height of the last emitted block, if any.
    pub closed spec fn last(&self) -> Option<u64> {
        self.last
    }

    pub fn new() -> (w: BlockWatcher)
        ensures
            w.last() is None,
    {
        BlockWatcher { last: None }
    }

    pub fn last_height(&self) -> (h: Option<u64>)
        ensures
            h == self.last(),
    {
        self.last
    }

    /// Whether the height a query replied calls for a block fetch.  A failed
    /// query never reaches this point: it changes nothing and the loop
    /// retries on its next tick.
    pub fn wants_fetch(&self, height: u64) -> (due: bool)
        ensures
            due == height_is_new(self.last(), height),
    {
        match self.last {
            None => true,
            Some(l) => height > l,
        }
    }

    /// Record what fetching the block at `height` found.  The block is
    /// emitted exactly when it was present, and only then does the watcher
    /// advance its last emitted height.
    pub fn record_fetch(&mut self, height: u64, found: bool) -> (emit: bool)
        requires
            height_is_new(old(self).last(), height),
        ensures
            emit == found,
            final(self).last() == if found {
                Some(height)
            } else {
                old(self).last()
            },
    {
        if found {
            self.last = Some(height);
        }
        found
    }
}

/// One simulated watcher cycle: what the height query replied (`None` for a
/// failed query), and whether the block fetch, had one been due, found the
/// block.
#[derive(Clone, Copy, Debug, PartialEq, Eq)]
pub struct BlockCycle {
    pub height_reply: Option<u64>,
    pub block_found: bool,
}

/// The heights the watcher emits over a run of cycles, starting from `last`.
pub open spec fn emitted_heights(last: Option<u64>, cycles: Seq<BlockCycle>) -> Seq<u64>
    decreases cycles.len(),
{
    if cycles.len() == 0 {
        Seq::empty()
    } else {
        let c = cycles[0];
        let rest = cycles.drop_first();
        match c.height_reply {
            None => emitted_heights(last, rest),
            Some(h) => if height_is_new(last, h) && c.block_found {
                seq![h] + emitted_heights(Some(h), rest)
            } else {
                emitted_heights(last, rest)
            },
        }
    }
}

pub open spec fn strictly_increasing(s: Seq<u64>) -> bool {
    forall|i: int, j: int| 0 <= i < j < s.len() ==> s[i] < s[j]
}

/// Law (monotonic height): over any run of cycles the emitted heights
/// strictly increase, and all lie strictly above the height last emitted
/// before the run; a reply at or below it yields no emission.
pub proof fn lemma_monotonic_height(last: Option<u64>, cycles: Seq<BlockCycle>)
    ensures
        strictly_increasing(emitted_heights(last, cycles)),
        last matches Some(l) ==> forall|k: int|
            0 <= k < emitted_heights(last, cycles).len() ==> #[trigger] emitted_heights(
                last,
                cycles,
            )[k] > l,
    decreases cycles.len(),
{
    if cycles.len() > 0 {
        let c = cycles[0];
        let rest = cycles.drop_first();
        let e = emitted_heights(last, cycles);
        match c.height_reply {
            None => {
                lemma_monotonic_height(last, rest);
            },
            Some(h) => {
                if height_is_new(last, h) && c.block_found {
                    lemma_monotonic_height(Some(h), rest);
                    let er = emitted_heights(Some(h), rest);
                    assert(e == seq![h] + er);
                    assert forall|i: int, j: int| 0 <= i < j < e.len() implies e[i] < e[j] by {
                        assert(e[j] == er[j - 1]);
                        assert(er[j - 1] > h);
                        if i > 0 {
                            assert(e[i] == er[i - 1]);
                        }
                    }
                } else {
                    lemma_monotonic_height(last, rest);
                }
            },
        }
    }
}

/// Run the watcher over recorded cycles and collect the emitted heights.
/// This is the watcher loop with the I/O replaced by the recorded replies.
pub fn run_block_watcher(watcher: &mut BlockWatcher, cycles: &Vec<BlockCycle>) -> (emitted: Vec<
    u64,
>)
    ensures
        emitted@ == emitted_heights(old(watcher).last(), cycles@),
        strictly_increasing(emitted@),
{
    let ghost start = watcher.last();
    let mut emitted: Vec<u64> = Vec::new();
    let mut i: usize = 0;
    proof {
        assert(cycles@.subrange(0, cycles@.len() as int) =~= cycles@);
        assert(emitted@ + emitted_heights(start, cycles@) =~= emitted_heights(start, cycles@));
    }
    while i < cycles.len()
        invariant
            i <= cycles@.len(),
            emitted_heights(start, cycles@) == emitted@ + emitted_heights(
                watcher.last(),
                cycles@.subrange(i as int, cycles@.len() as int),
            ),
        decreases cycles@.len() - i,
    {
        let ghost before = watcher.last();
        let ghost remaining = cycles@.subrange(i as int, cycles@.len() as int);
        let c = cycles[i];
        proof {
            assert(remaining[0] == c);
            assert(remaining.drop_first() =~= cycles@.subrange(
                i as int + 1,
                cycles@.len() as int,
            ));
        }
        match c.height_reply {
            None => {},
            Some(h) => {
                if watcher.wants_fetch(h) {
                    let emit = watcher.record_fetch(h, c.block_found);
                    if emit {
                        emitted.push(h);
                        proof {
                            assert(emitted@ =~= emitted@.drop_last().push(h));
                            assert(emitted@.drop_last() + (seq![h] + emitted_heights(
                                watcher.last(),
                                remaining.drop_first(),
                            )) =~= emitted@ + emitted_heights(
                                watcher.last(),
                                remaining.drop_first(),
                            ));
                        }
                    }
                }
            },
        }
        i += 1;
    }
    proof {
        assert(cycles@.subrange(i as int, cycles@.len() as int) =~= Seq::<BlockCycle>::empty());
        assert(emitted_heights(start, cycles@) =~= emitted@);
        lemma_monotonic_height(start, cycles@);
    }
    emitted
}

} // verus!
