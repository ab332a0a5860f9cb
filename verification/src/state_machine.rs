//! Applying committed blocks exactly once.
//!
//! The state machine remembers the height of the last block applied and
//! the ids of the transactions already applied, so that applying a block
//! again applies nothing twice. Writing a transaction's operations into the
//! storage engines is the caller's: it asks which transactions of a block
//! are still to apply, applies each in turn, records each one that
//! succeeded, and closes the block with its height once all succeeded.

use vstd::prelude::*;
use crate::text::{contains_word, str_eq, word_views};

verus! {

/// The ids of `ids`, in order, that are neither in `applied` nor earlier in
/// `ids`: the transactions a block would still apply.
pub open spec fn still_to_apply(applied: Set<Seq<char>>, ids: Seq<Seq<char>>) -> Seq<Seq<char>>
    decreases ids.len(),
{
    if ids.len() == 0 {
        Seq::empty()
    } else {
        let prev = still_to_apply(applied, ids.drop_last());
        let x = ids.last();
        if applied.contains(x) || ids.drop_last().contains(x) {
            prev
        } else {
            prev.push(x)
        }
    }
}

/// Progress of applying committed blocks.
pub struct ConsensusStateMachine {
    last_applied_height: u64,
    applied_txns: Vec<String>,
}

impl ConsensusStateMachine {
    /// The ids of the transactions applied so far.
    pub closed spec fn applied(&self) -> Set<Seq<char>> {
        word_views(self.applied_txns@).to_set()
    }

    /// The height of the last block applied.
    pub closed spec fn height(&self) -> u64 {
        self.last_applied_height
    }

    /// Nothing applied yet, at height zero.
    pub fn new() -> (m: Self)
        ensures
            m.applied() == Set::<Seq<char>>::empty(),
            m.height() == 0,
    {
        let m = ConsensusStateMachine { last_applied_height: 0, applied_txns: Vec::new() };
        assert(word_views(m.applied_txns@) =~= Seq::<Seq<char>>::empty());
        m
    }

    /// Height of the most recently applied block.
    pub fn last_applied_height(&self) -> (h: u64)
        ensures
            h == self.height(),
    {
        self.last_applied_height
    }

    /// Whether transaction `tx_id` has been applied.
    pub fn is_applied(&self, tx_id: &str) -> (b: bool)
        ensures
            b == self.applied().contains(tx_id@),
    {
        contains_word(&self.applied_txns, tx_id)
    }

    /// The transactions of a block, by id in block order, that are still to
    /// apply: those not applied yet, each once.
    pub fn to_apply(&self, tx_ids: &Vec<String>) -> (r: Vec<String>)
        ensures
            word_views(r@) == still_to_apply(self.applied(), word_views(tx_ids@)),
    {
        let ghost ids = word_views(tx_ids@);
        let mut r: Vec<String> = Vec::new();
        let mut i: usize = 0;
        assert(ids.take(0) =~= Seq::<Seq<char>>::empty());
        assert(word_views(r@) =~= Seq::<Seq<char>>::empty());
        while i < tx_ids.len()
            invariant
                i <= tx_ids@.len(),
                ids == word_views(tx_ids@),
                word_views(r@) == still_to_apply(self.applied(), ids.take(i as int)),
            decreases tx_ids@.len() - i,
        {
            let ghost pre = ids.take(i as int);
            assert(ids.take(i + 1).drop_last() =~= pre);
            assert(ids.take(i + 1).last() == ids[i as int]);
            let id = tx_ids[i].as_str();
            let seen = self.is_applied(id) || self.seen_before(tx_ids, i);
            if !seen {
                let ghost before = word_views(r@);
                r.push(tx_ids[i].clone());
                assert(word_views(r@) =~= before.push(ids[i as int]));
            }
            i = i + 1;
        }
        assert(ids.take(ids.len() as int) =~= ids);
        r
    }

    /// Whether the id at `i` occurs earlier in `tx_ids`.
    fn seen_before(&self, tx_ids: &Vec<String>, i: usize) -> (b: bool)
        requires
            i < tx_ids@.len(),
        ensures
            b == word_views(tx_ids@).take(i as int).contains(tx_ids@[i as int]@),
    {
        let ghost ids = word_views(tx_ids@);
        let mut j: usize = 0;
        while j < i
            invariant
                i < tx_ids@.len(),
                j <= i,
                ids == word_views(tx_ids@),
                forall|k: int| 0 <= k < j ==> ids[k] != ids[i as int],
            decreases i - j,
        {
            if str_eq(tx_ids[j].as_str(), tx_ids[i].as_str()) {
                assert(ids.take(i as int)[j as int] == ids[i as int]);
                return true;
            }
            j = j + 1;
        }
        proof {
            if ids.take(i as int).contains(ids[i as int]) {
                let k = choose|k: int| 0 <= k < i && ids.take(i as int)[k] == ids[i as int];
                assert(ids[k] == ids.take(i as int)[k]);
            }
        }
        false
    }

    /// Records that transaction `tx_id` was applied.
    pub fn record_applied(&mut self, tx_id: &str)
        ensures
            final(self).applied() == old(self).applied().insert(tx_id@),
            final(self).height() == old(self).height(),
    {
        let ghost before = word_views(self.applied_txns@);
        self.applied_txns.push(tx_id.to_owned());
        proof {
            assert(word_views(self.applied_txns@) =~= before.push(tx_id@));
            assert(before.push(tx_id@).to_set() =~= before.to_set().insert(tx_id@)) by {
                assert forall|x: Seq<char>| before.push(tx_id@).contains(x) == before.to_set().insert(tx_id@).contains(x) by {
                    if before.push(tx_id@).contains(x) {
                        let k = choose|k: int| 0 <= k < before.push(tx_id@).len() && before.push(tx_id@)[k] == x;
                        if k < before.len() {
                            assert(before[k] == x);
                        }
                    }
                    if before.contains(x) {
                        let k = choose|k: int| 0 <= k < before.len() && before[k] == x;
                        assert(before.push(tx_id@)[k] == x);
                    }
                    if x == tx_id@ {
                        assert(before.push(tx_id@)[before.len() as int] == x);
                    }
                }
            }
        }
    }

    /// Closes a block whose transactions were all applied: its height
    /// becomes the last applied one.
    pub fn finish_block(&mut self, height: u64)
        ensures
            final(self).height() == height,
            final(self).applied() == old(self).applied(),
    {
        self.last_applied_height = height;
    }
}

/// What is still to apply is never already applied, never repeated, and
/// drawn from the block.
proof fn lemma_still_to_apply_members(applied: Set<Seq<char>>, ids: Seq<Seq<char>>, x: Seq<char>)
    ensures
        still_to_apply(applied, ids).contains(x) == (ids.contains(x) && !applied.contains(x)),
    decreases ids.len(),
{
    if ids.len() > 0 {
        let pre = ids.drop_last();
        let last = ids.last();
        lemma_still_to_apply_members(applied, pre, x);
        let p = still_to_apply(applied, pre);
        assert(ids.contains(x) == (pre.contains(x) || last == x)) by {
            if ids.contains(x) {
                let k = choose|k: int| 0 <= k < ids.len() && ids[k] == x;
                if k < pre.len() {
                    assert(pre[k] == x);
                }
            }
            if pre.contains(x) {
                let k = choose|k: int| 0 <= k < pre.len() && pre[k] == x;
                assert(ids[k] == x);
            }
            if last == x {
                assert(ids[ids.len() - 1] == x);
            }
        }
        if !(applied.contains(last) || pre.contains(last)) {
            assert(p.push(last).contains(x) == (p.contains(x) || last == x)) by {
                if p.push(last).contains(x) {
                    let k = choose|k: int| 0 <= k < p.push(last).len() && p.push(last)[k] == x;
                    if k < p.len() {
                        assert(p[k] == x);
                    }
                }
                if p.contains(x) {
                    let k = choose|k: int| 0 <= k < p.len() && p[k] == x;
                    assert(p.push(last)[k] == x);
                }
                if last == x {
                    assert(p.push(last)[p.len() as int] == x);
                }
            }
        }
    }
}

/// A block is applied at most once: once its transactions are recorded as
/// applied, nothing of it is left to apply, so applying it again changes
/// nothing.
pub proof fn lemma_applied_block_applies_nothing(applied: Set<Seq<char>>, ids: Seq<Seq<char>>)
    requires
        forall|i: int| 0 <= i < ids.len() ==> applied.contains(#[trigger] ids[i]),
    ensures
        still_to_apply(applied, ids).len() == 0,
{
    if still_to_apply(applied, ids).len() > 0 {
        let x = still_to_apply(applied, ids)[0];
        assert(still_to_apply(applied, ids).contains(x));
        lemma_still_to_apply_members(applied, ids, x);
        let i = choose|i: int| 0 <= i < ids.len() && ids[i] == x;
        assert(applied.contains(ids[i]));
    }
}

} // verus!
