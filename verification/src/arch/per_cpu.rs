//! What each processor keeps of the locks that it holds: locks are taken in the order of
//! their ranks, and given back in the reverse order.
use vstd::prelude::*;

verus! {

pub const MAX_LOCK_DEPTH: usize = 8;

/// The ranks of the locks that a processor holds, the first taken first, and how often it
/// has switched interrupts off.
pub struct PerCpuState {
    irq_disable_depth: u32,
    ranks: Vec<u8>,
}

/// The ranks ascend, and none is zero.
pub open spec fn in_order(ranks: Seq<u8>) -> bool {
    &&& ranks.len() <= 8
    &&& forall|i: int| 0 <= i < ranks.len() ==> #[trigger] ranks[i] != 0
    &&& forall|i: int, j: int| 0 <= i < j < ranks.len() ==> ranks[i] < ranks[j]
}

/// Whether a lock of a rank can be taken with others held.
pub open spec fn allows(ranks: Seq<u8>, rank: u8) -> bool {
    rank != 0 && ranks.len() < 8 && (ranks.len() == 0 || ranks.last() < rank)
}

impl PerCpuState {
    pub closed spec fn held(&self) -> Seq<u8> {
        self.ranks@
    }

    pub closed spec fn depth(&self) -> u32 {
        self.irq_disable_depth
    }

    #[verifier::type_invariant]
    spec fn ordered(self) -> bool {
        in_order(self.ranks@)
    }

    /// A processor that holds no lock.
    pub fn new() -> (state: Self)
        ensures
            state.held() == Seq::<u8>::empty(),
            state.depth() == 0,
    {
        PerCpuState { irq_disable_depth: 0, ranks: Vec::new() }
    }

    pub fn lock_order_allows(&self, rank: u8) -> (allowed: bool)
        ensures
            allowed == allows(self.held(), rank),
            in_order(self.held()),
    {
        proof {
            use_type_invariant(self);
        }
        let depth: usize = self.ranks.len();
        rank != 0 && depth < MAX_LOCK_DEPTH && (depth == 0 || self.ranks[depth - 1] < rank)
    }

    /// Takes a lock, if its rank is higher than those held.
    pub fn push_lock_rank(&mut self, rank: u8) -> (taken: bool)
        ensures
            taken == allows(old(self).held(), rank),
            final(self).held() == (if taken {
                old(self).held().push(rank)
            } else {
                old(self).held()
            }),
            final(self).depth() == old(self).depth(),
    {
        proof {
            use_type_invariant(&*self);
        }
        if !self.lock_order_allows(rank) {
            return false;
        }
        let mut ranks: Vec<u8> = Vec::new();
        core::mem::swap(&mut ranks, &mut self.ranks);
        ranks.push(rank);
        self.ranks = ranks;
        true
    }

    /// Gives back the lock taken last, if it has this rank.
    pub fn pop_lock_rank(&mut self, rank: u8) -> (given: bool)
        ensures
            given == (old(self).held().len() > 0 && old(self).held().last() == rank),
            final(self).held() == (if given {
                old(self).held().drop_last()
            } else {
                old(self).held()
            }),
            final(self).depth() == old(self).depth(),
    {
        proof {
            use_type_invariant(&*self);
        }
        let depth: usize = self.ranks.len();
        if depth == 0 || self.ranks[depth - 1] != rank {
            return false;
        }
        let mut ranks: Vec<u8> = Vec::new();
        core::mem::swap(&mut ranks, &mut self.ranks);
        let _ = ranks.pop();
        assert(ranks@ =~= old(self).held().drop_last());
        self.ranks = ranks;
        true
    }

    pub fn irq_disabled_enter(&mut self)
        ensures
            final(self).depth() == old(self).depth().wrapping_add(1),
            final(self).held() == old(self).held(),
    {
        proof {
            use_type_invariant(&*self);
        }
        self.irq_disable_depth = self.irq_disable_depth.wrapping_add(1);
    }

    /// Whether interrupts were switched off at all; then once less.
    pub fn irq_disabled_exit(&mut self) -> (left: bool)
        ensures
            left == (old(self).depth() > 0),
            final(self).depth() == (if left {
                (old(self).depth() - 1) as u32
            } else {
                0
            }),
            final(self).held() == old(self).held(),
    {
        proof {
            use_type_invariant(&*self);
        }
        if self.irq_disable_depth == 0 {
            return false;
        }
        self.irq_disable_depth = self.irq_disable_depth - 1;
        true
    }

    pub fn irq_disable_depth(&self) -> (depth: u32)
        ensures
            depth == self.depth(),
    {
        self.irq_disable_depth
    }
}

/// Giving a lock back undoes taking it, and taking it keeps the order.
pub proof fn law_pop_undoes_push(ranks: Seq<u8>, rank: u8)
    requires
        in_order(ranks),
        allows(ranks, rank),
    ensures
        in_order(ranks.push(rank)),
        ranks.push(rank).last() == rank,
        ranks.push(rank).drop_last() == ranks,
{
    assert(ranks.push(rank).drop_last() =~= ranks);
}

/// A lock that is held cannot be taken again, nor one of a lower rank.
pub proof fn law_held_locks_are_refused(ranks: Seq<u8>, rank: u8)
    requires
        in_order(ranks),
        exists|i: int| 0 <= i < ranks.len() && #[trigger] ranks[i] >= rank,
    ensures
        !allows(ranks, rank),
{
    let i = choose|i: int| 0 <= i < ranks.len() && #[trigger] ranks[i] >= rank;
    if i < ranks.len() - 1 {
        assert(ranks[i] < ranks[ranks.len() - 1]);
    }
}

} // verus!
