use vstd::prelude::*;

use crate::animation_system::keep_marked;

verus! {

/// The running visual effects, oldest first; finished ones are pruned each
/// frame.
pub struct VfxSystem<E> {
    effects: Vec<E>,
}

impl<E> View for VfxSystem<E> {
    type V = Seq<E>;

    closed spec fn view(&self) -> Seq<E> {
        self.effects@
    }
}

impl<E> VfxSystem<E> {
    /// No effects.
    pub fn new() -> (res: Self)
        ensures
            res@ == Seq::<E>::empty(),
    {
        VfxSystem { effects: Vec::new() }
    }

    /// Adds a running effect after the others.
    pub fn push(&mut self, effect: E)
        ensures
            final(self)@ == old(self)@.push(effect),
    {
        self.effects.push(effect);
    }

    /// Keeps the effects at the positions that `keep` marks (the unfinished
    /// ones) and drops the others.
    pub fn retain_where(&mut self, keep: &Vec<bool>)
        requires
            keep@.len() == old(self)@.len(),
        ensures
            final(self)@ == keep_marked(old(self)@, keep@),
    {
        let ghost s = self.effects@;
        let n = self.effects.len();
        let mut i: usize = 0;
        let mut j: usize = 0;
        assert(s.take(0) =~= Seq::<E>::empty());
        assert(s.skip(0) =~= s);
        while i < n
            invariant
                n == s.len(),
                keep@.len() == n,
                i <= n,
                j <= i,
                j == keep_marked(s.take(i as int), keep@).len(),
                self.effects@ == keep_marked(s.take(i as int), keep@) + s.skip(i as int),
            decreases n - i,
        {
            let ghost kept = keep_marked(s.take(i as int), keep@);
            assert(s.take(i + 1).drop_last() =~= s.take(i as int));
            assert(s.take(i + 1).last() == s[i as int]);
            if keep[i] {
                assert(kept.push(s[i as int]) + s.skip(i + 1) =~= kept + s.skip(i as int));
                j = j + 1;
            } else {
                assert((kept + s.skip(i as int)).remove(j as int) =~= kept + s.skip(i + 1));
                self.effects.remove(j);
            }
            i = i + 1;
        }
        assert(s.take(n as int) =~= s);
        assert(self.effects@ =~= keep_marked(s, keep@));
    }

    /// Replaces the effect at `index` (for example with its advanced state).
    pub fn set(&mut self, index: usize, effect: E)
        requires
            index < old(self)@.len(),
        ensures
            final(self)@ == old(self)@.update(index as int, effect),
    {
        self.effects.set(index, effect);
    }

    /// Drops every effect.
    pub fn clear(&mut self)
        ensures
            final(self)@ == Seq::<E>::empty(),
    {
        self.effects.clear();
    }

    /// The running effects, oldest first.
    pub fn active_effects(&self) -> (res: &[E])
        ensures
            res@ == self@,
    {
        self.effects.as_slice()
    }

    /// Number of running effects.
    pub fn count(&self) -> (res: usize)
        ensures
            res == self@.len(),
    {
        self.effects.len()
    }
}

impl<E> Default for VfxSystem<E> {
    fn default() -> (res: Self)
        ensures
            res@ == Seq::<E>::empty(),
    {
        Self::new()
    }
}

/// Keeping every effect keeps them all.
pub proof fn lemma_keep_all<E>(s: Seq<E>, keep: Seq<bool>)
    requires
        s.len() <= keep.len(),
        forall|i: int| 0 <= i < s.len() ==> keep[i],
    ensures
        keep_marked(s, keep) == s,
    decreases s.len(),
{
    if s.len() > 0 {
        lemma_keep_all(s.drop_last(), keep);
        assert(s.drop_last().push(s.last()) =~= s);
    }
}

} // verus!
