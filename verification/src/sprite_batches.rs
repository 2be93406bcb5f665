use vstd::prelude::*;

verus! {

/// The sprite instances queued for one texture this frame.
pub struct Batch<I> {
    pub label: String,
    pub instances: Vec<I>,
}

/// A texture label with the instances queued for it.
pub type BatchView<I> = (Seq<char>, Seq<I>);

/// Whether no label occurs twice.
pub open spec fn labels_distinct<I>(s: Seq<BatchView<I>>) -> bool {
    forall|i: int, j: int| 0 <= i < s.len() && 0 <= j < s.len() && i != j ==> s[i].0 != s[j].0
}

/// Whether some batch has `label`.
pub open spec fn has_label<I>(s: Seq<BatchView<I>>, label: Seq<char>) -> bool {
    exists|i: int| 0 <= i < s.len() && s[i].0 == label
}

/// Per-frame sprite instances grouped by texture label.  Labels keep the
/// order in which they were first used this frame, each label has one
/// batch, and a batch keeps its instances in the order they were added.
pub struct SpriteBatches<I> {
    batches: Vec<Batch<I>>,
}

impl<I> View for SpriteBatches<I> {
    type V = Seq<BatchView<I>>;

    closed spec fn view(&self) -> Seq<BatchView<I>> {
        self.batches@.map_values(|b: Batch<I>| (b.label@, b.instances@))
    }
}

impl<I> SpriteBatches<I> {
    #[verifier::type_invariant]
    spec fn well_formed(self) -> bool {
        labels_distinct(self@)
    }

    /// No batches.
    pub fn new() -> (res: Self)
        ensures
            res@ == Seq::<BatchView<I>>::empty(),
            labels_distinct(res@),
    {
        let res = SpriteBatches { batches: Vec::new() };
        assert(res@ =~= Seq::<BatchView<I>>::empty());
        res
    }

    /// Position of the batch for `label`, if there is one.
    pub fn position(&self, label: &str) -> (res: Option<usize>)
        ensures
            res.is_some() == has_label(self@, label@),
            res matches Some(k) ==> k < self@.len() && self@[k as int].0 == label@,
    {
        let key = label.to_owned();
        let mut i: usize = 0;
        while i < self.batches.len()
            invariant
                key@ == label@,
                i <= self.batches@.len(),
                forall|j: int| 0 <= j < i ==> self@[j].0 != label@,
            decreases self.batches@.len() - i,
        {
            assert(self@[i as int].0 == self.batches@[i as int].label@);
            if self.batches[i].label == key {
                return Some(i);
            }
            i = i + 1;
        }
        None
    }

    /// Queues `instance` for the texture `label`: the label's batch gets the
    /// instance at its end, and a label not seen yet this frame gets a new
    /// batch after all others.
    pub fn add_instance(&mut self, label: &str, instance: I)
        ensures
            has_label(old(self)@, label@) ==> exists|k: int|
                0 <= k < old(self)@.len() && old(self)@[k].0 == label@ && final(self)@
                    == old(self)@.update(k, (label@, old(self)@[k].1.push(instance))),
            !has_label(old(self)@, label@) ==> final(self)@ == old(self)@.push(
                (label@, seq![instance]),
            ),
            labels_distinct(final(self)@),
    {
        proof {
            use_type_invariant(&*self);
        }
        let ghost s = self@;
        let pos = self.position(label);
        let mut batches: Vec<Batch<I>> = Vec::new();
        std::mem::swap(&mut batches, &mut self.batches);
        match pos {
            Some(k) => {
                let mut b = batches.remove(k);
                b.instances.push(instance);
                batches.insert(k, b);
                let ghost v = batches@.map_values(|b: Batch<I>| (b.label@, b.instances@));
                assert(v =~= s.update(k as int, (label@, s[k as int].1.push(instance))));
                assert(labels_distinct(v)) by {
                    assert forall|i: int| 0 <= i < v.len() implies v[i].0 == s[i].0 by {}
                }
            },
            None => {
                let mut instances = Vec::new();
                instances.push(instance);
                batches.push(Batch { label: label.to_owned(), instances });
                let ghost v = batches@.map_values(|b: Batch<I>| (b.label@, b.instances@));
                assert(v =~= s.push((label@, seq![instance])));
                assert(labels_distinct(v)) by {
                    assert forall|i: int| 0 <= i < s.len() implies v[i].0 != label@ by {
                        assert(v[i] == s[i]);
                    }
                }
            },
        }
        self.batches = batches;
        proof {
            use_type_invariant(&*self);
        }
    }

    /// Drops every batch.
    pub fn clear_instances(&mut self)
        ensures
            final(self)@ == Seq::<BatchView<I>>::empty(),
            labels_distinct(final(self)@),
    {
        self.batches = Vec::new();
        assert(self@ =~= Seq::<BatchView<I>>::empty());
    }

    /// Drops the batch for `label`, if there is one; the other batches keep
    /// their order.
    pub fn unload(&mut self, label: &str)
        ensures
            has_label(old(self)@, label@) ==> exists|k: int|
                0 <= k < old(self)@.len() && old(self)@[k].0 == label@ && final(self)@
                    == old(self)@.remove(k),
            !has_label(old(self)@, label@) ==> final(self)@ == old(self)@,
            labels_distinct(final(self)@),
    {
        proof {
            use_type_invariant(&*self);
        }
        let ghost s = self@;
        match self.position(label) {
            Some(k) => {
                let mut batches: Vec<Batch<I>> = Vec::new();
                std::mem::swap(&mut batches, &mut self.batches);
                batches.remove(k);
                let ghost v = batches@.map_values(|b: Batch<I>| (b.label@, b.instances@));
                assert(v =~= s.remove(k as int));
                assert(labels_distinct(v)) by {
                    assert forall|i: int| 0 <= i < v.len() implies v[i] == s[if i < k { i } else { i + 1 }] by {}
                }
                self.batches = batches;
            },
            None => {},
        }
        proof {
            use_type_invariant(&*self);
        }
    }

    /// Number of batches.
    pub fn len(&self) -> (res: usize)
        ensures
            res == self@.len(),
    {
        self.batches.len()
    }

    /// The batch at position `index`.
    pub fn batch(&self, index: usize) -> (res: &Batch<I>)
        requires
            index < self@.len(),
        ensures
            (res.label@, res.instances@) == self@[index as int],
    {
        &self.batches[index]
    }
}

} // verus!
