use vstd::prelude::*;

verus! {

/// A group of animation ids returned when a sequence, a parallel group or a
/// timeline is started.
#[derive(Debug, Clone)]
pub struct AnimationGroupID {
    ids: Vec<usize>,
}

impl View for AnimationGroupID {
    type V = Seq<usize>;

    closed spec fn view(&self) -> Seq<usize> {
        self.ids@
    }
}

impl AnimationGroupID {
    /// A group holding `ids`, in that order.
    pub fn new(ids: Vec<usize>) -> (res: AnimationGroupID)
        ensures
            res@ == ids@,
    {
        AnimationGroupID { ids }
    }

    /// A group with no ids.
    pub fn empty() -> (res: AnimationGroupID)
        ensures
            res@ == Seq::<usize>::empty(),
    {
        AnimationGroupID { ids: Vec::new() }
    }

    /// Whether the group holds no ids.
    pub fn is_empty(&self) -> (res: bool)
        ensures
            res == (self@.len() == 0),
    {
        self.ids.len() == 0
    }

    /// Number of ids in the group.
    pub fn len(&self) -> (res: usize)
        ensures
            res == self@.len(),
    {
        self.ids.len()
    }

    /// The ids of the group, in order.
    pub fn iter(&self) -> (res: &[usize])
        ensures
            res@ == self@,
    {
        self.ids.as_slice()
    }

    /// The id at position `index`, if there is one.
    pub fn get_id(&self, index: usize) -> (res: Option<&usize>)
        ensures
            index < self@.len() ==> res == Some(&self@[index as int]),
            index >= self@.len() ==> res.is_none(),
    {
        if index < self.ids.len() {
            Some(&self.ids[index])
        } else {
            None
        }
    }

    /// Removes the id at position `index`; later ids move down by one.
    pub fn remove(&mut self, index: usize)
        requires
            index < old(self)@.len(),
        ensures
            final(self)@ == old(self)@.remove(index as int),
    {
        self.ids.remove(index);
    }
}

} // verus!
