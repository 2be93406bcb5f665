use vstd::prelude::*;

use crate::group::AnimationGroupID;

verus! {

/// One running animation: its id, whether it is paused, and the animation
/// state `data` that the caller advances and evaluates.
pub struct Track<T> {
    pub id: usize,
    pub paused: bool,
    pub data: T,
}

/// Whether some track carries `id`.
pub open spec fn has_id<T>(s: Seq<Track<T>>, id: usize) -> bool {
    exists|i: int| 0 <= i < s.len() && s[i].id == id
}

/// No two tracks share an id.
pub open spec fn ids_unique<T>(s: Seq<Track<T>>) -> bool {
    forall|i: int, j: int| 0 <= i < s.len() && 0 <= j < s.len() && i != j ==> s[i].id != s[j].id
}

/// Every id is below `bound`.
pub open spec fn ids_below<T>(s: Seq<Track<T>>, bound: nat) -> bool {
    forall|i: int| 0 <= i < s.len() ==> s[i].id < bound
}

/// The tracks whose id is not in `ids`, in their original order.
pub open spec fn without_ids<T>(s: Seq<Track<T>>, ids: Set<usize>) -> Seq<Track<T>>
    decreases s.len(),
{
    if s.len() == 0 {
        s
    } else {
        let rest = without_ids(s.drop_last(), ids);
        if ids.contains(s.last().id) {
            rest
        } else {
            rest.push(s.last())
        }
    }
}

/// The elements at the positions that `keep` marks, in their original order.
pub open spec fn keep_marked<A>(s: Seq<A>, keep: Seq<bool>) -> Seq<A>
    decreases s.len(),
{
    if s.len() == 0 {
        s
    } else {
        let rest = keep_marked(s.drop_last(), keep);
        if keep[s.len() - 1] {
            rest.push(s.last())
        } else {
            rest
        }
    }
}

/// The tracks with every track whose id is in `ids` set to `paused`.
pub open spec fn with_paused<T>(s: Seq<Track<T>>, ids: Set<usize>, paused: bool) -> Seq<Track<T>> {
    Seq::new(
        s.len(),
        |i: int|
            if ids.contains(s[i].id) {
                Track { id: s[i].id, paused, data: s[i].data }
            } else {
                s[i]
            },
    )
}

/// The ids `first, first + 1, ...`, `n` of them.
pub open spec fn fresh_ids(first: nat, n: nat) -> Seq<usize> {
    Seq::new(n, |k: int| (first + k) as usize)
}

/// Running tracks for `items` under the ids `first, first + 1, ...`.
pub open spec fn started_tracks<T>(first: nat, items: Seq<T>) -> Seq<Track<T>> {
    Seq::new(items.len(), |k: int| Track { id: (first + k) as usize, paused: false, data: items[k] })
}

/// The set of ids listed in `ids`.
pub open spec fn id_set(ids: Seq<usize>) -> Set<usize> {
    Set::new(|x: usize| ids.contains(x))
}

/// Pausing (or resuming) the ids of `a` and then those of `b` affects the
/// ids of both.
pub proof fn lemma_with_paused_twice<T>(s: Seq<Track<T>>, a: Set<usize>, b: Set<usize>, paused: bool)
    ensures
        with_paused(with_paused(s, a, paused), b, paused) == with_paused(s, a.union(b), paused),
{
    assert(with_paused(with_paused(s, a, paused), b, paused) =~= with_paused(s, a.union(b), paused));
}

proof fn lemma_id_set_take_succ(ids: Seq<usize>, i: int)
    requires
        0 <= i < ids.len(),
    ensures
        id_set(ids.take(i + 1)) == id_set(ids.take(i)).union(set![ids[i]]),
        id_set(ids.take(0)) == Set::<usize>::empty(),
        id_set(ids.take(ids.len() as int)) == id_set(ids),
{
    let a = ids.take(i + 1);
    let b = ids.take(i);
    assert forall|x: usize| id_set(a).contains(x) == id_set(b).union(set![ids[i]]).contains(x) by {
        if a.contains(x) {
            let j = choose|j: int| 0 <= j < a.len() && #[trigger] a[j] == x;
            if j < i {
                assert(b[j] == x);
            }
        }
        if b.contains(x) {
            let j = choose|j: int| 0 <= j < b.len() && #[trigger] b[j] == x;
            assert(a[j] == x);
        }
        if x == ids[i] {
            assert(ids.take(i + 1)[i] == x);
        }
    }
    assert(id_set(ids.take(i + 1)) =~= id_set(ids.take(i)).union(set![ids[i]]));
    assert(id_set(ids.take(0)) =~= Set::<usize>::empty());
    assert(ids.take(ids.len() as int) =~= ids);
}

/// Stopping an animation right after starting it gives back the tracks from
/// before the start.
pub proof fn lemma_stop_undoes_start<T>(s: Seq<Track<T>>, t: Track<T>)
    requires
        ids_unique(s),
        !has_id(s, t.id),
    ensures
        without_ids(s.push(t), set![t.id]) == s,
{
    assert(s.push(t).drop_last() =~= s);
    lemma_without_one_id(s, t.id);
}

/// Resuming animations (one id, or a group's ids) right after pausing them
/// gives back the tracks from before the pause, when they were running
/// unpaused.
pub proof fn lemma_resume_undoes_pause<T>(s: Seq<Track<T>>, ids: Set<usize>)
    requires
        forall|i: int| 0 <= i < s.len() && ids.contains(s[i].id) ==> !s[i].paused,
    ensures
        with_paused(with_paused(s, ids, true), ids, false) == s,
{
    assert(with_paused(with_paused(s, ids, true), ids, false) =~= s);
}

/// Removing one track keeps the ids distinct and below the bound.
proof fn lemma_remove_keeps_valid<T>(s: Seq<Track<T>>, k: int, bound: nat)
    requires
        ids_unique(s),
        ids_below(s, bound),
        0 <= k < s.len(),
    ensures
        ids_unique(s.remove(k)),
        ids_below(s.remove(k), bound),
        forall|x: usize| has_id(s.remove(k), x) ==> has_id(s, x),
{
    let r = s.remove(k);
    assert forall|i: int| 0 <= i < r.len() implies r[i] == s[if i < k { i } else { i + 1 }] by {}
    assert forall|x: usize| has_id(r, x) implies has_id(s, x) by {
        let i = choose|i: int| 0 <= i < r.len() && r[i].id == x;
        let j = if i < k { i } else { i + 1 };
        assert(s[j].id == x);
    }
}

/// Dropping the tracks with ids in `ids` keeps exactly the other ids, keeps
/// them distinct, and keeps them below the bound.
pub proof fn lemma_without_ids_members<T>(s: Seq<Track<T>>, ids: Set<usize>, bound: nat)
    requires
        ids_unique(s),
        ids_below(s, bound),
    ensures
        forall|x: usize|
            #![trigger has_id(without_ids(s, ids), x)]
            has_id(without_ids(s, ids), x) == (has_id(s, x) && !ids.contains(x)),
        ids_unique(without_ids(s, ids)),
        ids_below(without_ids(s, ids), bound),
    decreases s.len(),
{
    if s.len() > 0 {
        let t = s.drop_last();
        assert(ids_unique(t));
        lemma_without_ids_members(t, ids, bound);
        let r = without_ids(t, ids);
        let l = s.last();
        assert forall|x: usize| has_id(s, x) == (has_id(t, x) || l.id == x) by {
            if has_id(s, x) {
                let i = choose|i: int| 0 <= i < s.len() && s[i].id == x;
                if i < s.len() - 1 {
                    assert(t[i].id == x);
                }
            }
            if has_id(t, x) {
                let i = choose|i: int| 0 <= i < t.len() && t[i].id == x;
                assert(s[i].id == x);
            }
        }
        if !ids.contains(l.id) {
            let r2 = r.push(l);
            assert(!has_id(t, l.id)) by {
                if has_id(t, l.id) {
                    let i = choose|i: int| 0 <= i < t.len() && t[i].id == l.id;
                    assert(s[i].id == s[s.len() - 1].id);
                }
            }
            assert forall|x: usize| has_id(r2, x) == (has_id(r, x) || l.id == x) by {
                if has_id(r2, x) {
                    let i = choose|i: int| 0 <= i < r2.len() && r2[i].id == x;
                    if i < r.len() {
                        assert(r[i].id == x);
                    }
                }
                if has_id(r, x) {
                    let i = choose|i: int| 0 <= i < r.len() && r[i].id == x;
                    assert(r2[i].id == x);
                }
                if l.id == x {
                    assert(r2[r.len() as int].id == x);
                }
            }
            assert forall|i: int, j: int|
                0 <= i < r2.len() && 0 <= j < r2.len() && i != j implies r2[i].id != r2[j].id by {
                if i == r.len() {
                    assert(has_id(r, r2[j].id));
                } else if j == r.len() {
                    assert(has_id(r, r2[i].id));
                }
            }
            assert(without_ids(s, ids) == r2);
            assert forall|x: usize| has_id(without_ids(s, ids), x) == (has_id(s, x) && !ids.contains(x)) by {
                assert(has_id(r2, x) == (has_id(r, x) || l.id == x));
                assert(has_id(s, x) == (has_id(t, x) || l.id == x));
                assert(has_id(r, x) == (has_id(t, x) && !ids.contains(x)));
            }
        } else {
            assert(without_ids(s, ids) == r);
            assert forall|x: usize| has_id(without_ids(s, ids), x) == (has_id(s, x) && !ids.contains(x)) by {
                assert(has_id(s, x) == (has_id(t, x) || l.id == x));
                assert(has_id(r, x) == (has_id(t, x) && !ids.contains(x)));
            }
        }
    }
}

/// Dropping the ids of `a` and then those of `b` drops the ids of both.
pub proof fn lemma_without_ids_twice<T>(s: Seq<Track<T>>, a: Set<usize>, b: Set<usize>)
    ensures
        without_ids(without_ids(s, a), b) == without_ids(s, a.union(b)),
    decreases s.len(),
{
    if s.len() > 0 {
        lemma_without_ids_twice(s.drop_last(), a, b);
        let r = without_ids(s.drop_last(), a);
        if !a.contains(s.last().id) {
            assert(r.push(s.last()).drop_last() =~= r);
        }
    }
}

/// Dropping no ids changes nothing.
pub proof fn lemma_without_no_ids<T>(s: Seq<Track<T>>)
    ensures
        without_ids(s, Set::empty()) == s,
    decreases s.len(),
{
    if s.len() > 0 {
        lemma_without_no_ids(s.drop_last());
        assert(s.drop_last().push(s.last()) =~= s);
    }
}

/// With distinct ids, dropping one id removes exactly the track carrying it.
proof fn lemma_without_one_id<T>(s: Seq<Track<T>>, id: usize)
    requires
        ids_unique(s),
    ensures
        forall|k: int|
            0 <= k < s.len() && s[k].id == id ==> without_ids(s, set![id]) == s.remove(k),
        !has_id(s, id) ==> without_ids(s, set![id]) == s,
    decreases s.len(),
{
    if s.len() > 0 {
        let t = s.drop_last();
        assert(ids_unique(t));
        lemma_without_one_id(t, id);
        if s.last().id == id {
            assert(!has_id(t, id)) by {
                if has_id(t, id) {
                    let i = choose|i: int| 0 <= i < t.len() && t[i].id == id;
                    assert(s[i].id == s[s.len() - 1].id);
                }
            }
            assert(s.remove(s.len() - 1) =~= t);
        } else {
            assert forall|k: int| 0 <= k < s.len() && s[k].id == id implies without_ids(
                s,
                set![id],
            ) == s.remove(k) by {
                assert(k < s.len() - 1);
                assert(t[k].id == id);
                assert(t.remove(k).push(s.last()) =~= s.remove(k));
            }
            if !has_id(s, id) {
                assert(!has_id(t, id)) by {
                    if has_id(t, id) {
                        let i = choose|i: int| 0 <= i < t.len() && t[i].id == id;
                        assert(s[i].id == id);
                    }
                }
                assert(t.push(s.last()) =~= s);
            }
        }
    }
}

/// Manages running animations: starting them under fresh ids, stopping,
/// pausing and resuming them by id, and pruning the finished ones.
pub struct AnimationSystem<T> {
    tracks: Vec<Track<T>>,
    next_id: usize,
}

impl<T> AnimationSystem<T> {
    #[verifier::type_invariant]
    spec fn well_formed(self) -> bool {
        &&& ids_unique(self.tracks@)
        &&& ids_below(self.tracks@, self.next_id as nat)
    }

    /// The running tracks, oldest first.
    pub closed spec fn tracks_view(&self) -> Seq<Track<T>> {
        self.tracks@
    }

    /// The id the next started animation will get.
    pub closed spec fn next_id_view(&self) -> nat {
        self.next_id as nat
    }

    /// Whether an animation with `id` is running.
    pub open spec fn playing(&self, id: usize) -> bool {
        has_id(self.tracks_view(), id)
    }

    /// The system's tracks carry distinct ids, all below the next id.
    pub open spec fn valid(&self) -> bool {
        &&& ids_unique(self.tracks_view())
        &&& ids_below(self.tracks_view(), self.next_id_view())
    }

    /// An empty system; the first animation gets id 0.
    pub fn new() -> (res: Self)
        ensures
            res.tracks_view() == Seq::<Track<T>>::empty(),
            res.next_id_view() == 0,
            res.valid(),
    {
        AnimationSystem { tracks: Vec::new(), next_id: 0 }
    }

    /// Starts an animation with state `data` under a fresh id, which is
    /// returned.
    pub fn start(&mut self, data: T) -> (id: usize)
        requires
            old(self).next_id_view() < usize::MAX,
        ensures
            id == old(self).next_id_view(),
            !old(self).playing(id),
            final(self).next_id_view() == old(self).next_id_view() + 1,
            final(self).tracks_view() == old(self).tracks_view().push(
                Track { id, paused: false, data },
            ),
            final(self).valid(),
    {
        proof {
            use_type_invariant(&*self);
        }
        let id = self.next_id;
        let mut tracks = Vec::new();
        std::mem::swap(&mut tracks, &mut self.tracks);
        tracks.push(Track { id, paused: false, data });
        self.next_id = self.next_id + 1;
        self.tracks = tracks;
        id
    }

    /// The id the next started animation will get.
    pub fn next_id(&self) -> (res: usize)
        ensures
            res == self.next_id_view(),
    {
        self.next_id
    }

    /// Starts the animations `items`, in order, under consecutive fresh ids,
    /// and returns those ids as a group.
    pub fn start_all(&mut self, items: Vec<T>) -> (group: AnimationGroupID)
        requires
            old(self).next_id_view() + items@.len() <= usize::MAX,
        ensures
            group@ == fresh_ids(old(self).next_id_view(), items@.len()),
            final(self).next_id_view() == old(self).next_id_view() + items@.len(),
            final(self).tracks_view() == old(self).tracks_view() + started_tracks(
                old(self).next_id_view(),
                items@,
            ),
            final(self).valid(),
    {
        proof {
            use_type_invariant(&*self);
        }
        let ghost s0 = self.tracks@;
        let ghost first = self.next_id as nat;
        let ghost all = items@;
        let n = items.len();
        let mut items = items;
        let mut ids: Vec<usize> = Vec::new();
        let mut i: usize = 0;
        assert(all.skip(0) =~= all);
        assert(s0 + started_tracks(first, all.take(0)) =~= s0);
        assert(ids@ =~= fresh_ids(first, 0));
        while i < n
            invariant
                n == all.len(),
                i <= n,
                first + n <= usize::MAX,
                items@ == all.skip(i as int),
                self.next_id_view() == first + i,
                self.tracks_view() == s0 + started_tracks(first, all.take(i as int)),
                ids@ == fresh_ids(first, i as nat),
                self.valid(),
            decreases n - i,
        {
            let item = items.remove(0);
            assert(item == all[i as int]);
            assert(all.skip(i as int).remove(0) =~= all.skip(i + 1));
            let id = self.start(item);
            ids.push(id);
            assert(ids@ =~= fresh_ids(first, (i + 1) as nat));
            assert(s0 + started_tracks(first, all.take(i + 1)) =~= (s0 + started_tracks(
                first,
                all.take(i as int),
            )).push(Track { id, paused: false, data: item }));
            i = i + 1;
        }
        assert(all.take(n as int) =~= all);
        AnimationGroupID::new(ids)
    }

    /// Replaces the animation state of the animation with `id`, if it is
    /// running; its id, paused flag and position stay.  Returns whether it
    /// was found.
    pub fn replace(&mut self, id: usize, data: T) -> (found: bool)
        ensures
            found == old(self).playing(id),
            found ==> exists|k: int|
                0 <= k < old(self).tracks_view().len() && old(self).tracks_view()[k].id == id
                    && final(self).tracks_view() == old(self).tracks_view().update(
                    k,
                    Track { id, paused: old(self).tracks_view()[k].paused, data },
                ),
            !found ==> final(self).tracks_view() == old(self).tracks_view(),
            final(self).next_id_view() == old(self).next_id_view(),
            final(self).valid(),
    {
        proof {
            use_type_invariant(&*self);
        }
        match self.index_of(id) {
            Some(k) => {
                self.set_data(k, data);
                true
            },
            None => false,
        }
    }

    /// Number of running animations.
    pub fn count(&self) -> (res: usize)
        ensures
            res == self.tracks_view().len(),
    {
        self.tracks.len()
    }

    /// Whether any animation is running.
    pub fn is_playing(&self) -> (res: bool)
        ensures
            res == (self.tracks_view().len() > 0),
    {
        self.tracks.len() > 0
    }

    /// The position of the track carrying `id`, if an animation with that id
    /// is running.
    pub fn index_of(&self, id: usize) -> (res: Option<usize>)
        ensures
            res.is_some() == self.playing(id),
            res matches Some(i) ==> i < self.tracks_view().len() && self.tracks_view()[i as int].id
                == id,
    {
        let mut i: usize = 0;
        while i < self.tracks.len()
            invariant
                i <= self.tracks@.len(),
                forall|j: int| 0 <= j < i ==> self.tracks@[j].id != id,
            decreases self.tracks@.len() - i,
        {
            if self.tracks[i].id == id {
                return Some(i);
            }
            i = i + 1;
        }
        None
    }

    /// Whether an animation with `id` is running.
    pub fn is_playing_id(&self, id: usize) -> (res: bool)
        ensures
            res == self.playing(id),
    {
        self.index_of(id).is_some()
    }

    /// The running tracks, oldest first.
    pub fn tracks(&self) -> (res: &[Track<T>])
        ensures
            res@ == self.tracks_view(),
    {
        self.tracks.as_slice()
    }

    /// Stops the animation with `id`, if it is running; the other tracks keep
    /// their order and state.
    pub fn stop(&mut self, id: usize)
        ensures
            final(self).tracks_view() == without_ids(old(self).tracks_view(), set![id]),
            final(self).next_id_view() == old(self).next_id_view(),
            final(self).valid(),
    {
        proof {
            use_type_invariant(&*self);
            lemma_without_one_id(self.tracks@, id);
        }
        match self.index_of(id) {
            Some(k) => {
                let mut tracks = Vec::new();
                std::mem::swap(&mut tracks, &mut self.tracks);
                proof {
                    lemma_remove_keeps_valid(tracks@, k as int, self.next_id as nat);
                }
                tracks.remove(k);
                self.tracks = tracks;
            },
            None => {},
        }
    }

    /// Marks the animation with `id` paused or running; returns whether it
    /// was found.
    fn set_paused_by_id(&mut self, id: usize, paused: bool) -> (found: bool)
        ensures
            found == old(self).playing(id),
            final(self).tracks_view() == with_paused(old(self).tracks_view(), set![id], paused),
            final(self).next_id_view() == old(self).next_id_view(),
    {
        proof {
            use_type_invariant(&*self);
        }
        match self.index_of(id) {
            Some(k) => {
                let ghost s = self.tracks@;
                let mut tracks = Vec::new();
                std::mem::swap(&mut tracks, &mut self.tracks);
                tracks[k].paused = paused;
                assert(tracks@ =~= with_paused(s, set![id], paused));
                self.tracks = tracks;
                true
            },
            None => {
                assert(self.tracks@ =~= with_paused(self.tracks@, set![id], paused));
                false
            },
        }
    }

    /// Pauses the animation with `id`; returns whether it is running.
    pub fn pause(&mut self, id: usize) -> (found: bool)
        ensures
            found == old(self).playing(id),
            final(self).tracks_view() == with_paused(old(self).tracks_view(), set![id], true),
            final(self).next_id_view() == old(self).next_id_view(),
            final(self).valid(),
    {
        let found = self.set_paused_by_id(id, true);
        proof {
            use_type_invariant(&*self);
        }
        found
    }

    /// Resumes the animation with `id`; returns whether it is running.
    pub fn resume(&mut self, id: usize) -> (found: bool)
        ensures
            found == old(self).playing(id),
            final(self).tracks_view() == with_paused(old(self).tracks_view(), set![id], false),
            final(self).next_id_view() == old(self).next_id_view(),
            final(self).valid(),
    {
        let found = self.set_paused_by_id(id, false);
        proof {
            use_type_invariant(&*self);
        }
        found
    }

    /// Pauses every running animation.
    pub fn stop_all(&mut self)
        ensures
            final(self).tracks_view() == with_paused(old(self).tracks_view(), Set::full(), true),
            final(self).next_id_view() == old(self).next_id_view(),
            final(self).valid(),
    {
        proof {
            use_type_invariant(&*self);
        }
        let ghost s = self.tracks@;
        let mut tracks = Vec::new();
        std::mem::swap(&mut tracks, &mut self.tracks);
        let mut i: usize = 0;
        while i < tracks.len()
            invariant
                tracks@.len() == s.len(),
                i <= s.len(),
                forall|j: int|
                    0 <= j < s.len() ==> (#[trigger] tracks@[j]) == (if j < i {
                        Track { id: s[j].id, paused: true, data: s[j].data }
                    } else {
                        s[j]
                    }),
            decreases s.len() - i,
        {
            tracks[i].paused = true;
            i = i + 1;
        }
        assert(tracks@ =~= with_paused(s, Set::full(), true));
        self.tracks = tracks;
        proof {
            use_type_invariant(&*self);
        }
    }

    /// Keeps the tracks at the positions that `keep` marks and stops the
    /// others; the kept tracks keep their order and state.
    pub fn retain_where(&mut self, keep: &Vec<bool>)
        requires
            keep@.len() == old(self).tracks_view().len(),
        ensures
            final(self).tracks_view() == keep_marked(old(self).tracks_view(), keep@),
            final(self).next_id_view() == old(self).next_id_view(),
            final(self).valid(),
    {
        proof {
            use_type_invariant(&*self);
        }
        let ghost s = self.tracks@;
        let ghost bound = self.next_id as nat;
        let mut tracks = Vec::new();
        std::mem::swap(&mut tracks, &mut self.tracks);
        let n = tracks.len();
        let mut i: usize = 0;
        let mut j: usize = 0;
        assert(s.take(0) =~= Seq::<Track<T>>::empty());
        assert(s.skip(0) =~= s);
        while i < n
            invariant
                n == s.len(),
                keep@.len() == n,
                i <= n,
                j == keep_marked(s.take(i as int), keep@).len(),
                j <= i,
                tracks@ == keep_marked(s.take(i as int), keep@) + s.skip(i as int),
                ids_unique(tracks@),
                ids_below(tracks@, bound),
            decreases n - i,
        {
            let ghost kept = keep_marked(s.take(i as int), keep@);
            assert(s.take(i + 1).drop_last() =~= s.take(i as int));
            assert(s.take(i + 1).last() == s[i as int]);
            if keep[i] {
                assert(kept.push(s[i as int]) + s.skip(i + 1) =~= kept + s.skip(i as int));
                j = j + 1;
            } else {
                proof {
                    lemma_remove_keeps_valid(tracks@, j as int, bound);
                }
                assert((kept + s.skip(i as int)).remove(j as int) =~= kept + s.skip(i + 1));
                tracks.remove(j);
            }
            i = i + 1;
        }
        assert(s.take(n as int) =~= s);
        assert(tracks@ =~= keep_marked(s, keep@));
        self.tracks = tracks;
        proof {
            use_type_invariant(&*self);
        }
    }

    /// The track at `index`.
    pub fn track(&self, index: usize) -> (res: &Track<T>)
        requires
            index < self.tracks_view().len(),
        ensures
            *res == self.tracks_view()[index as int],
    {
        &self.tracks[index]
    }

    /// Replaces the animation state of the track at `index`; its id and
    /// paused flag stay.
    pub fn set_data(&mut self, index: usize, data: T)
        requires
            index < old(self).tracks_view().len(),
        ensures
            final(self).tracks_view() == old(self).tracks_view().update(
                index as int,
                Track {
                    id: old(self).tracks_view()[index as int].id,
                    paused: old(self).tracks_view()[index as int].paused,
                    data,
                },
            ),
            final(self).next_id_view() == old(self).next_id_view(),
            final(self).valid(),
    {
        proof {
            use_type_invariant(&*self);
        }
        let ghost s = self.tracks@;
        let mut tracks = Vec::new();
        std::mem::swap(&mut tracks, &mut self.tracks);
        tracks[index].data = data;
        assert(ids_unique(tracks@)) by {
            assert forall|i: int| 0 <= i < tracks@.len() implies tracks@[i].id == s[i].id by {}
        }
        assert(ids_below(tracks@, self.next_id as nat)) by {
            assert forall|i: int| 0 <= i < tracks@.len() implies tracks@[i].id == s[i].id by {}
        }
        self.tracks = tracks;
        proof {
            use_type_invariant(&*self);
        }
    }

    /// Whether every animation of the group is running.
    pub open spec fn all_playing(&self, ids: Seq<usize>) -> bool {
        forall|i: int| 0 <= i < ids.len() ==> self.playing(#[trigger] ids[i])
    }

    /// Whether some animation of the group is running.
    pub open spec fn any_playing(&self, ids: Seq<usize>) -> bool {
        exists|i: int| 0 <= i < ids.len() && self.playing(#[trigger] ids[i])
    }

    /// Stops every animation of `group`; the other tracks keep their order and
    /// state.
    pub fn stop_by_group(&mut self, group: &AnimationGroupID)
        ensures
            final(self).tracks_view() == without_ids(old(self).tracks_view(), id_set(group@)),
            final(self).next_id_view() == old(self).next_id_view(),
            final(self).valid(),
    {
        proof {
            use_type_invariant(&*self);
            lemma_without_no_ids(self.tracks@);
        }
        let ghost s = self.tracks@;
        let ids = group.iter();
        let mut i: usize = 0;
        if ids.len() > 0 {
            proof { lemma_id_set_take_succ(ids@, 0); }
        } else {
            assert(ids@.take(0) =~= ids@);
        }
        assert(id_set(ids@.take(0)) =~= Set::<usize>::empty());
        while i < ids.len()
            invariant
                ids@ == group@,
                i <= ids@.len(),
                self.tracks_view() == without_ids(s, id_set(ids@.take(i as int))),
                self.next_id_view() == old(self).next_id_view(),
                self.valid(),
            decreases ids@.len() - i,
        {
            proof {
                lemma_id_set_take_succ(ids@, i as int);
                lemma_without_ids_twice(s, id_set(ids@.take(i as int)), set![ids@[i as int]]);
            }
            self.stop(ids[i]);
            i = i + 1;
        }
        assert(ids@.take(ids@.len() as int) =~= ids@);
    }

    /// Stops the animation at position `index` of `group` and removes that
    /// position from the group.
    pub fn remove_from_group(&mut self, group: &mut AnimationGroupID, index: usize)
        requires
            index < old(group)@.len(),
        ensures
            final(group)@ == old(group)@.remove(index as int),
            final(self).tracks_view() == without_ids(
                old(self).tracks_view(),
                set![old(group)@[index as int]],
            ),
            final(self).next_id_view() == old(self).next_id_view(),
            final(self).valid(),
    {
        match group.get_id(index) {
            Some(id) => {
                let id = *id;
                self.stop(id);
            },
            None => {},
        }
        group.remove(index);
    }

    /// Whether every animation of `group` is still running.
    pub fn is_group_playing_all(&self, group: &AnimationGroupID) -> (res: bool)
        ensures
            res == self.all_playing(group@),
    {
        let ids = group.iter();
        let mut i: usize = 0;
        while i < ids.len()
            invariant
                ids@ == group@,
                i <= ids@.len(),
                forall|j: int| 0 <= j < i ==> self.playing(#[trigger] ids@[j]),
            decreases ids@.len() - i,
        {
            if !self.is_playing_id(ids[i]) {
                return false;
            }
            i = i + 1;
        }
        true
    }

    /// Whether some animation of `group` is still running.
    pub fn is_group_playing_any(&self, group: &AnimationGroupID) -> (res: bool)
        ensures
            res == self.any_playing(group@),
    {
        let ids = group.iter();
        let mut i: usize = 0;
        while i < ids.len()
            invariant
                ids@ == group@,
                i <= ids@.len(),
                forall|j: int| 0 <= j < i ==> !self.playing(#[trigger] ids@[j]),
            decreases ids@.len() - i,
        {
            if self.is_playing_id(ids[i]) {
                return true;
            }
            i = i + 1;
        }
        false
    }

    /// Whether every animation of `group` has stopped.
    pub fn is_group_finished_all(&self, group: &AnimationGroupID) -> (res: bool)
        ensures
            res == (forall|i: int| 0 <= i < group@.len() ==> !self.playing(#[trigger] group@[i])),
    {
        !self.is_group_playing_any(group)
    }

    /// Whether some animation of `group` has stopped.
    pub fn is_group_finished_any(&self, group: &AnimationGroupID) -> (res: bool)
        ensures
            res == (exists|i: int| 0 <= i < group@.len() && !self.playing(#[trigger] group@[i])),
    {
        !self.is_group_playing_all(group)
    }

    fn set_group_paused(&mut self, group: &AnimationGroupID, paused: bool)
        ensures
            final(self).tracks_view() == with_paused(old(self).tracks_view(), id_set(group@), paused),
            final(self).next_id_view() == old(self).next_id_view(),
            final(self).valid(),
    {
        proof {
            use_type_invariant(&*self);
        }
        let ghost s = self.tracks@;
        let ids = group.iter();
        let mut i: usize = 0;
        if ids.len() > 0 {
            proof { lemma_id_set_take_succ(ids@, 0); }
        } else {
            assert(ids@.take(0) =~= ids@);
        }
        assert(with_paused(s, Set::<usize>::empty(), paused) =~= s);
        assert(id_set(ids@.take(0)) =~= Set::<usize>::empty());
        while i < ids.len()
            invariant
                ids@ == group@,
                i <= ids@.len(),
                self.tracks_view() == with_paused(s, id_set(ids@.take(i as int)), paused),
                self.next_id_view() == old(self).next_id_view(),
                self.valid(),
            decreases ids@.len() - i,
        {
            proof {
                lemma_id_set_take_succ(ids@, i as int);
                lemma_with_paused_twice(s, id_set(ids@.take(i as int)), set![ids@[i as int]], paused);
            }
            self.set_paused_by_id(ids[i], paused);
            proof {
                use_type_invariant(&*self);
            }
            i = i + 1;
        }
        assert(ids@.take(ids@.len() as int) =~= ids@);
    }

    /// Pauses every animation of `group`.
    pub fn pause_group(&mut self, group: &AnimationGroupID)
        ensures
            final(self).tracks_view() == with_paused(old(self).tracks_view(), id_set(group@), true),
            final(self).next_id_view() == old(self).next_id_view(),
            final(self).valid(),
    {
        self.set_group_paused(group, true);
    }

    /// Resumes every animation of `group`.
    pub fn resume_group(&mut self, group: &AnimationGroupID)
        ensures
            final(self).tracks_view() == with_paused(old(self).tracks_view(), id_set(group@), false),
            final(self).next_id_view() == old(self).next_id_view(),
            final(self).valid(),
    {
        self.set_group_paused(group, false);
    }

    /// Stops every animation.
    pub fn clear(&mut self)
        ensures
            final(self).tracks_view() == Seq::<Track<T>>::empty(),
            final(self).next_id_view() == old(self).next_id_view(),
            final(self).valid(),
    {
        proof {
            use_type_invariant(&*self);
        }
        self.tracks = Vec::new();
    }
}

impl<T> Default for AnimationSystem<T> {
    fn default() -> (res: Self)
        ensures
            res.tracks_view() == Seq::<Track<T>>::empty(),
            res.next_id_view() == 0,
            res.valid(),
    {
        Self::new()
    }
}

} // verus!
