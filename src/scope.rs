//! Scope frames: a stack of frames, innermost last, over any value type.
//!
//! Frame `i` is the parent of frame `i + 1`; the frame at index 0 is the root.
//! Each frame maps names to values, with at most one binding per name.
use vstd::prelude::*;

verus! {

/// Values that can be copied with a proof that the copy has the same view.
pub trait Duplicate: View + Sized {
    fn duplicate(&self) -> (r: Self)
        ensures
            r@ == self@,
    ;
}

/// The bindings of one frame, as a map.
pub open spec fn frame_view<V: View>(entries: Seq<(String, V)>) -> Map<Seq<char>, V::V>
    decreases entries.len(),
{
    if entries.len() == 0 {
        Map::empty()
    } else {
        frame_view(entries.drop_last()).insert(entries.last().0@, entries.last().1@)
    }
}

/// No name is bound twice in one frame.
pub open spec fn unique_names<V>(entries: Seq<(String, V)>) -> bool {
    forall|i: int, j: int|
        0 <= i < j < entries.len() ==> entries[i].0@ != entries[j].0@
}

/// The index of the innermost frame that binds `name`.
pub open spec fn innermost<D>(frames: Seq<Map<Seq<char>, D>>, name: Seq<char>) -> Option<int>
    decreases frames.len(),
{
    if frames.len() == 0 {
        None
    } else if frames.last().contains_key(name) {
        Some(frames.len() - 1)
    } else {
        innermost(frames.drop_last(), name)
    }
}

/// What `name` reads as, walking from the innermost frame outward.
pub open spec fn lookup<D>(frames: Seq<Map<Seq<char>, D>>, name: Seq<char>) -> Option<D> {
    match innermost(frames, name) {
        Some(i) => Some(frames[i][name]),
        None => None,
    }
}

/// The frames after assigning `v` to `name`: the innermost frame that binds it
/// is overwritten; `None` where no frame binds it.
pub open spec fn assigned<D>(frames: Seq<Map<Seq<char>, D>>, name: Seq<char>, v: D) -> Option<
    Seq<Map<Seq<char>, D>>,
> {
    match innermost(frames, name) {
        Some(i) => Some(frames.update(i, frames[i].insert(name, v))),
        None => None,
    }
}

/// The frames after declaring `name` as `v` in the innermost frame.
pub open spec fn defined<D>(frames: Seq<Map<Seq<char>, D>>, name: Seq<char>, v: D) -> Seq<
    Map<Seq<char>, D>,
> {
    frames.update(frames.len() - 1, frames.last().insert(name, v))
}

proof fn lemma_frame_view_keys<V: View>(entries: Seq<(String, V)>, name: Seq<char>)
    ensures
        frame_view(entries).contains_key(name) <==> exists|k: int|
            0 <= k < entries.len() && #[trigger] entries[k].0@ == name,
    decreases entries.len(),
{
    if entries.len() > 0 {
        let rest = entries.drop_last();
        lemma_frame_view_keys(rest, name);
        if frame_view(rest).contains_key(name) {
            let k = choose|k: int| 0 <= k < rest.len() && #[trigger] rest[k].0@ == name;
            assert(entries[k].0@ == name);
        }
        if exists|k: int| 0 <= k < entries.len() && #[trigger] entries[k].0@ == name {
            let k = choose|k: int| 0 <= k < entries.len() && #[trigger] entries[k].0@ == name;
            if k < entries.len() - 1 {
                assert(rest[k].0@ == name);
            }
        }
    }
}

proof fn lemma_frame_view_at<V: View>(entries: Seq<(String, V)>, k: int)
    requires
        unique_names(entries),
        0 <= k < entries.len(),
    ensures
        frame_view(entries).contains_key(entries[k].0@),
        frame_view(entries)[entries[k].0@] == entries[k].1@,
    decreases entries.len(),
{
    if k < entries.len() - 1 {
        let rest = entries.drop_last();
        assert(rest[k] == entries[k]);
        lemma_frame_view_at(rest, k);
    }
}

proof fn lemma_frame_view_update<V: View>(
    entries: Seq<(String, V)>,
    k: int,
    e: (String, V),
)
    requires
        unique_names(entries),
        0 <= k < entries.len(),
        e.0@ == entries[k].0@,
    ensures
        frame_view(entries.update(k, e)) == frame_view(entries).insert(e.0@, e.1@),
        unique_names(entries.update(k, e)),
    decreases entries.len(),
{
    let upd = entries.update(k, e);
    if k == entries.len() - 1 {
        assert(upd.drop_last() =~= entries.drop_last());
        lemma_frame_view_keys(entries.drop_last(), e.0@);
        lemma_frame_view_at(entries, k);
        assert(frame_view(upd) =~= frame_view(entries).insert(e.0@, e.1@));
    } else {
        let rest = entries.drop_last();
        assert(upd.drop_last() =~= rest.update(k, e));
        lemma_frame_view_update(rest, k, e);
        assert(entries.last().0@ != e.0@);
        assert(frame_view(upd) =~= frame_view(entries).insert(e.0@, e.1@));
    }
}

proof fn lemma_innermost_prefix<D>(frames: Seq<Map<Seq<char>, D>>, name: Seq<char>, n: int)
    requires
        0 <= n <= frames.len(),
        forall|k: int| n <= k < frames.len() ==> !(#[trigger] frames[k]).contains_key(name),
    ensures
        innermost(frames, name) == innermost(frames.take(n), name),
    decreases frames.len() - n,
{
    if n < frames.len() {
        assert(frames.take(frames.len() as int) =~= frames);
        let shorter = frames.drop_last();
        lemma_innermost_prefix(shorter, name, n);
        assert(shorter.take(n) =~= frames.take(n));
    } else {
        assert(frames.take(n) =~= frames);
    }
}

/// The innermost frame that binds `name` binds it, and no frame after it does;
/// where there is none, no frame binds it.
pub proof fn lemma_innermost_bounds<D>(frames: Seq<Map<Seq<char>, D>>, name: Seq<char>)
    ensures
        match innermost(frames, name) {
            Some(i) => 0 <= i < frames.len() && frames[i].contains_key(name) && forall|k: int|
                i < k < frames.len() ==> !(#[trigger] frames[k]).contains_key(name),
            None => forall|k: int| 0 <= k < frames.len() ==> !(#[trigger] frames[k]).contains_key(name),
        },
    decreases frames.len(),
{
    if frames.len() > 0 {
        let shorter = frames.drop_last();
        lemma_innermost_bounds(shorter, name);
        if !frames.last().contains_key(name) {
            assert forall|k: int| 0 <= k < shorter.len() implies shorter[k] == frames[k] by {}
        }
    }
}

/// The innermost frame that binds `name` is the last one that does.
pub proof fn lemma_innermost_unique<D>(frames: Seq<Map<Seq<char>, D>>, name: Seq<char>, i: int)
    requires
        0 <= i < frames.len(),
        frames[i].contains_key(name),
        forall|k: int| i < k < frames.len() ==> !(#[trigger] frames[k]).contains_key(name),
    ensures
        innermost(frames, name) == Some(i),
    decreases frames.len(),
{
    if i < frames.len() - 1 {
        let shorter = frames.drop_last();
        assert forall|k: int| i < k < shorter.len() implies !(#[trigger] shorter[k]).contains_key(name) by {
            assert(shorter[k] == frames[k]);
        }
        lemma_innermost_unique(shorter, name, i);
    }
}

/// A chain of scope frames: the innermost is where declarations go.
pub struct Scopes<V> {
    frames: Vec<Vec<(String, V)>>,
}

impl<V: View> View for Scopes<V> {
    type V = Seq<Map<Seq<char>, V::V>>;

    /// The frames from the root (index 0) to the innermost (last).
    closed spec fn view(&self) -> Seq<Map<Seq<char>, V::V>> {
        self.frames@.map_values(|f: Vec<(String, V)>| frame_view(f@))
    }
}

impl<V: Duplicate> Scopes<V> {
    /// There is at least one frame, and no frame binds a name twice.
    pub closed spec fn wf(&self) -> bool {
        &&& self.frames@.len() >= 1
        &&& forall|i: int| 0 <= i < self.frames@.len() ==> unique_names(#[trigger] self.frames@[i]@)
    }

    /// Index of `name` in `entries`, if it is bound there.
    fn position(entries: &Vec<(String, V)>, name: &String) -> (r: Option<usize>)
        ensures
            match r {
                Some(k) => k < entries@.len() && entries@[k as int].0@ == name@,
                None => forall|k: int| 0 <= k < entries@.len() ==> #[trigger] entries@[k].0@ != name@,
            },
    {
        let mut k: usize = 0;
        while k < entries.len()
            invariant
                k <= entries@.len(),
                forall|m: int| 0 <= m < k ==> #[trigger] entries@[m].0@ != name@,
            decreases entries@.len() - k,
        {
            if entries[k].0 == *name {
                return Some(k);
            }
            k = k + 1;
        }
        None
    }

    /// Binds `name` to `value` in `entries`, replacing an earlier binding of it.
    fn put(entries: &mut Vec<(String, V)>, name: String, value: V)
        requires
            unique_names(old(entries)@),
        ensures
            unique_names(final(entries)@),
            frame_view(final(entries)@) == frame_view(old(entries)@).insert(name@, value@),
    {
        let ghost before = entries@;
        match Self::position(entries, &name) {
            Some(k) => {
                proof {
                    lemma_frame_view_update(before, k as int, (name, value));
                }
                entries.set(k, (name, value));
            },
            None => {
                let ghost e = (name, value);
                entries.push((name, value));
                assert(entries@.drop_last() =~= before);
                assert(entries@ == before.push(e));
            },
        }
    }

    /// Frames whose innermost holds the bindings of `env` (a later binding of
    /// a name replaces an earlier one) and whose outer ones are those of
    /// `parent`; with no parent the new frame is the root.
    pub fn new(env: Option<Vec<(String, V)>>, parent: Option<Scopes<V>>) -> (r: Scopes<V>)
        requires
            match parent {
                Some(p) => p.wf(),
                None => true,
            },
        ensures
            r.wf(),
            r@ == match parent {
                Some(p) => p@,
                None => Seq::<Map<Seq<char>, V::V>>::empty(),
            }.push(
                match env {
                    Some(e) => frame_view(e@),
                    None => Map::empty(),
                },
            ),
    {
        let mut frame: Vec<(String, V)> = Vec::new();
        match &env {
            Some(entries) => {
                let mut i: usize = 0;
                while i < entries.len()
                    invariant
                        i <= entries@.len(),
                        unique_names(frame@),
                        frame_view(frame@) == frame_view(entries@.take(i as int)),
                    decreases entries@.len() - i,
                {
                    assert(entries@.take(i + 1).drop_last() =~= entries@.take(i as int));
                    Self::put(&mut frame, entries[i].0.clone(), entries[i].1.duplicate());
                    i = i + 1;
                }
                assert(entries@.take(i as int) =~= entries@);
            },
            None => {},
        }
        let ghost fv = frame_view(frame@);
        let mut frames = match parent {
            Some(p) => p.frames,
            None => Vec::new(),
        };
        let ghost outer = frames@;
        frames.push(frame);
        let r = Scopes { frames };
        assert(r@ =~= outer.map_values(|f: Vec<(String, V)>| frame_view(f@)).push(fv));
        r
    }

    /// A well-formed chain has at least one frame.
    pub proof fn lemma_wf_nonempty(&self)
        requires
            self.wf(),
        ensures
            self@.len() >= 1,
    {}

    /// The number of frames in the chain.
    pub fn depth(&self) -> (r: usize)
        ensures
            r == self@.len(),
    {
        self.frames.len()
    }

    /// Enters a new, empty innermost frame.
    pub fn push_scope(&mut self)
        requires
            old(self).wf(),
        ensures
            final(self).wf(),
            final(self)@ == old(self)@.push(Map::empty()),
            final(self)@.len() >= 2,
    {
        let ghost before = self.frames@;
        self.frames.push(Vec::new());
        assert(frame_view(Seq::<(String, V)>::empty()) == Map::<Seq<char>, V::V>::empty());
        assert(self@ =~= old(self)@.push(Map::empty()));
    }

    /// Leaves the innermost frame, dropping its bindings.
    pub fn pop_scope(&mut self)
        requires
            old(self).wf(),
            old(self)@.len() >= 2,
        ensures
            final(self).wf(),
            final(self)@ == old(self)@.drop_last(),
    {
        self.frames.pop();
        assert(self@ =~= old(self)@.drop_last());
    }

    /// Replaces frame `i` by its bindings plus `name` bound to `value`.
    fn put_in_frame(&mut self, i: usize, name: String, value: V)
        requires
            old(self).wf(),
            i < old(self)@.len(),
        ensures
            final(self).wf(),
            final(self)@ == old(self)@.update(i as int, old(self)@[i as int].insert(name@, value@)),
    {
        let mut frame = self.frames.remove(i);
        Self::put(&mut frame, name, value);
        self.frames.insert(i, frame);
        assert(self@ =~= old(self)@.update(i as int, old(self)@[i as int].insert(name@, value@)));
    }

    /// Index of the innermost frame that binds `name`.
    fn find_frame(&self, name: &String) -> (r: Option<(usize, usize)>)
        requires
            self.wf(),
        ensures
            match r {
                Some((i, k)) => innermost(self@, name@) == Some(i as int) && i < self@.len() && i < self.frames@.len() && k < self.frames@[i as int]@.len()
                    && self.frames@[i as int]@[k as int].0@ == name@ && self@[i as int][name@]
                    == self.frames@[i as int]@[k as int].1@,
                None => innermost(self@, name@) == None::<int>,
            },
    {
        let mut i: usize = self.frames.len();
        while i > 0
            invariant
                self.wf(),
                i <= self@.len(),
                forall|k: int| i <= k < self@.len() ==> !(#[trigger] self@[k]).contains_key(name@),
            decreases i,
        {
            let ghost fi = self.frames@[i - 1]@;
            match Self::position(&self.frames[i - 1], name) {
                Some(k) => {
                    proof {
                        lemma_frame_view_at(fi, k as int);
                        lemma_innermost_prefix(self@, name@, i as int);
                        assert(self@.take(i as int).last() == self@[i - 1]);
                    }
                    return Some((i - 1, k));
                },
                None => {
                    proof {
                        lemma_frame_view_keys(fi, name@);
                    }
                    i = i - 1;
                },
            }
        }
        proof {
            lemma_innermost_prefix(self@, name@, 0);
        }
        None
    }

    /// Declares `name` as `value` in the innermost frame, replacing any binding
    /// of it there; outer frames are untouched. Returns the value.
    pub fn define(&mut self, name: String, value: V) -> (r: V)
        requires
            old(self).wf(),
        ensures
            final(self).wf(),
            r@ == value@,
            final(self)@ == defined(old(self)@, name@, value@),
            final(self)@.len() == old(self)@.len(),
    {
        let r = value.duplicate();
        let last = self.frames.len() - 1;
        self.put_in_frame(last, name, value);
        r
    }

    /// Overwrites the innermost binding of `name` with `value` and returns the
    /// value; where no frame binds `name`, changes nothing and returns `None`.
    pub fn assign(&mut self, name: String, value: V) -> (r: Option<V>)
        requires
            old(self).wf(),
        ensures
            final(self).wf(),
            final(self)@.len() == old(self)@.len(),
            match r {
                Some(v) => v@ == value@ && assigned(old(self)@, name@, value@) == Some(final(self)@),
                None => assigned(old(self)@, name@, value@) == None::<Seq<Map<Seq<char>, V::V>>>
                    && final(self)@ == old(self)@,
            },
    {
        match self.find_frame(&name) {
            Some((i, _k)) => {
                let r = value.duplicate();
                self.put_in_frame(i, name, value);
                Some(r)
            },
            None => None,
        }
    }

    /// What `name` reads as: its binding in the innermost frame that has one.
    pub fn get(&self, name: &String) -> (r: Option<V>)
        requires
            self.wf(),
        ensures
            match r {
                Some(v) => lookup(self@, name@) == Some(v@),
                None => lookup(self@, name@) == None::<V::V>,
            },
    {
        match self.find_frame(name) {
            Some((i, k)) => Some(self.frames[i][k].1.duplicate()),
            None => None,
        }
    }
}

} // verus!
