//! An environment whose frames hold expression nodes, groups included.
use vstd::prelude::*;
use crate::scope::{assigned, defined, frame_view, lookup, Duplicate, Scopes};
use crate::value::{copy_node, EvalType, Node};

verus! {

impl Duplicate for EvalType {
    fn duplicate(&self) -> (r: EvalType) {
        copy_node(self)
    }
}

/// A chain of scope frames holding expression nodes; the innermost frame is
/// where declarations go, and frame `i` is the parent of frame `i + 1`.
pub struct EnvironmentManager {
    scopes: Scopes<EvalType>,
}

impl View for EnvironmentManager {
    type V = Seq<Map<Seq<char>, Node>>;

    /// The frames from the root (index 0) to the innermost (last).
    closed spec fn view(&self) -> Seq<Map<Seq<char>, Node>> {
        self.scopes@
    }
}

impl EnvironmentManager {
    /// There is at least one frame, and no frame binds a name twice.
    pub closed spec fn wf(&self) -> bool {
        self.scopes.wf()
    }

    /// A manager whose innermost frame holds the bindings of `env` (a later
    /// binding of a name replaces an earlier one) and whose outer frames are
    /// those of `parent`; with no parent the new frame is the root.
    pub fn new(env: Option<Vec<(String, EvalType)>>, parent: Option<EnvironmentManager>) -> (r:
        EnvironmentManager)
        requires
            match parent {
                Some(p) => p.wf(),
                None => true,
            },
        ensures
            r.wf(),
            r@ == match parent {
                Some(p) => p@,
                None => Seq::<Map<Seq<char>, Node>>::empty(),
            }.push(
                match env {
                    Some(e) => frame_view(e@),
                    None => Map::empty(),
                },
            ),
    {
        let parent = match parent {
            Some(p) => Some(p.scopes),
            None => None,
        };
        EnvironmentManager { scopes: Scopes::new(env, parent) }
    }

    /// A well-formed chain has at least one frame.
    pub proof fn lemma_wf_nonempty(&self)
        requires
            self.wf(),
        ensures
            self@.len() >= 1,
    {
        self.scopes.lemma_wf_nonempty();
    }

    /// The number of frames in the chain.
    pub fn depth(&self) -> (r: usize)
        ensures
            r == self@.len(),
    {
        self.scopes.depth()
    }

    /// Enters a new, empty innermost frame.
    pub fn push_scope(&mut self)
        requires
            old(self).wf(),
        ensures
            final(self).wf(),
            final(self)@ == old(self)@.push(Map::empty()),
            final(self)@.len() >= 2,
    {
        self.scopes.push_scope();
    }

    /// Leaves the innermost frame, dropping its bindings.
    pub fn pop_scope(&mut self)
        requires
            old(self).wf(),
            old(self)@.len() >= 2,
        ensures
            final(self).wf(),
            final(self)@ == old(self)@.drop_last(),
    {
        self.scopes.pop_scope();
    }

    /// Declares `name` as `value` in the innermost frame, replacing any binding
    /// of it there; outer frames are untouched. Returns the value.
    pub fn define(&mut self, name: String, value: EvalType) -> (r: EvalType)
        requires
            old(self).wf(),
        ensures
            final(self).wf(),
            r@ == value@,
            final(self)@ == defined(old(self)@, name@, value@),
            final(self)@.len() == old(self)@.len(),
    {
        let r = copy_node(&value);
        self.scopes.define(name, value);
        r
    }

    /// Overwrites the innermost binding of `name` with `value` and returns the
    /// value; where no frame binds `name`, changes nothing and returns `None`.
    pub fn assign(&mut self, name: String, value: EvalType) -> (r: Option<EvalType>)
        requires
            old(self).wf(),
        ensures
            final(self).wf(),
            final(self)@.len() == old(self)@.len(),
            match r {
                Some(v) => v@ == value@ && assigned(old(self)@, name@, value@) == Some(final(self)@),
                None => assigned(old(self)@, name@, value@) == None::<Seq<Map<Seq<char>, Node>>>
                    && final(self)@ == old(self)@,
            },
    {
        let r = copy_node(&value);
        match self.scopes.assign(name, value) {
            Some(_) => Some(r),
            None => None,
        }
    }

    /// What `name` reads as: its binding in the innermost frame that has one.
    pub fn get(&self, name: &String) -> (r: Option<EvalType>)
        requires
            self.wf(),
        ensures
            match r {
                Some(v) => lookup(self@, name@) == Some(v@),
                None => lookup(self@, name@) == None::<Node>,
            },
    {
        self.scopes.get(name)
    }
}

} // verus!
