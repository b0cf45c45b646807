//! Runtime extensions: the type-keyed state that capability crates install.

use crate::idmap::IdMap;
use vstd::prelude::*;
use vstd::string::StringExecFns;

verus! {

/// Runtime state keyed by the name of its type. A capability installs its
/// state once and reads it back.
pub struct Extensions<V> {
    slots: IdMap<V>,
}

impl<V> View for Extensions<V> {
    type V = Map<Seq<char>, V>;

    closed spec fn view(&self) -> Map<Seq<char>, V> {
        self.slots@
    }
}

impl<V> Extensions<V> {
    pub closed spec fn wf(&self) -> bool {
        self.slots.wf()
    }

    /// The empty extension set.
    #[must_use]
    pub fn new() -> (r: Self)
        ensures
            r.wf(),
            r@ == Map::<Seq<char>, V>::empty(),
    {
        Extensions { slots: IdMap::new() }
    }

    /// Install `value` under the name of its type, refusing (returning
    /// `false`) when a value of that type is already installed.
    pub fn insert(&mut self, kind: &str, value: V) -> (installed: bool)
        requires
            old(self).wf(),
        ensures
            final(self).wf(),
            installed == !old(self)@.dom().contains(kind@),
            final(self)@ == (if installed {
                old(self)@.insert(kind@, value)
            } else {
                old(self)@
            }),
    {
        if self.slots.contains_key(kind) {
            return false;
        }
        self.slots.insert(String::from_str(kind), value);
        true
    }

    /// The installed value of the type, if any.
    #[must_use]
    pub fn get(&self, kind: &str) -> (r: Option<&V>)
        requires
            self.wf(),
        ensures
            match r {
                Some(value) => self@.dom().contains(kind@) && *value == self@[kind@],
                None => !self@.dom().contains(kind@),
            },
    {
        self.slots.get(kind)
    }
}

} // verus!
