//! The seam between the guest registry and guest-to-guest linking.
//!
//! The registry owns guest lifecycle; how a guest's linked exports are served
//! is behind [`LinkSeam`]. A deployment that declares no link interfaces
//! installs [`NoLinks`]; one that does installs the in-process carrier.

use crate::registry::GuestId;
use vstd::prelude::*;

verus! {

/// The refusal of an endpoint.
#[derive(Debug, PartialEq, Eq)]
pub enum LinkError {
    /// The guest already has a pending endpoint.
    Pending(GuestId),
    /// The guest already has a live endpoint.
    Live(GuestId),
}

/// Guest-to-guest linking as the registry drives it.
///
/// Endpoints move through two stages: serving a guest parks its endpoint as
/// pending, publishing moves it live together with the registry entry. A call
/// path never reads pending state.
pub trait LinkSeam: Sized {
    /// What a served guest is reached through.
    type Endpoint;

    /// The pending endpoints, `None` for a guest that exports nothing linked.
    spec fn pending(&self) -> Map<Seq<char>, Option<Self::Endpoint>>;

    /// The live endpoints.
    spec fn live(&self) -> Map<Seq<char>, Option<Self::Endpoint>>;

    spec fn wf(&self) -> bool;

    /// Move `id`'s pending endpoint live; a no-op when nothing is pending. A
    /// refused endpoint is dropped.
    ///
    /// # Errors
    ///
    /// Returns an error if `id` already has a live endpoint.
    fn publish(&mut self, id: &GuestId) -> (r: Result<(), LinkError>)
        requires
            old(self).wf(),
        ensures
            final(self).wf(),
            final(self).pending() == old(self).pending().remove(id@),
            final(self).live() == published(old(self).pending(), old(self).live(), id@),
            match r {
                Ok(()) => !(old(self).pending().dom().contains(id@) && old(
                    self,
                ).live().dom().contains(id@)),
                Err(e) => old(self).pending().dom().contains(id@) && old(
                    self,
                ).live().dom().contains(id@) && (e matches LinkError::Live(refused) && refused@
                    == id@),
            },
    ;

    /// Drop `id`'s pending endpoint.
    fn discard(&mut self, id: &GuestId)
        requires
            old(self).wf(),
        ensures
            final(self).wf(),
            final(self).pending() == old(self).pending().remove(id@),
            final(self).live() == old(self).live(),
    ;

    /// Drop `id`'s live endpoint; in-flight invocations complete.
    fn remove(&mut self, id: &GuestId)
        requires
            old(self).wf(),
        ensures
            final(self).wf(),
            final(self).pending() == old(self).pending(),
            final(self).live() == old(self).live().remove(id@),
    ;

    /// Drop every pending and live endpoint.
    fn shutdown(&mut self)
        requires
            old(self).wf(),
        ensures
            final(self).wf(),
            final(self).pending() == Map::<Seq<char>, Option<Self::Endpoint>>::empty(),
            final(self).live() == Map::<Seq<char>, Option<Self::Endpoint>>::empty(),
    ;
}

/// The live endpoints after publishing `id`: a pending endpoint goes live,
/// unless the live slot is occupied.
pub open spec fn published<E>(
    pending: Map<Seq<char>, Option<E>>,
    live: Map<Seq<char>, Option<E>>,
    id: Seq<char>,
) -> Map<Seq<char>, Option<E>> {
    if pending.dom().contains(id) && !live.dom().contains(id) {
        live.insert(id, pending[id])
    } else {
        live
    }
}

/// The seam of a deployment that declares no link interfaces.
#[derive(Clone, Copy, Debug)]
pub struct NoLinks;

impl LinkSeam for NoLinks {
    type Endpoint = ();

    open spec fn pending(&self) -> Map<Seq<char>, Option<()>> {
        Map::empty()
    }

    open spec fn live(&self) -> Map<Seq<char>, Option<()>> {
        Map::empty()
    }

    open spec fn wf(&self) -> bool {
        true
    }

    fn publish(&mut self, _id: &GuestId) -> (r: Result<(), LinkError>) {
        assert(self.pending().remove(_id@) =~= self.pending());
        Ok(())
    }

    fn discard(&mut self, _id: &GuestId) {
        assert(self.pending().remove(_id@) =~= self.pending());
    }

    fn remove(&mut self, _id: &GuestId) {
        assert(self.live().remove(_id@) =~= self.live());
    }

    fn shutdown(&mut self) {
    }
}

/// Publishing moves one endpoint: it goes live as it was parked where no live
/// one is in its place, a live one stays, and no other guest's changes.
pub proof fn publishing_moves_one_endpoint<E>(
    pending: Map<Seq<char>, Option<E>>,
    live: Map<Seq<char>, Option<E>>,
    id: Seq<char>,
    other: Seq<char>,
)
    ensures
        ({
            let now = published(pending, live, id);
            &&& pending.dom().contains(id) && !live.dom().contains(id) ==> now.dom().contains(id)
                && now[id] == pending[id]
            &&& !pending.dom().contains(id) ==> now == live
            &&& live.dom().contains(other) ==> now.dom().contains(other) && now[other]
                == live[other]
            &&& other != id ==> now.dom().contains(other) == live.dom().contains(other)
        }),
{
}

} // verus!
