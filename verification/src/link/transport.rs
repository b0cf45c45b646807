//! The in-process link carrier: which guests can be reached, and through what.
//!
//! Endpoints move through two stages. Serving a guest *parks* its endpoint
//! (`None` when it exports no linked interface) as pending; publishing moves
//! it to the live map, together with the registry entry. Connecting reads only
//! the live map. Recording every served guest, linked or not, tells "not
//! registered" from "registered but exports nothing linked".

use crate::idmap::IdMap;
use crate::registry::GuestId;
use crate::seam::{LinkError, LinkSeam};
use vstd::prelude::*;
use vstd::string::StringExecFns;

verus! {

/// The carrier of a deployment whose targets are served through endpoints of
/// type `E`.
pub struct InProcess<E> {
    pending: IdMap<Option<E>>,
    live: IdMap<Option<E>>,
}

/// Why no connection to a target could be opened.
#[derive(Debug, PartialEq, Eq)]
pub enum ConnectError {
    /// The target is not published.
    NotRegistered { target: String },
    /// The target is published but exports no linked interface.
    Unlinked { target: String, interface: String },
}

impl ConnectError {
    pub open spec fn text_spec(self) -> Seq<char> {
        match self {
            ConnectError::NotRegistered { target } => "guest `"@ + target@
                + "` is not registered"@,
            ConnectError::Unlinked { target, interface } => "guest `"@ + target@
                + "` is registered but exports no linked interface (`"@ + interface@
                + "`); is it meant to be a link target?"@,
        }
    }

    /// The refusal in words.
    pub fn text(&self) -> (text: String)
        ensures
            text@ == self.text_spec(),
    {
        match self {
            ConnectError::NotRegistered { target } => String::from_str("guest `").concat(
                target.as_str(),
            ).concat("` is not registered"),
            ConnectError::Unlinked { target, interface } => String::from_str("guest `").concat(
                target.as_str(),
            ).concat("` is registered but exports no linked interface (`").concat(
                interface.as_str(),
            ).concat("`); is it meant to be a link target?"),
        }
    }
}

impl LinkError {
    pub open spec fn text_spec(self) -> Seq<char> {
        match self {
            LinkError::Pending(id) => "guest `"@ + id@ + "` already has a pending endpoint"@,
            LinkError::Live(id) => "guest `"@ + id@ + "` already has a live endpoint"@,
        }
    }

    /// The refusal in words.
    pub fn text(&self) -> (text: String)
        ensures
            text@ == self.text_spec(),
    {
        match self {
            LinkError::Pending(id) => String::from_str("guest `").concat(id.as_str()).concat(
                "` already has a pending endpoint",
            ),
            LinkError::Live(id) => String::from_str("guest `").concat(id.as_str()).concat(
                "` already has a live endpoint",
            ),
        }
    }
}

impl<E> InProcess<E> {
    pub fn new() -> (carrier: Self)
        ensures
            carrier.wf(),
            carrier.pending() == Map::<Seq<char>, Option<E>>::empty(),
            carrier.live() == Map::<Seq<char>, Option<E>>::empty(),
    {
        InProcess { pending: IdMap::new(), live: IdMap::new() }
    }

    /// Park `target`'s served endpoint as pending until it is published or
    /// discarded, refusing an identity that is already pending.
    ///
    /// # Errors
    ///
    /// Returns an error if `target` already has a pending endpoint.
    pub fn park(&mut self, target: &GuestId, endpoint: Option<E>) -> (r: Result<(), LinkError>)
        requires
            old(self).wf(),
        ensures
            final(self).wf(),
            final(self).live() == old(self).live(),
            match r {
                Ok(()) => !old(self).pending().dom().contains(target@) && final(self).pending()
                    == old(self).pending().insert(target@, endpoint),
                Err(e) => old(self).pending().dom().contains(target@) && final(self).pending()
                    == old(self).pending() && (e matches LinkError::Pending(refused) && refused@
                    == target@),
            },
    {
        if self.pending.contains_key(target.as_str()) {
            return Err(LinkError::Pending(target.copy()));
        }
        self.pending.insert(String::from_str(target.as_str()), endpoint);
        Ok(())
    }

    /// The endpoint through which `target` is reached for a single invocation
    /// of `interface`.
    ///
    /// # Errors
    ///
    /// Returns an error if `target` is not published, or is published but
    /// exports no linked interface.
    pub fn connect(&self, target: &GuestId, interface: &str) -> (r: Result<&E, ConnectError>)
        requires
            self.wf(),
        ensures
            match r {
                Ok(endpoint) => self.live().dom().contains(target@) && self.live()[target@] == Some(
                    *endpoint,
                ),
                Err(ConnectError::NotRegistered { target: t }) => t@ == target@
                    && !self.live().dom().contains(target@),
                Err(ConnectError::Unlinked { target: t, interface: i }) => t@ == target@ && i@
                    == interface@ && self.live().dom().contains(target@) && self.live()[target@]
                    is None,
            },
    {
        match self.live.get(target.as_str()) {
            None => Err(
                ConnectError::NotRegistered { target: String::from_str(target.as_str()) },
            ),
            Some(None) => Err(
                ConnectError::Unlinked {
                    target: String::from_str(target.as_str()),
                    interface: String::from_str(interface),
                },
            ),
            Some(Some(endpoint)) => Ok(endpoint),
        }
    }
}

impl<E> LinkSeam for InProcess<E> {
    type Endpoint = E;

    closed spec fn pending(&self) -> Map<Seq<char>, Option<E>> {
        self.pending@
    }

    closed spec fn live(&self) -> Map<Seq<char>, Option<E>> {
        self.live@
    }

    closed spec fn wf(&self) -> bool {
        self.pending.wf() && self.live.wf()
    }

    fn publish(&mut self, id: &GuestId) -> (r: Result<(), LinkError>) {
        match self.pending.remove(id.as_str()) {
            None => Ok(()),
            Some(endpoint) => {
                if self.live.contains_key(id.as_str()) {
                    return Err(LinkError::Live(id.copy()));
                }
                self.live.insert(String::from_str(id.as_str()), endpoint);
                Ok(())
            },
        }
    }

    fn discard(&mut self, id: &GuestId) {
        let _ = self.pending.remove(id.as_str());
    }

    fn remove(&mut self, id: &GuestId) {
        let _ = self.live.remove(id.as_str());
    }

    fn shutdown(&mut self) {
        self.pending.clear();
        self.live.clear();
    }
}

/// A target is reached exactly where it is live with an endpoint, and by that
/// endpoint, whatever interface is asked for; a refusal names the target.
pub proof fn live_targets_are_reached<E>(
    carrier: InProcess<E>,
    target: GuestId,
    interface: &str,
    r: Result<&E, ConnectError>,
)
    requires
        call_ensures(InProcess::<E>::connect, (&carrier, &target, interface), r),
    ensures
        r is Ok <==> carrier.live().dom().contains(target@) && carrier.live()[target@] is Some,
        r is Ok ==> carrier.live()[target@] == Some(*r->Ok_0),
        r is Err ==> crate::text::holds(r->Err_0.text_spec(), target@),
        r is Err && r->Err_0 is Unlinked <==> carrier.live().dom().contains(target@)
            && carrier.live()[target@] is None,
        r is Err && r->Err_0 is Unlinked ==> crate::text::holds(r->Err_0.text_spec(), interface@),
{
    crate::text::holding_goes_on(target@);
    if r is Err && r->Err_0 is Unlinked {
        let head = "guest `"@ + target@;
        assert(crate::text::holds(head, target@));
        let more = head + "` is registered but exports no linked interface (`"@;
        assert(crate::text::holds(more, target@));
        assert(crate::text::holds(more + interface@, target@));
        crate::text::holding_goes_on(interface@);
        assert(crate::text::holds(more + interface@, interface@));
    }
}

} // verus!
