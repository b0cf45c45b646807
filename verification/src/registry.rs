//! Guest registry: many guests, each selectable by an opaque [`GuestId`].
//!
//! The runtime core treats identities as opaque keys; consumers project their
//! own scheme onto them.

use crate::idmap::IdMap;
use crate::link::transport::InProcess;
use crate::options::RuntimeOptions;
use crate::seam::{LinkError, LinkSeam};
use vstd::prelude::*;
use vstd::string::StringExecFns;

verus! {

/// Opaque guest identity: an ordered string key.
#[derive(Debug, PartialEq, Eq, Hash, PartialOrd, Ord)]
pub struct GuestId(String);

impl View for GuestId {
    type V = Seq<char>;

    closed spec fn view(&self) -> Seq<char> {
        self.0@
    }
}

impl GuestId {
    pub fn new(value: &str) -> (id: GuestId)
        ensures
            id@ == value@,
    {
        GuestId(String::from_str(value))
    }

    /// Returns the identity as a string slice.
    #[must_use]
    pub fn as_str(&self) -> (s: &str)
        ensures
            s@ == self@,
    {
        self.0.as_str()
    }

    /// The same identity once more.
    pub fn copy(&self) -> (id: GuestId)
        ensures
            id@ == self@,
    {
        GuestId(self.0.clone())
    }

    /// Whether two identities are the same.
    pub fn same(&self, other: &GuestId) -> (r: bool)
        ensures
            r == (self@ == other@),
    {
        crate::text::str_eq(self.0.as_str(), other.0.as_str())
    }
}

impl From<String> for GuestId {
    fn from(value: String) -> (id: GuestId)
        ensures
            id@ == value@,
    {
        GuestId(value)
    }
}

impl vstd::std_specs::convert::FromSpecImpl<String> for GuestId {
    open spec fn obeys_from_spec() -> bool {
        true
    }

    closed spec fn from_spec(value: String) -> GuestId {
        GuestId(value)
    }
}

/// A registered guest: an opaque identity bound to the pre-instantiated
/// component `T` that serves it.
pub struct Guest<T> {
    id: GuestId,
    target: T,
    digest: Option<String>,
}

impl<T> Guest<T> {
    pub closed spec fn id_spec(&self) -> Seq<char> {
        self.id@
    }

    pub closed spec fn target_spec(&self) -> T {
        self.target
    }

    pub closed spec fn digest_spec(&self) -> Option<Seq<char>> {
        crate::text::opt_view(self.digest)
    }

    /// Create a guest backed by a local pre-instantiated component.
    #[must_use]
    pub fn local(id: GuestId, target: T) -> (guest: Self)
        ensures
            guest.id_spec() == id@,
            guest.target_spec() == target,
            guest.digest_spec() is None,
    {
        Guest { id, target, digest: None }
    }

    /// Record the `sha256:<hex>` content digest of the guest's bytes, so the
    /// attestation lives and dies with the registry entry itself.
    #[must_use]
    pub fn with_digest(self, digest: String) -> (guest: Self)
        ensures
            guest.id_spec() == self.id_spec(),
            guest.target_spec() == self.target_spec(),
            guest.digest_spec() == Some(digest@),
    {
        Guest { id: self.id, target: self.target, digest: Some(digest) }
    }

    /// Returns the guest's identity.
    #[must_use]
    pub fn id(&self) -> (id: &GuestId)
        ensures
            id@ == self.id_spec(),
    {
        &self.id
    }

    /// The recorded `sha256:<hex>` content digest, if the guest was admitted
    /// from hashed bytes.
    #[must_use]
    pub fn digest(&self) -> (digest: Option<&str>)
        ensures
            match digest {
                Some(d) => self.digest_spec() == Some(d@),
                None => self.digest_spec() is None,
            },
    {
        match &self.digest {
            Some(digest) => Some(digest.as_str()),
            None => None,
        }
    }

    /// Returns the guest's pre-instantiated component, ready to instantiate
    /// fresh on a new store per call.
    #[must_use]
    pub fn instance_pre(&self) -> (target: &T)
        ensures
            *target == self.target_spec(),
    {
        &self.target
    }
}

/// The guests that inbound routes name, in the order of the route tables.
pub struct Routes {
    pub targets: Vec<GuestId>,
}

/// The models of a list of identities.
pub open spec fn id_views(ids: Seq<GuestId>) -> Seq<Seq<char>> {
    ids.map_values(|id: GuestId| id@)
}

/// A loaded guest: its identity, and the component pre-instantiated against
/// the linked host set, or why it could not be.
pub struct LoadedGuest<T> {
    pub id: GuestId,
    pub target: Result<T, String>,
}

/// Why a registry could not be assembled.
#[derive(Debug, PartialEq, Eq)]
pub enum AssembleError {
    /// There are no guests to register.
    NoGuests,
    /// A component could not be pre-instantiated.
    PreInstantiate(GuestId, String),
    /// Two guests carry one identity.
    Duplicate(GuestId),
    /// A route names a guest that is not registered.
    RouteTarget(GuestId),
}

/// The refusal of an assembly, as the contracts speak of it.
pub enum AssembleErrorModel {
    NoGuests,
    PreInstantiate(Seq<char>, Seq<char>),
    Duplicate(Seq<char>),
    RouteTarget(Seq<char>),
}

impl View for AssembleError {
    type V = AssembleErrorModel;

    open spec fn view(&self) -> AssembleErrorModel {
        match *self {
            AssembleError::NoGuests => AssembleErrorModel::NoGuests,
            AssembleError::PreInstantiate(id, reason) => AssembleErrorModel::PreInstantiate(
                id@,
                reason@,
            ),
            AssembleError::Duplicate(id) => AssembleErrorModel::Duplicate(id@),
            AssembleError::RouteTarget(id) => AssembleErrorModel::RouteTarget(id@),
        }
    }
}

impl AssembleError {
    pub open spec fn text_spec(self) -> Seq<char> {
        match self {
            AssembleError::NoGuests => "cannot build a guest registry with no guests"@,
            AssembleError::PreInstantiate(id, reason) => "pre-instantiating guest `"@ + id@
                + "`: "@ + reason@,
            AssembleError::Duplicate(id) => "duplicate guest id `"@ + id@
                + "`: guest identities must be unique"@,
            AssembleError::RouteTarget(id) => "route targets guest `"@ + id@
                + "`, which is not registered"@,
        }
    }

    /// The refusal in words.
    pub fn text(&self) -> (text: String)
        ensures
            text@ == self.text_spec(),
    {
        match self {
            AssembleError::NoGuests => String::from_str(
                "cannot build a guest registry with no guests",
            ),
            AssembleError::PreInstantiate(id, reason) => String::from_str(
                "pre-instantiating guest `",
            ).concat(id.as_str()).concat("`: ").concat(reason.as_str()),
            AssembleError::Duplicate(id) => String::from_str("duplicate guest id `").concat(
                id.as_str(),
            ).concat("`: guest identities must be unique"),
            AssembleError::RouteTarget(id) => String::from_str("route targets guest `").concat(
                id.as_str(),
            ).concat("`, which is not registered"),
        }
    }
}

/// The identities of the first `n` loaded guests.
pub open spec fn loaded_ids<T>(loaded: Seq<LoadedGuest<T>>, n: nat) -> Set<Seq<char>>
    decreases n,
{
    if n == 0 || n > loaded.len() {
        Set::empty()
    } else {
        loaded_ids(loaded, (n - 1) as nat).insert(loaded[n - 1].id@)
    }
}

/// The refusal of the first of the first `n` loaded guests that cannot be
/// registered, if any: one that did not pre-instantiate, or one whose identity
/// an earlier one carries.
pub open spec fn load_refusal<T>(loaded: Seq<LoadedGuest<T>>, n: nat) -> Option<AssembleErrorModel>
    decreases n,
{
    if n == 0 || n > loaded.len() {
        None
    } else {
        match load_refusal(loaded, (n - 1) as nat) {
            Some(e) => Some(e),
            None => match loaded[n - 1].target {
                Err(reason) => Some(
                    AssembleErrorModel::PreInstantiate(loaded[n - 1].id@, reason@),
                ),
                Ok(_) => if loaded_ids(loaded, (n - 1) as nat).contains(loaded[n - 1].id@) {
                    Some(AssembleErrorModel::Duplicate(loaded[n - 1].id@))
                } else {
                    None
                },
            },
        }
    }
}

/// The first route target, from `i` on, that is not registered.
pub open spec fn stray_target(
    targets: Seq<Seq<char>>,
    registered: Set<Seq<char>>,
    i: int,
) -> Option<Seq<char>>
    decreases targets.len() - i,
{
    if i < 0 || i >= targets.len() {
        None
    } else if registered.contains(targets[i]) {
        stray_target(targets, registered, i + 1)
    } else {
        Some(targets[i])
    }
}

/// Why a deployment's parts do not assemble, if they do not.
pub open spec fn assembly_refusal<T>(
    loaded: Seq<LoadedGuest<T>>,
    targets: Seq<Seq<char>>,
    allow_empty: bool,
) -> Option<AssembleErrorModel> {
    if loaded.len() == 0 && !allow_empty {
        Some(AssembleErrorModel::NoGuests)
    } else if load_refusal(loaded, loaded.len()) is Some {
        load_refusal(loaded, loaded.len())
    } else {
        match stray_target(targets, loaded_ids(loaded, loaded.len()), 0) {
            Some(id) => Some(AssembleErrorModel::RouteTarget(id)),
            None => None,
        }
    }
}

proof fn lemma_refusal_stays<T>(loaded: Seq<LoadedGuest<T>>, i: nat, n: nat)
    requires
        i <= n <= loaded.len(),
        load_refusal(loaded, i) is Some,
    ensures
        load_refusal(loaded, n) == load_refusal(loaded, i),
    decreases n,
{
    if i < n {
        lemma_refusal_stays(loaded, i, (n - 1) as nat);
    }
}

/// Why [`Registry::publish`] refused a late guest; `Occupied` is distinct so
/// callers can treat an identity conflict as a race, not a fault.
#[derive(Debug, PartialEq, Eq)]
pub enum PublishError {
    /// The identity is already registered.
    Occupied(GuestId),
    /// Link-endpoint installation failed.
    Transport(LinkError),
}

impl PublishError {
    pub open spec fn text_spec(self) -> Seq<char> {
        match self {
            PublishError::Occupied(id) => "guest `"@ + id@ + "` is already registered"@,
            PublishError::Transport(error) => error.text_spec(),
        }
    }

    /// The refusal in words.
    pub fn text(&self) -> (text: String)
        ensures
            text@ == self.text_spec(),
    {
        match self {
            PublishError::Occupied(id) => String::from_str("guest `").concat(id.as_str()).concat(
                "` is already registered",
            ),
            PublishError::Transport(error) => error.text(),
        }
    }
}

/// Why a guest could not be removed.
#[derive(Debug, PartialEq, Eq)]
pub enum RemoveError {
    /// The guest was there at assembly.
    Static(GuestId),
    /// No guest has the identity.
    NotRegistered(GuestId),
}

impl RemoveError {
    pub open spec fn text_spec(self) -> Seq<char> {
        match self {
            RemoveError::Static(id) => "guest `"@ + id@
                + "` is a static deployment entry and cannot be deregistered"@,
            RemoveError::NotRegistered(id) => "guest `"@ + id@ + "` is not registered"@,
        }
    }

    /// The refusal in words.
    pub fn text(&self) -> (text: String)
        ensures
            text@ == self.text_spec(),
    {
        match self {
            RemoveError::Static(id) => String::from_str("guest `").concat(id.as_str()).concat(
                "` is a static deployment entry and cannot be deregistered",
            ),
            RemoveError::NotRegistered(id) => String::from_str("guest `").concat(
                id.as_str(),
            ).concat("` is not registered"),
        }
    }
}

/// Many pre-instantiated guests keyed by identity, over one link seam.
///
/// The guest map grows and shrinks after assembly; the guests that were there
/// at assembly stay.
pub struct Registry<T, S> {
    options: RuntimeOptions,
    guests: IdMap<Guest<T>>,
    static_ids: IdMap<()>,
    routes: Routes,
    seam: S,
}

/// Whether assembling loaded guests comes to `r`: a registry of exactly these
/// guests, all of them static, or the first refusal.
pub open spec fn assembled<T, S: LinkSeam>(
    options: RuntimeOptions,
    loaded: Seq<LoadedGuest<T>>,
    routes: Routes,
    seam: S,
    allow_empty: bool,
    r: Result<Registry<T, S>, AssembleError>,
) -> bool {
    match r {
        Ok(registry) => {
            &&& assembly_refusal(loaded, id_views(routes.targets@), allow_empty) is None
            &&& registry.wf()
            &&& registry.statics() == loaded_ids(loaded, loaded.len())
            &&& registry.guest_map().dom() == registry.statics()
            &&& forall|i: int|
                0 <= i < loaded.len() ==> {
                    let guest = registry.guest_map()[(#[trigger] loaded[i]).id@];
                    loaded[i].target == Ok::<T, String>(guest.target_spec())
                        && guest.digest_spec() is None
                }
            &&& registry.route_targets() == id_views(routes.targets@)
            &&& registry.link_seam() == seam
            &&& registry.options_spec() == options
        },
        Err(e) => assembly_refusal(loaded, id_views(routes.targets@), allow_empty) == Some(
            e@,
        ),
    }
}

impl<T, S: LinkSeam> Registry<T, S> {
    /// The registered guests.
    pub closed spec fn guest_map(&self) -> Map<Seq<char>, Guest<T>> {
        self.guests@
    }

    /// The registered guests in the order of their identities.
    pub closed spec fn guest_seq(&self) -> Seq<(Seq<char>, Guest<T>)> {
        self.guests.entries()
    }

    /// The identities that were there at assembly.
    pub closed spec fn statics(&self) -> Set<Seq<char>> {
        self.static_ids@.dom()
    }

    pub closed spec fn route_targets(&self) -> Seq<Seq<char>> {
        id_views(self.routes.targets@)
    }

    pub closed spec fn link_seam(&self) -> S {
        self.seam
    }

    pub closed spec fn options_spec(&self) -> RuntimeOptions {
        self.options
    }

    /// Every guest stands under its own identity, and every guest that was
    /// there at assembly is still there.
    pub closed spec fn wf(&self) -> bool {
        &&& self.guests.wf()
        &&& self.static_ids.wf()
        &&& self.seam.wf()
        &&& self.statics().subset_of(self.guests@.dom())
        &&& forall|id: Seq<char>|
            #[trigger] self.guests@.dom().contains(id) ==> self.guests@[id].id_spec() == id
    }

    /// Everything but the endpoints and the guests is as before.
    pub open spec fn same_deployment(&self, other: &Self) -> bool {
        self.statics() == other.statics() && self.route_targets() == other.route_targets()
            && self.options_spec() == other.options_spec()
    }

    /// The registered guests are exactly those with a live endpoint.
    pub open spec fn in_step(&self) -> bool {
        self.link_seam().live().dom() == self.guest_map().dom()
    }

    /// Assemble a registry from a linked deployment's parts: register every
    /// loaded guest, validate that routes name registered guests, and freeze
    /// the static set. What was `loaded` is pre-instantiated on a linker that
    /// has the link imports polyfilled; see
    /// [`crate::link::links::assemble_linked`] for both together.
    ///
    /// # Errors
    ///
    /// Returns an error if there are no guests to register (unless
    /// `allow_empty`), a component could not be pre-instantiated, two guests
    /// carry one identity, or a route targets a guest that is not registered.
    pub fn assemble(
        options: RuntimeOptions,
        loaded: Vec<LoadedGuest<T>>,
        routes: Routes,
        seam: S,
        allow_empty: bool,
    ) -> (r: Result<Self, AssembleError>)
        requires
            seam.wf(),
        ensures
            assembled(options, loaded@, routes, seam, allow_empty, r),
    {
        if loaded.len() == 0 && !allow_empty {
            return Err(AssembleError::NoGuests);
        }
        let ghost all = loaded@;
        let mut guests: IdMap<Guest<T>> = IdMap::new();
        let mut static_ids: IdMap<()> = IdMap::new();
        proof {
            assert(guests@.dom() =~= Set::empty());
            assert(static_ids@.dom() =~= Set::empty());
        }
        for guest in it: loaded
            invariant
                all == loaded@,
                it.seq() == all,
                all.len() > 0 || allow_empty,
                guests.wf(),
                static_ids.wf(),
                load_refusal(all, it.index() as nat) is None,
                guests@.dom() == loaded_ids(all, it.index() as nat),
                static_ids@.dom() == loaded_ids(all, it.index() as nat),
                forall|id: Seq<char>|
                    #[trigger] guests@.dom().contains(id) ==> guests@[id].id_spec() == id,
                forall|i: int|
                    0 <= i < it.index() ==> {
                        let g = guests@[(#[trigger] all[i]).id@];
                        guests@.dom().contains(all[i].id@) && all[i].target == Ok::<T, String>(
                            g.target_spec(),
                        ) && g.digest_spec() is None
                    },
        {
            let ghost n = it.index() as nat;
            assert(guest == all[n as int]);
            let LoadedGuest { id, target } = guest;
            match target {
                Err(reason) => {
                    proof {
                        lemma_refusal_stays(all, n + 1, all.len());
                    }
                    return Err(AssembleError::PreInstantiate(id, reason));
                },
                Ok(target) => {
                    if guests.contains_key(id.as_str()) {
                        proof {
                            lemma_refusal_stays(all, n + 1, all.len());
                        }
                        return Err(AssembleError::Duplicate(id));
                    }
                    let key = String::from_str(id.as_str());
                    let ghost before = guests@;
                    guests.insert(key.clone(), Guest::local(id, target));
                    static_ids.insert(key, ());
                    proof {
                        assert(guests@.dom() =~= before.dom().insert(id@));
                        assert(static_ids@.dom() =~= loaded_ids(all, n + 1));
                    }
                },
            }
        }
        let mut i: usize = 0;
        let ghost targets = id_views(routes.targets@);
        while i < routes.targets.len()
            invariant
                i <= routes.targets@.len(),
                targets == id_views(routes.targets@),
                all == loaded@,
                all.len() > 0 || allow_empty,
                guests.wf(),
                guests@.dom() == loaded_ids(all, all.len()),
                load_refusal(all, all.len()) is None,
                stray_target(targets, guests@.dom(), 0) == stray_target(
                    targets,
                    guests@.dom(),
                    i as int,
                ),
            decreases routes.targets@.len() - i,
        {
            if !guests.contains_key(routes.targets[i].as_str()) {
                return Err(AssembleError::RouteTarget(routes.targets[i].copy()));
            }
            i = i + 1;
        }
        Ok(Registry { options, guests, static_ids, routes, seam })
    }

    /// Returns the runtime options.
    #[must_use]
    pub fn options(&self) -> (options: &RuntimeOptions)
        ensures
            *options == self.options_spec(),
    {
        &self.options
    }

    /// Look up a guest by identity.
    #[must_use]
    pub fn get(&self, id: &GuestId) -> (r: Option<&Guest<T>>)
        requires
            self.wf(),
        ensures
            match r {
                Some(guest) => self.guest_map().dom().contains(id@) && *guest
                    == self.guest_map()[id@] && guest.id_spec() == id@,
                None => !self.guest_map().dom().contains(id@),
            },
    {
        self.guests.get(id.as_str())
    }

    /// Every registered guest in a deterministic, identity-sorted order, so
    /// per-trigger capability and ambiguity errors are stable across runs.
    pub fn guests(&self) -> (r: Vec<&Guest<T>>)
        requires
            self.wf(),
        ensures
            r@.len() == self.guest_seq().len(),
            forall|i: int| 0 <= i < r@.len() ==> *(#[trigger] r@[i]) == self.guest_seq()[i].1,
            crate::idmap::ascending(self.guest_seq()),
            self.guest_map() == crate::idmap::map_of(self.guest_seq()),
    {
        proof {
            self.guests.lemma_sorted();
        }
        let mut r: Vec<&Guest<T>> = Vec::new();
        let mut i: usize = 0;
        while i < self.guests.len()
            invariant
                i <= self.guests.entries().len(),
                r@.len() == i,
                forall|k: int| 0 <= k < i ==> *(#[trigger] r@[k]) == self.guests.entries()[k].1,
            decreases self.guests.entries().len() - i,
        {
            r.push(self.guests.value_at(i));
            i = i + 1;
        }
        r
    }

    /// Publish a late guest and its pending link endpoint as one lifecycle
    /// transition. Refuses an identity that is already registered (static
    /// entries can never be shadowed), discarding the pending endpoint; on
    /// refusal the registry map is untouched, so a failed registration leaves
    /// no partial state.
    ///
    /// # Errors
    ///
    /// Returns an error if the identity is already registered, or already has
    /// a live endpoint.
    pub fn publish(&mut self, guest: Guest<T>) -> (r: Result<(), PublishError>)
        requires
            old(self).wf(),
        ensures
            final(self).wf(),
            final(self).statics() == old(self).statics(),
            final(self).route_targets() == old(self).route_targets(),
            final(self).options_spec() == old(self).options_spec(),
            final(self).link_seam().pending() == old(self).link_seam().pending().remove(
                guest.id_spec(),
            ),
            match r {
                Ok(()) => {
                    &&& !old(self).guest_map().dom().contains(guest.id_spec())
                    &&& !(old(self).link_seam().pending().dom().contains(guest.id_spec()) && old(
                        self,
                    ).link_seam().live().dom().contains(guest.id_spec()))
                    &&& final(self).guest_map() == old(self).guest_map().insert(
                        guest.id_spec(),
                        guest,
                    )
                    &&& final(self).link_seam().live() == crate::seam::published(
                        old(self).link_seam().pending(),
                        old(self).link_seam().live(),
                        guest.id_spec(),
                    )
                },
                Err(PublishError::Occupied(id)) => {
                    &&& id@ == guest.id_spec()
                    &&& old(self).guest_map().dom().contains(guest.id_spec())
                    &&& final(self).guest_map() == old(self).guest_map()
                    &&& final(self).link_seam().live() == old(self).link_seam().live()
                },
                Err(PublishError::Transport(e)) => {
                    &&& e matches LinkError::Live(id) && id@ == guest.id_spec()
                    &&& !old(self).guest_map().dom().contains(guest.id_spec())
                    &&& old(self).link_seam().pending().dom().contains(guest.id_spec())
                    &&& old(self).link_seam().live().dom().contains(guest.id_spec())
                    &&& final(self).guest_map() == old(self).guest_map()
                    &&& final(self).link_seam().live() == old(self).link_seam().live()
                },
            },
            old(self).in_step() && old(self).link_seam().pending().dom().contains(
                guest.id_spec(),
            ) ==> final(self).in_step(),
    {
        let id = guest.id().copy();
        if self.guests.contains_key(id.as_str()) {
            self.seam.discard(&id);
            return Err(PublishError::Occupied(id));
        }
        match self.seam.publish(&id) {
            Err(error) => Err(PublishError::Transport(error)),
            Ok(()) => {
                let ghost before = self.guests@;
                self.guests.insert(String::from_str(id.as_str()), guest);
                assert(self.guests@.dom() =~= before.dom().insert(id@));
                Ok(())
            },
        }
    }

    /// Remove a dynamically registered guest and its link endpoint as one
    /// lifecycle transition. Refuses static (assemble-time) entries and
    /// unregistered identities.
    ///
    /// # Errors
    ///
    /// Returns an error if `id` is a static entry or is not registered.
    pub fn remove(&mut self, id: &GuestId) -> (r: Result<(), RemoveError>)
        requires
            old(self).wf(),
        ensures
            final(self).wf(),
            final(self).statics() == old(self).statics(),
            final(self).route_targets() == old(self).route_targets(),
            final(self).options_spec() == old(self).options_spec(),
            final(self).link_seam().pending() == old(self).link_seam().pending(),
            match r {
                Ok(()) => {
                    &&& !old(self).statics().contains(id@)
                    &&& old(self).guest_map().dom().contains(id@)
                    &&& final(self).guest_map() == old(self).guest_map().remove(id@)
                    &&& final(self).link_seam().live() == old(self).link_seam().live().remove(
                        id@,
                    )
                },
                Err(e) => {
                    &&& final(self).guest_map() == old(self).guest_map()
                    &&& final(self).link_seam().live() == old(self).link_seam().live()
                    &&& match e {
                        RemoveError::Static(refused) => refused@ == id@ && old(
                            self,
                        ).statics().contains(id@),
                        RemoveError::NotRegistered(refused) => refused@ == id@ && !old(
                            self,
                        ).statics().contains(id@) && !old(self).guest_map().dom().contains(id@),
                    }
                },
            },
            old(self).in_step() ==> final(self).in_step(),
    {
        if self.static_ids.contains_key(id.as_str()) {
            return Err(RemoveError::Static(id.copy()));
        }
        match self.guests.remove(id.as_str()) {
            None => {
                assert(self.guests@ =~= old(self).guests@);
                Err(RemoveError::NotRegistered(id.copy()))
            },
            Some(_) => {
                self.seam.remove(id);
                assert(self.guests@.dom() =~= old(self).guests@.dom().remove(id@));
                Ok(())
            },
        }
    }

    /// The guests that inbound routes name.
    #[must_use]
    pub fn routes(&self) -> (routes: &Routes)
        ensures
            id_views(routes.targets@) == self.route_targets(),
    {
        &self.routes
    }

    /// Returns the guest-to-guest link seam the registry drives.
    #[must_use]
    pub fn seam(&self) -> (seam: &S)
        requires
            self.wf(),
        ensures
            *seam == self.link_seam(),
            seam.wf(),
    {
        &self.seam
    }

    /// Release every endpoint, pending and live.
    pub fn shutdown(&mut self)
        requires
            old(self).wf(),
        ensures
            final(self).wf(),
            final(self).guest_map() == old(self).guest_map(),
            final(self).statics() == old(self).statics(),
            final(self).route_targets() == old(self).route_targets(),
            final(self).options_spec() == old(self).options_spec(),
            final(self).link_seam().pending() == Map::<Seq<char>, Option<S::Endpoint>>::empty(),
            final(self).link_seam().live() == Map::<Seq<char>, Option<S::Endpoint>>::empty(),
    {
        self.seam.shutdown();
    }

    /// Returns the number of registered guests.
    #[must_use]
    pub fn len(&self) -> (n: usize)
        ensures
            n == self.guest_seq().len(),
    {
        self.guests.len()
    }

    /// Returns `true` if the registry has no guests.
    #[must_use]
    pub fn is_empty(&self) -> (r: bool)
        requires
            self.wf(),
        ensures
            r == (self.guest_map() == Map::<Seq<char>, Guest<T>>::empty()),
    {
        proof {
            self.guests.lemma_sorted();
            if self.guest_seq().len() == 0 {
                assert(self.guest_map() =~= Map::<Seq<char>, Guest<T>>::empty());
            } else {
                crate::idmap::lemma_ascending_entry(self.guest_seq(), 0);
            }
        }
        self.guests.len() == 0
    }
}

/// Why a guest's linked exports could not be served and registered.
#[derive(Debug, PartialEq, Eq)]
pub enum ServeError {
    /// An export could not be served over the carrier.
    Serve(GuestId, String),
    /// The guest was not served.
    Unserved(GuestId),
    /// The carrier refused the endpoint.
    Link(LinkError),
}

/// The refusal of a served guest, as the contracts speak of it.
pub enum ServeErrorModel {
    Serve(Seq<char>, Seq<char>),
    Unserved(Seq<char>),
    Pending(Seq<char>),
    Live(Seq<char>),
}

impl View for ServeError {
    type V = ServeErrorModel;

    open spec fn view(&self) -> ServeErrorModel {
        match *self {
            ServeError::Serve(id, reason) => ServeErrorModel::Serve(id@, reason@),
            ServeError::Unserved(id) => ServeErrorModel::Unserved(id@),
            ServeError::Link(LinkError::Pending(id)) => ServeErrorModel::Pending(id@),
            ServeError::Link(LinkError::Live(id)) => ServeErrorModel::Live(id@),
        }
    }
}

impl ServeError {
    /// The identity of the guest it is about.
    pub open spec fn guest_spec(self) -> Seq<char> {
        match self {
            ServeError::Serve(id, _) => id@,
            ServeError::Unserved(id) => id@,
            ServeError::Link(LinkError::Pending(id)) => id@,
            ServeError::Link(LinkError::Live(id)) => id@,
        }
    }

    /// The guest it is about.
    pub fn guest(&self) -> (id: &GuestId)
        ensures
            id@ == self.guest_spec(),
    {
        match self {
            ServeError::Serve(id, _) => id,
            ServeError::Unserved(id) => id,
            ServeError::Link(LinkError::Pending(id)) => id,
            ServeError::Link(LinkError::Live(id)) => id,
        }
    }

    pub open spec fn text_spec(self) -> Seq<char> {
        match self {
            ServeError::Serve(_, reason) => reason@,
            ServeError::Unserved(id) => "guest `"@ + id@ + "` was not served"@,
            ServeError::Link(error) => error.text_spec(),
        }
    }

    /// The refusal in words.
    pub fn text(&self) -> (text: String)
        ensures
            text@ == self.text_spec(),
    {
        match self {
            ServeError::Serve(_, reason) => reason.clone(),
            ServeError::Unserved(id) => String::from_str("guest `").concat(id.as_str()).concat(
                "` was not served",
            ),
            ServeError::Link(error) => error.text(),
        }
    }
}

/// What serving a guest gave: its endpoint, `None` where it exports nothing
/// linked, or why it could not be served.
pub type Served<E> = Result<Option<E>, String>;

/// The identities of a sequence of entries.
pub open spec fn entry_ids<T>(entries: Seq<(Seq<char>, Guest<T>)>) -> Seq<Seq<char>> {
    entries.map_values(|e: (Seq<char>, Guest<T>)| e.0)
}

/// The identities from `from` on.
pub open spec fn ids_from(ids: Seq<Seq<char>>, from: int) -> Set<Seq<char>> {
    Set::new(|id: Seq<char>| exists|i: int| from <= i < ids.len() && #[trigger] ids[i] == id)
}

/// The endpoints with those of the first `n` served guests added.
pub open spec fn with_served<E>(
    endpoints: Map<Seq<char>, Option<E>>,
    ids: Seq<Seq<char>>,
    served: Seq<Served<E>>,
    n: nat,
) -> Map<Seq<char>, Option<E>>
    decreases n,
{
    if n == 0 {
        endpoints
    } else {
        with_served(endpoints, ids, served, (n - 1) as nat).insert(ids[n - 1], served[n - 1]->Ok_0)
    }
}

/// The refusal of the first guest, from `i` on, that is not served or whose
/// endpoint is already pending, if any.
pub open spec fn serve_refusal<E>(
    pending: Map<Seq<char>, Option<E>>,
    ids: Seq<Seq<char>>,
    served: Seq<Served<E>>,
    i: int,
) -> Option<ServeErrorModel>
    decreases ids.len() - i,
{
    if i < 0 || i >= ids.len() {
        None
    } else if i >= served.len() {
        Some(ServeErrorModel::Unserved(ids[i]))
    } else {
        match served[i] {
            Err(reason) => Some(ServeErrorModel::Serve(ids[i], reason@)),
            Ok(_) => if pending.dom().contains(ids[i]) {
                Some(ServeErrorModel::Pending(ids[i]))
            } else {
                serve_refusal(pending, ids, served, i + 1)
            },
        }
    }
}

/// How many guests go live before the first that already is.
pub open spec fn live_prefix<E>(
    live: Map<Seq<char>, Option<E>>,
    ids: Seq<Seq<char>>,
    i: nat,
) -> nat
    decreases ids.len() - i,
{
    if i >= ids.len() || live.dom().contains(ids[i as int]) {
        i
    } else {
        live_prefix(live, ids, i + 1)
    }
}

proof fn lemma_with_served<E>(
    endpoints: Map<Seq<char>, Option<E>>,
    ids: Seq<Seq<char>>,
    served: Seq<Served<E>>,
    n: nat,
)
    requires
        n <= ids.len(),
    ensures
        forall|id: Seq<char>|
            #[trigger] with_served(endpoints, ids, served, n).dom().contains(id) <==> (
            endpoints.dom().contains(id) || exists|i: int| 0 <= i < n && #[trigger] ids[i] == id),
        forall|id: Seq<char>|
            !(exists|i: int| 0 <= i < n && #[trigger] ids[i] == id) ==> #[trigger] with_served(
                endpoints,
                ids,
                served,
                n,
            )[id] == endpoints[id],
    decreases n,
{
    if n > 0 {
        lemma_with_served(endpoints, ids, served, (n - 1) as nat);
        let before = with_served(endpoints, ids, served, (n - 1) as nat);
        assert forall|id: Seq<char>| #[trigger]
            with_served(endpoints, ids, served, n).dom().contains(id) <==> (
        endpoints.dom().contains(id) || exists|i: int| 0 <= i < n && #[trigger] ids[i] == id) by {
            if exists|i: int| 0 <= i < n && #[trigger] ids[i] == id {
                let i = choose|i: int| 0 <= i < n && #[trigger] ids[i] == id;
                if i < n - 1 {
                    assert(before.dom().contains(id));
                }
            }
            if before.dom().contains(id) && !endpoints.dom().contains(id) {
                let i = choose|i: int| 0 <= i < n - 1 && #[trigger] ids[i] == id;
                assert(0 <= i < n && ids[i] == id);
            }
            if id == ids[n - 1] {
                assert(0 <= n - 1 < n && ids[n - 1] == id);
            }
        }
        assert forall|id: Seq<char>|
            !(exists|i: int| 0 <= i < n && #[trigger] ids[i] == id) implies #[trigger] with_served(
            endpoints,
            ids,
            served,
            n,
        )[id] == endpoints[id] by {
            assert(ids[n - 1] != id);
            if exists|i: int| 0 <= i < n - 1 && #[trigger] ids[i] == id {
                let i = choose|i: int| 0 <= i < n - 1 && #[trigger] ids[i] == id;
                assert(0 <= i < n && ids[i] == id);
            }
        }
    }
}

proof fn lemma_serve_refusal_free<E>(
    pending: Map<Seq<char>, Option<E>>,
    ids: Seq<Seq<char>>,
    served: Seq<Served<E>>,
    i: int,
    k: int,
)
    requires
        serve_refusal(pending, ids, served, i) is None,
        0 <= i <= k < ids.len(),
    ensures
        !pending.dom().contains(ids[k]),
        k < served.len(),
        served[k] is Ok,
    decreases k - i,
{
    if i < k {
        lemma_serve_refusal_free(pending, ids, served, i + 1, k);
    }
}

impl<E> InProcess<E> {
    /// Drop the pending endpoints of the guests from `from` on.
    fn discard_from(&mut self, ids: &Vec<GuestId>, from: usize)
        requires
            old(self).wf(),
        ensures
            final(self).wf(),
            final(self).live() == old(self).live(),
            final(self).pending() == old(self).pending().remove_keys(
                ids_from(id_views(ids@), from as int),
            ),
    {
        let ghost names = id_views(ids@);
        let mut i: usize = ids.len();
        proof {
            assert(self.pending() =~= old(self).pending().remove_keys(ids_from(names, i as int)));
            if from > i {
                assert(ids_from(names, from as int) =~= ids_from(names, i as int));
            }
        }
        while i > from
            invariant
                i <= ids@.len(),
                names == id_views(ids@),
                from <= i || ids_from(names, from as int) =~= ids_from(names, i as int),
                self.wf(),
                self.live() == old(self).live(),
                self.pending() == old(self).pending().remove_keys(ids_from(names, i as int)),
            decreases i,
        {
            i = i - 1;
            self.discard(&ids[i]);
            proof {
                assert forall|id: Seq<char>| #[trigger]
                    ids_from(names, i as int).contains(id) <==> ids_from(
                    names,
                    i + 1,
                ).contains(id) || id == names[i as int] by {
                    if ids_from(names, i as int).contains(id) {
                        let k = choose|k: int| i <= k < names.len() && #[trigger] names[k] == id;
                        if k > i {
                            assert(i + 1 <= k < names.len() && names[k] == id);
                        }
                    }
                    if ids_from(names, i + 1).contains(id) {
                        let k = choose|k: int|
                            i + 1 <= k < names.len() && #[trigger] names[k] == id;
                        assert(i <= k < names.len() && names[k] == id);
                    }
                    assert(i <= i < names.len() && names[i as int] == names[i as int]);
                }
                assert(self.pending() =~= old(self).pending().remove_keys(
                    ids_from(names, i as int),
                ));
            }
        }
    }
}

impl<E> InProcess<E> {
    /// Park what serving the guests gave, then publish them all. On any
    /// failure, what is still parked is released, so a failed bootstrap pins
    /// nothing.
    fn serve_all(&mut self, ids: &Vec<GuestId>, served: Vec<Served<E>>) -> (r: Result<
        (),
        ServeError,
    >)
        requires
            old(self).wf(),
            forall|i: int, k: int|
                0 <= i < k < ids@.len() ==> (#[trigger] ids@[i])@ != (#[trigger] ids@[k])@,
        ensures
            final(self).wf(),
            final(self).pending() == old(self).pending().remove_keys(ids_from(id_views(ids@), 0)),
            ({
                let names = id_views(ids@);
                let reached = live_prefix(old(self).live(), names, 0);
                match r {
                    Ok(()) => {
                        &&& serve_refusal(old(self).pending(), names, served@, 0) is None
                        &&& reached == names.len()
                        &&& final(self).live() == with_served(
                            old(self).live(),
                            names,
                            served@,
                            names.len(),
                        )
                    },
                    Err(e) => match serve_refusal(old(self).pending(), names, served@, 0) {
                        Some(refusal) => e@ == refusal && final(self).live() == old(self).live(),
                        None => {
                            &&& reached < names.len()
                            &&& e@ == ServeErrorModel::Live(names[reached as int])
                            &&& final(self).live() == with_served(
                                old(self).live(),
                                names,
                                served@,
                                reached,
                            )
                        },
                    },
                }
            }),
    {
        let ghost names = id_views(ids@);
        let ghost pending0 = self.pending();
        let ghost live0 = self.live();
        let ghost all = served@;
        let mut rest = served;
        let mut i: usize = 0;
        proof {
            assert forall|a: int, b: int| 0 <= a < b < names.len() implies names[a] != names[b] by {
                assert(ids@[a]@ != ids@[b]@);
            }
            assert(all.skip(0) =~= all);
        }
        while i < ids.len()
            invariant
                i <= ids@.len(),
                names == id_views(ids@),
                forall|a: int, b: int| 0 <= a < b < names.len() ==> names[a] != names[b],
                self.wf(),
                self.live() == live0,
                pending0 == old(self).pending(),
                live0 == old(self).live(),
                i <= all.len() || serve_refusal(pending0, names, all, 0) is Some,
                all == served@,
                rest@ == all.skip(i as int),
                i <= all.len(),
                self.pending() == with_served(pending0, names, all, i as nat),
                serve_refusal(pending0, names, all, 0) == serve_refusal(
                    pending0,
                    names,
                    all,
                    i as int,
                ),
                forall|k: int| 0 <= k < i ==> (#[trigger] all[k]) is Ok,
            decreases ids@.len() - i,
        {
            proof {
                lemma_with_served(pending0, names, all, i as nat);
            }
            if rest.len() == 0 {
                self.discard_from(ids, 0);
                proof {
                    lemma_discarded(pending0, names, all, i as nat);
                }
                return Err(ServeError::Unserved(ids[i].copy()));
            }
            let next = rest.remove(0);
            assert(rest@ =~= all.skip(i + 1));
            assert(next == all[i as int]);
            match next {
                Err(reason) => {
                    self.discard_from(ids, 0);
                    proof {
                        lemma_discarded(pending0, names, all, i as nat);
                    }
                    return Err(ServeError::Serve(ids[i].copy(), reason));
                },
                Ok(endpoint) => {
                    match self.park(&ids[i], endpoint) {
                        Err(error) => {
                            proof {
                                if !pending0.dom().contains(names[i as int]) {
                                    let k = choose|k: int|
                                        0 <= k < i && #[trigger] names[k] == names[i as int];
                                    assert(names[k] != names[i as int]);
                                }
                            }
                            self.discard_from(ids, 0);
                            proof {
                                lemma_discarded(pending0, names, all, i as nat);
                            }
                            return Err(ServeError::Link(error));
                        },
                        Ok(()) => {},
                    }
                },
            }
            i = i + 1;
        }
        let n = ids.len();
        let mut published: usize = 0;
        proof {
            lemma_with_served(pending0, names, all, n as nat);
            assert(ids_from(names, 0) =~= ids_from(names, published as int));
            lemma_undone(pending0, names, all);
        }
        while published < n
            invariant
                published <= n,
                n == ids@.len(),
                names == id_views(ids@),
                forall|a: int, b: int| 0 <= a < b < names.len() ==> names[a] != names[b],
                self.wf(),
                pending0 == old(self).pending(),
                live0 == old(self).live(),
                all == served@,
                serve_refusal(pending0, names, all, 0) is None,
                live_prefix(live0, names, 0) == live_prefix(live0, names, published as nat),
                self.live() == with_served(live0, names, all, published as nat),
                pending_left(pending0, names, all, published as nat, self.pending()),
            decreases n - published,
        {
            proof {
                lemma_serve_refusal_free(pending0, names, all, 0, published as int);
                lemma_with_served(live0, names, all, published as nat);
                lemma_with_served(pending0, names, all, n as nat);
                lemma_pending_value(pending0, names, all, n as nat, published as int);
                assert(self.pending().dom().contains(names[published as int]));
            }
            let ghost left = self.pending();
            match self.publish(&ids[published]) {
                Err(error) => {
                    proof {
                        if !live0.dom().contains(names[published as int]) {
                            let k = choose|k: int|
                                0 <= k < published && #[trigger] names[k]
                                    == names[published as int];
                            assert(names[k] != names[published as int]);
                        }
                    }
                    let ghost refused = self.pending();
                    self.discard_from(ids, published + 1);
                    proof {
                        lemma_left_discarded(pending0, names, all, published as nat, refused);
                    }
                    return Err(ServeError::Link(error));
                },
                Ok(()) => {
                    proof {
                        assert(!live0.dom().contains(names[published as int]));
                        lemma_left_step(pending0, names, all, published as nat, left);
                    }
                },
            }
            published = published + 1;
        }
        proof {
            lemma_left_discarded(pending0, names, all, n as nat, self.pending());
            assert(self.pending().remove_keys(ids_from(names, n + 1)) =~= self.pending());
        }
        Ok(())
    }
}

/// What is pending when the first `n` of the served guests have gone live.
spec fn pending_left<E>(
    pending: Map<Seq<char>, Option<E>>,
    ids: Seq<Seq<char>>,
    served: Seq<Served<E>>,
    n: nat,
    left: Map<Seq<char>, Option<E>>,
) -> bool {
    left == with_served(pending, ids, served, ids.len()).remove_keys(
        Set::new(|id: Seq<char>| exists|i: int| 0 <= i < n && #[trigger] ids[i] == id),
    )
}

proof fn lemma_left_step<E>(
    pending: Map<Seq<char>, Option<E>>,
    ids: Seq<Seq<char>>,
    served: Seq<Served<E>>,
    n: nat,
    left: Map<Seq<char>, Option<E>>,
)
    requires
        n < ids.len(),
        pending_left(pending, ids, served, n, left),
    ensures
        pending_left(pending, ids, served, n + 1, left.remove(ids[n as int])),
{
    let before = Set::new(|id: Seq<char>| exists|i: int| 0 <= i < n && #[trigger] ids[i] == id);
    let after = Set::new(|id: Seq<char>| exists|i: int| 0 <= i < n + 1 && #[trigger] ids[i] == id);
    assert forall|id: Seq<char>| #[trigger] after.contains(id) <==> before.contains(id) || id
        == ids[n as int] by {
        if after.contains(id) {
            let i = choose|i: int| 0 <= i < n + 1 && #[trigger] ids[i] == id;
            if i < n {
                assert(0 <= i < n && ids[i] == id);
            }
        }
        if before.contains(id) {
            let i = choose|i: int| 0 <= i < n && #[trigger] ids[i] == id;
            assert(0 <= i < n + 1 && ids[i] == id);
        }
        assert(0 <= n < n + 1 && ids[n as int] == ids[n as int]);
    }
    let all = with_served(pending, ids, served, ids.len());
    assert(left.remove(ids[n as int]) =~= all.remove_keys(after));
}

proof fn lemma_undone<E>(
    pending: Map<Seq<char>, Option<E>>,
    ids: Seq<Seq<char>>,
    served: Seq<Served<E>>,
)
    ensures
        pending_left(
            pending,
            ids,
            served,
            0,
            with_served(pending, ids, served, ids.len()),
        ),
{
    let all = with_served(pending, ids, served, ids.len());
    let none = Set::new(|id: Seq<char>| exists|i: int| 0 <= i < 0 && #[trigger] ids[i] == id);
    assert(none =~= Set::empty());
    assert(all.remove_keys(none) =~= all);
}

proof fn lemma_discarded<E>(
    pending: Map<Seq<char>, Option<E>>,
    ids: Seq<Seq<char>>,
    served: Seq<Served<E>>,
    n: nat,
)
    requires
        n <= ids.len(),
    ensures
        with_served(pending, ids, served, n).remove_keys(ids_from(ids, 0)) == pending.remove_keys(
            ids_from(ids, 0),
        ),
{
    lemma_with_served(pending, ids, served, n);
    let a = with_served(pending, ids, served, n).remove_keys(ids_from(ids, 0));
    let b = pending.remove_keys(ids_from(ids, 0));
    assert forall|id: Seq<char>| a.dom().contains(id) <==> b.dom().contains(id) by {
        if with_served(pending, ids, served, n).dom().contains(id) && !pending.dom().contains(id) {
            let i = choose|i: int| 0 <= i < n && #[trigger] ids[i] == id;
            assert(0 <= i < ids.len() && ids[i] == id);
            assert(ids_from(ids, 0).contains(id));
        }
    }
    assert forall|id: Seq<char>| a.dom().contains(id) implies a[id] == b[id] by {
        if exists|i: int| 0 <= i < n && #[trigger] ids[i] == id {
            let i = choose|i: int| 0 <= i < n && #[trigger] ids[i] == id;
            assert(0 <= i < ids.len() && ids[i] == id);
            assert(ids_from(ids, 0).contains(id));
        }
    }
    assert(a =~= b);
}

/// A served guest's endpoint is the one that serving it gave.
proof fn lemma_pending_value<E>(
    pending: Map<Seq<char>, Option<E>>,
    ids: Seq<Seq<char>>,
    served: Seq<Served<E>>,
    n: nat,
    k: int,
)
    requires
        0 <= k < n <= ids.len(),
        forall|a: int, b: int| 0 <= a < b < ids.len() ==> ids[a] != ids[b],
    ensures
        with_served(pending, ids, served, n).dom().contains(ids[k]),
        with_served(pending, ids, served, n)[ids[k]] == served[k]->Ok_0,
    decreases n,
{
    if k < n - 1 {
        lemma_pending_value(pending, ids, served, (n - 1) as nat, k);
        assert(ids[k] != ids[n - 1]);
    }
}

proof fn lemma_left_discarded<E>(
    pending: Map<Seq<char>, Option<E>>,
    ids: Seq<Seq<char>>,
    served: Seq<Served<E>>,
    n: nat,
    left: Map<Seq<char>, Option<E>>,
)
    requires
        n <= ids.len(),
        n == ids.len() ==> pending_left(pending, ids, served, n, left),
        n < ids.len() ==> left == with_served(pending, ids, served, ids.len()).remove_keys(
            Set::new(|id: Seq<char>| exists|i: int| 0 <= i < n && #[trigger] ids[i] == id),
        ).remove(ids[n as int]),
    ensures
        left.remove_keys(ids_from(ids, n as int + 1)) == pending.remove_keys(ids_from(ids, 0)),
{
    let all = with_served(pending, ids, served, ids.len());
    lemma_discarded(pending, ids, served, ids.len());
    let a = left.remove_keys(ids_from(ids, n as int + 1));
    let b = all.remove_keys(ids_from(ids, 0));
    assert forall|id: Seq<char>| a.dom().contains(id) <==> b.dom().contains(id) by {
        if ids_from(ids, 0).contains(id) {
            let i = choose|i: int| 0 <= i < ids.len() && #[trigger] ids[i] == id;
            if i < n {
                assert(0 <= i < n && ids[i] == id);
            } else if i > n {
                assert(n + 1 <= i < ids.len() && ids[i] == id);
                assert(ids_from(ids, n as int + 1).contains(id));
            }
        } else {
            if exists|i: int| 0 <= i < n && #[trigger] ids[i] == id {
                let i = choose|i: int| 0 <= i < n && #[trigger] ids[i] == id;
                assert(0 <= i < ids.len() && ids[i] == id);
            }
            if ids_from(ids, n as int + 1).contains(id) {
                let i = choose|i: int| n + 1 <= i < ids.len() && #[trigger] ids[i] == id;
                assert(0 <= i < ids.len() && ids[i] == id);
            }
            if n < ids.len() && id == ids[n as int] {
                assert(0 <= n < ids.len() && ids[n as int] == id);
            }
        }
    }
    assert(a =~= b);
}

/// Why a guest could not be registered at run time.
#[derive(Debug, PartialEq, Eq)]
pub enum RegisterError {
    /// Its linked exports could not be served, or their endpoint parked.
    Serve(ServeError),
    /// The registry refused it.
    Publish(PublishError),
}

impl RegisterError {
    pub open spec fn text_spec(self) -> Seq<char> {
        match self {
            RegisterError::Serve(error) => "serving guest `"@ + error.guest_spec()
                + "` link exports: "@ + error.text_spec(),
            RegisterError::Publish(error) => error.text_spec(),
        }
    }

    /// The refusal in words.
    pub fn text(&self) -> (text: String)
        ensures
            text@ == self.text_spec(),
    {
        match self {
            RegisterError::Serve(error) => String::from_str("serving guest `").concat(
                error.guest().as_str(),
            ).concat("` link exports: ").concat(error.text().as_str()),
            RegisterError::Publish(error) => error.text(),
        }
    }
}

impl<T, E> Registry<T, InProcess<E>> {
    /// The endpoints that calls reach.
    pub open spec fn live(&self) -> Map<Seq<char>, Option<E>> {
        self.link_seam().live()
    }

    /// The endpoints parked until they are published or discarded.
    pub open spec fn pending(&self) -> Map<Seq<char>, Option<E>> {
        self.link_seam().pending()
    }

    /// Register a guest at run time: park what serving its linked exports
    /// gave, then publish entry and endpoint as one transition, so that no
    /// dispatch resolves the entry and misses the endpoint, or vice versa. A
    /// failed registration leaves no partial state.
    ///
    /// # Errors
    ///
    /// Returns an error if the identity is already registered, or the guest's
    /// linked exports could not be served.
    pub fn register(&mut self, guest: Guest<T>, served: Served<E>) -> (r: Result<
        (),
        RegisterError,
    >)
        requires
            old(self).wf(),
        ensures
            final(self).wf(),
            final(self).same_deployment(old(self)),
            final(self).pending() == old(self).pending(),
            match r {
                Ok(()) => {
                    &&& !old(self).pending().dom().contains(guest.id_spec())
                    &&& !old(self).guest_map().dom().contains(guest.id_spec())
                    &&& !old(self).live().dom().contains(guest.id_spec())
                    &&& served is Ok
                    &&& final(self).guest_map() == old(self).guest_map().insert(
                        guest.id_spec(),
                        guest,
                    )
                    &&& final(self).live() == old(self).live().insert(
                        guest.id_spec(),
                        served->Ok_0,
                    )
                },
                Err(e) => {
                    &&& final(self).guest_map() == old(self).guest_map()
                    &&& final(self).live() == old(self).live()
                    &&& match e {
                        RegisterError::Serve(ServeError::Serve(id, reason)) => id@
                            == guest.id_spec() && served == Err::<Option<E>, String>(reason),
                        RegisterError::Serve(ServeError::Link(LinkError::Pending(id))) => id@
                            == guest.id_spec() && served is Ok && old(
                            self,
                        ).pending().dom().contains(guest.id_spec()),
                        RegisterError::Publish(PublishError::Occupied(id)) => id@
                            == guest.id_spec() && served is Ok && !old(
                            self,
                        ).pending().dom().contains(guest.id_spec()) && old(
                            self,
                        ).guest_map().dom().contains(guest.id_spec()),
                        RegisterError::Publish(PublishError::Transport(LinkError::Live(id))) => id@
                            == guest.id_spec() && served is Ok && !old(
                            self,
                        ).pending().dom().contains(guest.id_spec()) && !old(
                            self,
                        ).guest_map().dom().contains(guest.id_spec()) && old(
                            self,
                        ).live().dom().contains(guest.id_spec()),
                        _ => false,
                    }
                },
            },
            old(self).in_step() ==> final(self).in_step(),
    {
        let endpoint = match served {
            Err(reason) => {
                return Err(RegisterError::Serve(ServeError::Serve(guest.id().copy(), reason)));
            },
            Ok(endpoint) => endpoint,
        };
        let id = guest.id().copy();
        match self.seam.park(&id, endpoint) {
            Err(error) => {
                return Err(RegisterError::Serve(ServeError::Link(error)));
            },
            Ok(()) => {},
        }
        assert(self.seam.pending().remove(id@) =~= old(self).seam.pending());
        match self.publish(guest) {
            Ok(()) => Ok(()),
            Err(error) => Err(RegisterError::Publish(error)),
        }
    }

    /// Wire the serve side of every registered guest's linked exports, then
    /// publish them all under one transition so polyfilled imports can reach
    /// them. `served` holds what serving the guests gave, in the order of
    /// [`Registry::guests`].
    ///
    /// # Errors
    ///
    /// Returns an error if a guest's export could not be served, or a served
    /// guest already has an endpoint.
    pub fn serve_links(&mut self, served: Vec<Served<E>>) -> (r: Result<(), ServeError>)
        requires
            old(self).wf(),
        ensures
            final(self).wf(),
            final(self).same_deployment(old(self)),
            final(self).guest_map() == old(self).guest_map(),
            ({
                let ids = entry_ids(old(self).guest_seq());
                let reached = live_prefix(old(self).live(), ids, 0);
                &&& final(self).pending() == old(self).pending().remove_keys(ids_from(ids, 0))
                &&& match r {
                    Ok(()) => {
                        &&& serve_refusal(old(self).pending(), ids, served@, 0) is None
                        &&& reached == ids.len()
                        &&& final(self).live() == with_served(
                            old(self).live(),
                            ids,
                            served@,
                            ids.len(),
                        )
                    },
                    Err(e) => match serve_refusal(old(self).pending(), ids, served@, 0) {
                        Some(refusal) => e@ == refusal && final(self).live() == old(self).live(),
                        None => {
                            &&& reached < ids.len()
                            &&& e@ == ServeErrorModel::Live(ids[reached as int])
                            &&& final(self).live() == with_served(
                                old(self).live(),
                                ids,
                                served@,
                                reached,
                            )
                        },
                    },
                }
            }),
            r is Ok && old(self).live().dom().is_empty() ==> final(self).in_step(),
    {
        let mut ids: Vec<GuestId> = Vec::new();
        let mut i: usize = 0;
        while i < self.guests.len()
            invariant
                i <= self.guests.entries().len(),
                *self == *old(self),
                ids@.len() == i,
                forall|k: int| 0 <= k < i ==> (#[trigger] ids@[k])@ == self.guests.entries()[k].0,
            decreases self.guests.entries().len() - i,
        {
            ids.push(GuestId::new(self.guests.key_at(i).as_str()));
            i = i + 1;
        }
        proof {
            self.guests.lemma_sorted();
            assert(id_views(ids@) =~= entry_ids(self.guest_seq()));
            assert forall|a: int, b: int| 0 <= a < b < ids@.len() implies (#[trigger] ids@[a])@ != (
            #[trigger] ids@[b])@ by {
                crate::idmap::lemma_ascending_entry(self.guest_seq(), a);
                assert(self.guest_seq()[b].0 != self.guest_seq()[a].0);
            }
        }
        let ghost before = self.live();
        let r = self.seam.serve_all(&ids, served);
        proof {
            if r is Ok && before.dom().is_empty() {
                let names = entry_ids(old(self).guest_seq());
                lemma_with_served(before, names, served@, names.len());
                assert forall|id: Seq<char>|
                    self.live().dom().contains(id) <==> self.guest_map().dom().contains(id) by {
                    if self.live().dom().contains(id) {
                        let k = choose|k: int| 0 <= k < names.len() && #[trigger] names[k] == id;
                        assert(old(self).guest_seq()[k].0 == id);
                    }
                    if crate::idmap::has_key(old(self).guest_seq(), id) {
                        let k = choose|k: int|
                            0 <= k < old(self).guest_seq().len() && #[trigger] old(
                                self,
                            ).guest_seq()[k].0 == id;
                        assert(names[k] == id);
                    }
                }
                assert(self.live().dom() =~= self.guest_map().dom());
            }
        }
        r
    }
}

/// Registering a guest and removing it again restores the registry: `mid` is
/// what a successful [`Registry::register`] makes of `before`, and `after` what
/// a successful [`Registry::remove`] makes of `mid`.
pub proof fn removing_undoes_registering<T, E>(
    before: Registry<T, InProcess<E>>,
    mid: Registry<T, InProcess<E>>,
    after: Registry<T, InProcess<E>>,
    guest: Guest<T>,
    endpoint: Option<E>,
)
    requires
        !before.guest_map().dom().contains(guest.id_spec()),
        !before.live().dom().contains(guest.id_spec()),
        mid.same_deployment(&before),
        mid.pending() == before.pending(),
        mid.guest_map() == before.guest_map().insert(guest.id_spec(), guest),
        mid.live() == before.live().insert(guest.id_spec(), endpoint),
        after.same_deployment(&mid),
        after.pending() == mid.pending(),
        after.guest_map() == mid.guest_map().remove(guest.id_spec()),
        after.live() == mid.live().remove(guest.id_spec()),
    ensures
        after.same_deployment(&before),
        after.pending() == before.pending(),
        after.guest_map() == before.guest_map(),
        after.live() == before.live(),
{
    assert(after.guest_map() =~= before.guest_map());
    assert(after.live() =~= before.live());
}

/// The identities of loaded guests are theirs and no others.
pub proof fn loaded_identities_are_the_guests<T>(
    loaded: Seq<LoadedGuest<T>>,
    n: nat,
    id: Seq<char>,
)
    requires
        n <= loaded.len(),
    ensures
        loaded_ids(loaded, n).contains(id) <==> exists|i: int|
            0 <= i < n && (#[trigger] loaded[i]).id@ == id,
    decreases n,
{
    if n > 0 {
        let p = (n - 1) as nat;
        loaded_identities_are_the_guests(loaded, p, id);
        if loaded_ids(loaded, p).contains(id) {
            let i = choose|i: int| 0 <= i < p && (#[trigger] loaded[i]).id@ == id;
            assert(0 <= i < n && loaded[i].id@ == id);
        }
        if loaded[n - 1].id@ == id {
            assert(0 <= n - 1 < n && loaded[n - 1].id@ == id);
        }
    }
}

/// Whether guests can be registered together: each pre-instantiated, no two
/// under one identity.
pub open spec fn registrable<T>(loaded: Seq<LoadedGuest<T>>, n: nat) -> bool {
    &&& forall|i: int| 0 <= i < n ==> (#[trigger] loaded[i]).target is Ok
    &&& forall|i: int, k: int|
        0 <= i < k < n ==> (#[trigger] loaded[i]).id@ != (#[trigger] loaded[k]).id@
}

proof fn lemma_load_refusal<T>(loaded: Seq<LoadedGuest<T>>, n: nat)
    requires
        n <= loaded.len(),
    ensures
        load_refusal(loaded, n) is None <==> registrable(loaded, n),
        match load_refusal(loaded, n) {
            None => true,
            Some(AssembleErrorModel::PreInstantiate(id, reason)) => exists|i: int|
                0 <= i < n && (#[trigger] loaded[i]).id@ == id && loaded[i].target is Err
                    && loaded[i].target->Err_0@ == reason,
            Some(AssembleErrorModel::Duplicate(id)) => exists|i: int, k: int|
                0 <= i < k < n && (#[trigger] loaded[i]).id@ == id && (
                #[trigger] loaded[k]).id@ == id,
            Some(_) => false,
        },
    decreases n,
{
    if n > 0 {
        let p = (n - 1) as nat;
        lemma_load_refusal(loaded, p);
        let last = loaded[p as int];
        loaded_identities_are_the_guests(loaded, p, last.id@);
        match load_refusal(loaded, p) {
            Some(AssembleErrorModel::PreInstantiate(id, reason)) => {
                let i = choose|i: int|
                    0 <= i < p && (#[trigger] loaded[i]).id@ == id && loaded[i].target is Err
                        && loaded[i].target->Err_0@ == reason;
                assert(0 <= i < n && loaded[i].id@ == id);
                assert(!registrable(loaded, n));
            },
            Some(AssembleErrorModel::Duplicate(id)) => {
                let (i, k) = choose|i: int, k: int|
                    0 <= i < k < p && (#[trigger] loaded[i]).id@ == id && (
                    #[trigger] loaded[k]).id@ == id;
                assert(0 <= i < k < n && loaded[i].id@ == id && loaded[k].id@ == id);
                assert(!registrable(loaded, n));
            },
            Some(_) => {},
            None => {
                if last.target is Err {
                    assert(loaded[p as int].target is Err);
                } else if loaded_ids(loaded, p).contains(last.id@) {
                    let i = choose|i: int| 0 <= i < p && (#[trigger] loaded[i]).id@ == last.id@;
                    assert(0 <= i < p < n && loaded[i].id@ == loaded[p as int].id@);
                } else {
                    assert forall|i: int, k: int| 0 <= i < k < n implies (
                    #[trigger] loaded[i]).id@ != (#[trigger] loaded[k]).id@ by {
                        if k == p {
                            assert(loaded[i].id@ != last.id@);
                        }
                    }
                }
            },
        }
    }
}

proof fn lemma_stray(targets: Seq<Seq<char>>, registered: Set<Seq<char>>, i: int)
    requires
        0 <= i <= targets.len(),
    ensures
        match stray_target(targets, registered, i) {
            None => forall|k: int|
                i <= k < targets.len() ==> registered.contains(#[trigger] targets[k]),
            Some(id) => exists|k: int|
                i <= k < targets.len() && #[trigger] targets[k] == id && !registered.contains(id),
        },
    decreases targets.len() - i,
{
    if i < targets.len() {
        lemma_stray(targets, registered, i + 1);
        if registered.contains(targets[i]) {
            match stray_target(targets, registered, i + 1) {
                None => {
                    assert forall|k: int| i <= k < targets.len() implies registered.contains(
                        #[trigger] targets[k],
                    ) by {
                        if k > i {
                            assert(i + 1 <= k);
                        }
                    }
                },
                Some(id) => {
                    let k = choose|k: int|
                        i + 1 <= k < targets.len() && #[trigger] targets[k] == id
                            && !registered.contains(id);
                    assert(i <= k < targets.len() && targets[k] == id);
                },
            }
        } else {
            assert(i <= i < targets.len() && targets[i] == targets[i]);
        }
    }
}

/// A deployment assembles exactly where nothing speaks against it: it has a
/// guest, or may have none; every guest was pre-instantiated and no two carry
/// one identity; and every route names one of them.
pub proof fn sound_deployments_assemble<T>(
    loaded: Seq<LoadedGuest<T>>,
    targets: Seq<Seq<char>>,
    allow_empty: bool,
)
    ensures
        assembly_refusal(loaded, targets, allow_empty) is None <==> {
            &&& loaded.len() > 0 || allow_empty
            &&& registrable(loaded, loaded.len())
            &&& forall|k: int|
                0 <= k < targets.len() ==> exists|i: int|
                    0 <= i < loaded.len() && (#[trigger] loaded[i]).id@ == #[trigger] targets[k]
        },
{
    lemma_load_refusal(loaded, loaded.len());
    let ids = loaded_ids(loaded, loaded.len());
    lemma_stray(targets, ids, 0);
    if forall|k: int| 0 <= k < targets.len() ==> ids.contains(#[trigger] targets[k]) {
        assert forall|k: int| 0 <= k < targets.len() implies exists|i: int|
            0 <= i < loaded.len() && (#[trigger] loaded[i]).id@ == #[trigger] targets[k] by {
            assert(ids.contains(targets[k]));
            loaded_identities_are_the_guests(loaded, loaded.len(), targets[k]);
        }
    } else {
        let k = choose|k: int| 0 <= k < targets.len() && !ids.contains(#[trigger] targets[k]);
        loaded_identities_are_the_guests(loaded, loaded.len(), targets[k]);
        assert(!(exists|i: int|
            0 <= i < loaded.len() && (#[trigger] loaded[i]).id@ == targets[k]));
    }
}

/// A refused assembly names what is at fault: a guest that was not
/// pre-instantiated, with the reason, an identity that two guests carry, or a
/// route's target that no guest is.
pub proof fn assembly_refusals_name_the_fault<T>(
    loaded: Seq<LoadedGuest<T>>,
    targets: Seq<Seq<char>>,
    allow_empty: bool,
)
    ensures
        match assembly_refusal(loaded, targets, allow_empty) {
            None => true,
            Some(AssembleErrorModel::NoGuests) => loaded.len() == 0 && !allow_empty,
            Some(AssembleErrorModel::PreInstantiate(id, reason)) => exists|i: int|
                0 <= i < loaded.len() && (#[trigger] loaded[i]).id@ == id && loaded[i].target
                    is Err && loaded[i].target->Err_0@ == reason,
            Some(AssembleErrorModel::Duplicate(id)) => exists|i: int, k: int|
                0 <= i < k < loaded.len() && (#[trigger] loaded[i]).id@ == id && (
                #[trigger] loaded[k]).id@ == id,
            Some(AssembleErrorModel::RouteTarget(id)) => targets.contains(id) && forall|i: int|
                0 <= i < loaded.len() ==> (#[trigger] loaded[i]).id@ != id,
        },
{
    lemma_load_refusal(loaded, loaded.len());
    let ids = loaded_ids(loaded, loaded.len());
    lemma_stray(targets, ids, 0);
    if let Some(AssembleErrorModel::RouteTarget(id)) = assembly_refusal(
        loaded,
        targets,
        allow_empty,
    ) {
        loaded_identities_are_the_guests(loaded, loaded.len(), id);
    }
}

/// An assembled registry holds the loaded guests, each with its own target and
/// without a digest, and nothing else; all of them are there to stay.
pub proof fn registries_hold_the_loaded_guests<T, S: LinkSeam>(
    options: RuntimeOptions,
    loaded: Seq<LoadedGuest<T>>,
    routes: Routes,
    seam: S,
    allow_empty: bool,
    registry: Registry<T, S>,
    id: Seq<char>,
    i: int,
)
    requires
        assembled(options, loaded, routes, seam, allow_empty, Ok(registry)),
    ensures
        registry.guest_map().dom().contains(id) <==> exists|k: int|
            0 <= k < loaded.len() && (#[trigger] loaded[k]).id@ == id,
        registry.statics().contains(id) <==> registry.guest_map().dom().contains(id),
        0 <= i < loaded.len() ==> {
            let guest = registry.guest_map()[loaded[i].id@];
            loaded[i].target == Ok::<T, String>(guest.target_spec()) && guest.digest_spec() is None
        },
        registry.options_spec() == options,
        registry.link_seam() == seam,
        registry.route_targets().len() == routes.targets@.len(),
        0 <= i < routes.targets@.len() ==> registry.route_targets()[i] == routes.targets@[i]@,
{
    loaded_identities_are_the_guests(loaded, loaded.len(), id);
    if 0 <= i < loaded.len() {
        assert(loaded[i].id@ == loaded[i].id@);
    }
}

/// Serving puts every guest's endpoint in its place: of guests with distinct
/// identities each has what it was served with, and no other guest's endpoint
/// changes.
pub proof fn served_guests_are_reached<E>(
    endpoints: Map<Seq<char>, Option<E>>,
    ids: Seq<Seq<char>>,
    served: Seq<Served<E>>,
    n: nat,
    i: int,
    other: Seq<char>,
)
    requires
        n <= ids.len(),
        ids.no_duplicates(),
    ensures
        ({
            let now = with_served(endpoints, ids, served, n);
            &&& 0 <= i < n ==> now.dom().contains(ids[i]) && now[ids[i]] == served[i]->Ok_0
            &&& (forall|k: int| 0 <= k < n ==> #[trigger] ids[k] != other) ==> now.dom().contains(
                other,
            ) == endpoints.dom().contains(other) && (endpoints.dom().contains(other) ==> now[other]
                == endpoints[other])
        }),
    decreases n,
{
    if n > 0 {
        let p = (n - 1) as nat;
        served_guests_are_reached(endpoints, ids, served, p, i, other);
        if 0 <= i < p {
            assert(ids[i] != ids[p as int]);
        }
    }
}

/// Whether a guest can go live: it was served, and has no endpoint parked.
pub open spec fn servable<E>(
    pending: Map<Seq<char>, Option<E>>,
    ids: Seq<Seq<char>>,
    served: Seq<Served<E>>,
    k: int,
) -> bool {
    k < served.len() && served[k] is Ok && !pending.dom().contains(ids[k])
}

/// Guests are served together or not at all: nothing refuses them exactly
/// where each was served and none has an endpoint parked already.
pub proof fn guests_are_served_together<E>(
    pending: Map<Seq<char>, Option<E>>,
    ids: Seq<Seq<char>>,
    served: Seq<Served<E>>,
    i: int,
)
    requires
        0 <= i <= ids.len(),
    ensures
        serve_refusal(pending, ids, served, i) is None <==> forall|k: int|
            i <= k < ids.len() ==> #[trigger] servable(pending, ids, served, k),
    decreases ids.len() - i,
{
    if i < ids.len() {
        guests_are_served_together(pending, ids, served, i + 1);
        if !servable(pending, ids, served, i) {
            assert(serve_refusal(pending, ids, served, i) is Some);
        } else {
            assert(serve_refusal(pending, ids, served, i) == serve_refusal(
                pending,
                ids,
                served,
                i + 1,
            ));
        }
    }
}

/// Every guest goes live exactly where none is live already; and a guest that
/// stops the rest from going live is one that already is.
pub proof fn guests_go_live_together<E>(
    live: Map<Seq<char>, Option<E>>,
    ids: Seq<Seq<char>>,
    i: nat,
)
    requires
        i <= ids.len(),
    ensures
        ({
            let n = live_prefix(live, ids, i);
            &&& i <= n <= ids.len()
            &&& forall|k: int| i <= k < n ==> !live.dom().contains(#[trigger] ids[k])
            &&& n < ids.len() ==> live.dom().contains(ids[n as int])
        }),
    decreases ids.len() - i,
{
    if i < ids.len() && !live.dom().contains(ids[i as int]) {
        guests_go_live_together(live, ids, i + 1);
    }
}

/// A refused assembly tells the guest.
pub proof fn assembly_refusals_tell_the_guest(e: AssembleError)
    ensures
        match e {
            AssembleError::PreInstantiate(id, reason) => {
                &&& crate::text::holds(e.text_spec(), id@)
                &&& crate::text::holds(e.text_spec(), reason@)
            },
            AssembleError::Duplicate(id) => {
                &&& crate::text::holds(e.text_spec(), id@)
            },
            AssembleError::RouteTarget(id) => {
                &&& crate::text::holds(e.text_spec(), id@)
            },
            _ => true,
        },
{
    match e {
        AssembleError::PreInstantiate(id, reason) => {
            crate::text::holding_goes_on(id@);
            crate::text::holding_goes_on(reason@);
        },
        AssembleError::Duplicate(id) => {
            crate::text::holding_goes_on(id@);
        },
        AssembleError::RouteTarget(id) => {
            crate::text::holding_goes_on(id@);
        },
        _ => {},
    }
}

/// A refused removal tells the guest.
pub proof fn removal_refusals_tell_the_guest(e: RemoveError)
    ensures
        match e {
            RemoveError::Static(id) => {
                &&& crate::text::holds(e.text_spec(), id@)
            },
            RemoveError::NotRegistered(id) => {
                &&& crate::text::holds(e.text_spec(), id@)
            },
        },
{
    match e {
        RemoveError::Static(id) => {
            crate::text::holding_goes_on(id@);
        },
        RemoveError::NotRegistered(id) => {
            crate::text::holding_goes_on(id@);
        },
    }
}

/// A refused registration tells the guest.
pub proof fn registration_refusals_tell_the_guest(e: RegisterError)
    ensures
        match e {
            RegisterError::Serve(error) => {
                &&& crate::text::holds(e.text_spec(), error.guest_spec())
                &&& crate::text::holds(e.text_spec(), error.text_spec())
            },
            RegisterError::Publish(PublishError::Occupied(id)) => {
                &&& crate::text::holds(e.text_spec(), id@)
            },
            _ => true,
        },
{
    match e {
        RegisterError::Serve(error) => {
            crate::text::holding_goes_on(error.guest_spec());
            crate::text::holding_goes_on(error.text_spec());
        },
        RegisterError::Publish(PublishError::Occupied(id)) => {
            crate::text::holding_goes_on(id@);
        },
        _ => {},
    }
}

} // verus!
