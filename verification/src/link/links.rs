//! Guest-to-guest linking: what is polyfilled for whom, and the preamble of a
//! dispatched call.

use crate::chain::{ChainCtx, ChainPolicy, DepthExceeded};
use crate::link::decode::{read_plain_value, DecodeFault};
use crate::link::polyfill::{
    polyfill_component, polyfill_models, Extern, Polyfill, PolyfillError, PolyfillErrorModel,
    WiredLinks, WiredModel,
};
use crate::link::selector::{Forwarded, GuestSelector, SelectError, Selection};
use crate::link::transport::{ConnectError, InProcess};
use crate::options::RuntimeOptions;
use crate::registry::{assembled, AssembleError, GuestId, LoadedGuest, Registry, Routes};
use crate::seam::LinkSeam;
use crate::text::decimal_text;
use crate::value::{any_resource, Type, Val, ValModel};
use std::time::Duration;
use vstd::prelude::*;
use vstd::string::StringExecFns;

verus! {

/// A bootstrap guest and what its component imports.
pub struct GuestImports {
    pub id: GuestId,
    pub imports: Vec<Extern>,
}

/// What is defined for the first `n` bootstrap guests, and wired then.
pub open spec fn bootstrap_plan(
    guests: Seq<GuestImports>,
    interfaces: Seq<Seq<char>>,
    n: nat,
) -> Result<(Seq<Seq<(Seq<char>, Seq<WiredModel>)>>, Seq<WiredModel>), PolyfillErrorModel>
    decreases n,
{
    if n == 0 || n > guests.len() {
        Ok((Seq::empty(), Seq::empty()))
    } else {
        match bootstrap_plan(guests, interfaces, (n - 1) as nat) {
            Err(e) => Err(e),
            Ok((plans, wired)) => match crate::link::polyfill::component_plan(
                guests[n - 1].id@,
                guests[n - 1].imports@,
                interfaces,
                wired,
                guests[n - 1].imports@.len(),
            ) {
                Err(e) => Err(e),
                Ok((plan, now)) => Ok((plans.push(plan), now)),
            },
        }
    }
}

proof fn lemma_bootstrap_fault(
    guests: Seq<GuestImports>,
    interfaces: Seq<Seq<char>>,
    i: nat,
    n: nat,
)
    requires
        i <= n <= guests.len(),
        bootstrap_plan(guests, interfaces, i) is Err,
    ensures
        bootstrap_plan(guests, interfaces, n) == bootstrap_plan(guests, interfaces, i),
    decreases n,
{
    if i < n {
        lemma_bootstrap_fault(guests, interfaces, i, (n - 1) as nat);
    }
}

/// The models of what is defined for each guest.
pub open spec fn plan_models(plans: Seq<Vec<Polyfill>>) -> Seq<
    Seq<(Seq<char>, Seq<WiredModel>)>,
> {
    plans.map_values(|p: Vec<Polyfill>| polyfill_models(p@))
}

/// The link state of a deployment: the selector strategy, the declared link
/// interfaces, the chain policy, and the functions that the bootstrap
/// polyfilled onto the shared linker.
pub struct InProcessLinks<S> {
    selector: S,
    interfaces: Vec<String>,
    policy: ChainPolicy,
    wired: WiredLinks,
}

impl<S> InProcessLinks<S> {
    pub closed spec fn selector_spec(&self) -> S {
        self.selector
    }

    pub closed spec fn interface_names(&self) -> Seq<Seq<char>> {
        crate::text::views(self.interfaces@)
    }

    pub closed spec fn policy_spec(&self) -> ChainPolicy {
        self.policy
    }

    /// The functions polyfilled at bootstrap.
    pub closed spec fn wired_spec(&self) -> Seq<WiredModel> {
        self.wired@
    }

    /// Create the link state of a deployment linking `interfaces` under
    /// `policy`.
    #[must_use]
    pub fn new(selector: S, interfaces: Vec<String>, policy: ChainPolicy) -> (links: Self)
        ensures
            links.selector_spec() == selector,
            links.interface_names() == crate::text::views(interfaces@),
            links.policy_spec() == policy,
            links.wired_spec() == Seq::<WiredModel>::empty(),
    {
        InProcessLinks { selector, interfaces, policy, wired: WiredLinks::new() }
    }

    /// The deployment's host-mediated link interface names: the set of
    /// interfaces to polyfill (caller side) and serve (callee side).
    #[must_use]
    pub fn interfaces(&self) -> (r: &Vec<String>)
        ensures
            crate::text::views(r@) == self.interface_names(),
    {
        &self.interfaces
    }

    /// The chain policy.
    #[must_use]
    pub fn policy(&self) -> (r: &ChainPolicy)
        ensures
            *r == self.policy_spec(),
    {
        &self.policy
    }

    /// Polyfill the declared link imports of every bootstrap guest: what to
    /// define on the shared linker for each of them, in order.
    ///
    /// # Errors
    ///
    /// Returns an error if a linked import cannot be polyfilled; the record of
    /// what is wired is then as before.
    pub fn polyfill(&mut self, guests: &Vec<GuestImports>) -> (r: Result<
        Vec<Vec<Polyfill>>,
        PolyfillError,
    >)
        ensures
            final(self).selector_spec() == old(self).selector_spec(),
            final(self).interface_names() == old(self).interface_names(),
            final(self).policy_spec() == old(self).policy_spec(),
            if old(self).interface_names().len() == 0 {
                (r matches Ok(plans) && plans@.len() == 0) && final(self).wired_spec() == old(
                    self,
                ).wired_spec()
            } else {
                match r {
                    Ok(plans) => bootstrap_plan(
                        guests@,
                        old(self).interface_names(),
                        guests@.len(),
                    ) == Ok::<
                        (Seq<Seq<(Seq<char>, Seq<WiredModel>)>>, Seq<WiredModel>),
                        PolyfillErrorModel,
                    >((plan_models(plans@), final(self).wired_spec())),
                    Err(e) => bootstrap_plan(
                        guests@,
                        old(self).interface_names(),
                        guests@.len(),
                    ) == Err::<
                        (Seq<Seq<(Seq<char>, Seq<WiredModel>)>>, Seq<WiredModel>),
                        PolyfillErrorModel,
                    >(e@) && final(self).wired_spec() == old(self).wired_spec(),
                }
            },
    {
        let mut plans: Vec<Vec<Polyfill>> = Vec::new();
        if self.interfaces.len() == 0 {
            return Ok(plans);
        }
        let ghost names = self.interface_names();
        let mut wired = WiredLinks::new();
        let mut i: usize = 0;
        assert(plan_models(plans@) =~= Seq::empty());
        while i < guests.len()
            invariant
                i <= guests@.len(),
                *self == *old(self),
                names == self.interface_names(),
                names.len() > 0,
                bootstrap_plan(guests@, names, i as nat) == Ok::<
                    (Seq<Seq<(Seq<char>, Seq<WiredModel>)>>, Seq<WiredModel>),
                    PolyfillErrorModel,
                >((plan_models(plans@), wired@)),
            decreases guests@.len() - i,
        {
            let guest = &guests[i];
            match polyfill_component(&guest.id, &guest.imports, &self.interfaces, &mut wired) {
                Ok(plan) => {
                    let ghost done = plans@;
                    let ghost model = polyfill_models(plan@);
                    plans.push(plan);
                    assert(plan_models(plans@) =~= plan_models(done).push(model));
                },
                Err(e) => {
                    proof {
                        lemma_bootstrap_fault(guests@, names, (i + 1) as nat, guests@.len());
                    }
                    return Err(e);
                },
            }
            i = i + 1;
        }
        self.wired = wired;
        Ok(plans)
    }

    /// Polyfill a late guest's remaining link imports onto a clone of the
    /// shared linker. What is wired there must not leak into the bootstrap
    /// record.
    ///
    /// # Errors
    ///
    /// Returns an error if a linked import cannot be polyfilled.
    pub fn polyfill_late(&self, id: &GuestId, imports: &Vec<Extern>) -> (r: Result<
        Vec<Polyfill>,
        PolyfillError,
    >)
        ensures
            if self.interface_names().len() == 0 {
                r matches Ok(plans) && plans@.len() == 0
            } else {
                let plan = crate::link::polyfill::component_plan(
                    id@,
                    imports@,
                    self.interface_names(),
                    self.wired_spec(),
                    imports@.len(),
                );
                match r {
                    Ok(plans) => plan matches Ok((models, _)) && models == polyfill_models(plans@),
                    Err(e) => plan == Err::<
                        (Seq<(Seq<char>, Seq<WiredModel>)>, Seq<WiredModel>),
                        PolyfillErrorModel,
                    >(e@),
                }
            },
    {
        if self.interfaces.len() == 0 {
            return Ok(Vec::new());
        }
        let mut wired = self.wired.copy();
        polyfill_component(id, imports, &self.interfaces, &mut wired)
    }
}

/// What polyfilling the bootstrap guests comes to, and what is wired then:
/// nothing where no link interface is declared.
pub open spec fn bootstrapped(
    guests: Seq<GuestImports>,
    interfaces: Seq<Seq<char>>,
    wired: Seq<WiredModel>,
) -> Result<(Seq<Seq<(Seq<char>, Seq<WiredModel>)>>, Seq<WiredModel>), PolyfillErrorModel> {
    if interfaces.len() == 0 {
        Ok((Seq::empty(), wired))
    } else {
        bootstrap_plan(guests, interfaces, guests.len())
    }
}

/// Why a linked deployment could not be assembled.
#[derive(Debug, PartialEq, Eq)]
pub enum BootstrapError {
    /// A link import cannot be polyfilled.
    Polyfill(PolyfillError),
    /// A polyfill could not be defined on the linker.
    Define(String),
    /// The registry was refused.
    Assemble(AssembleError),
}

impl BootstrapError {
    pub open spec fn text_spec(self) -> Seq<char> {
        match self {
            BootstrapError::Polyfill(e) => e.text_spec(),
            BootstrapError::Define(reason) => reason@,
            BootstrapError::Assemble(e) => e.text_spec(),
        }
    }

    /// The refusal in words.
    pub fn text(&self) -> (text: String)
        ensures
            text@ == self.text_spec(),
    {
        match self {
            BootstrapError::Polyfill(e) => e.text(),
            BootstrapError::Define(reason) => reason.clone(),
            BootstrapError::Assemble(e) => e.text(),
        }
    }
}

/// Whether loaded guests are what `load` made of the guests on a linker, each
/// under its own identity and in order.
pub open spec fn loads<T, L, F: Fn(&L, &GuestId) -> Result<T, String>>(
    guests: Seq<GuestImports>,
    linker: L,
    load: F,
    loaded: Seq<LoadedGuest<T>>,
) -> bool {
    &&& loaded.len() == guests.len()
    &&& forall|i: int|
        0 <= i < guests.len() ==> (#[trigger] loaded[i]).id@ == guests[i].id@ && call_ensures(
            load,
            (&linker, &guests[i].id),
            loaded[i].target,
        )
}

/// Assemble a registry over the links: polyfill the link imports of every
/// guest, `define` the polyfills on the shared linker, `load` each guest on it
/// (pre-instantiate its component), then as [`Registry::assemble`].
///
/// # Errors
///
/// Returns an error if there are no guests to register (unless `allow_empty`),
/// link imports cannot be polyfilled or defined, a component cannot be
/// pre-instantiated, two guests carry one identity, or a route targets a guest
/// that is not registered.
pub fn assemble_linked<
    S,
    T,
    E,
    L,
    D: FnOnce(&Vec<Vec<Polyfill>>) -> Result<L, String>,
    F: Fn(&L, &GuestId) -> Result<T, String>,
>(
    links: &mut InProcessLinks<S>,
    options: RuntimeOptions,
    guests: &Vec<GuestImports>,
    routes: Routes,
    carrier: InProcess<E>,
    allow_empty: bool,
    define: D,
    load: F,
) -> (r: Result<Registry<T, InProcess<E>>, BootstrapError>)
    requires
        carrier.wf(),
        forall|plans: Vec<Vec<Polyfill>>| #[trigger] define.requires((&plans,)),
        forall|linker: L, id: GuestId| #[trigger] load.requires((&linker, &id)),
    ensures
        final(links).selector_spec() == old(links).selector_spec(),
        final(links).interface_names() == old(links).interface_names(),
        final(links).policy_spec() == old(links).policy_spec(),
        if guests@.len() == 0 && !allow_empty {
            final(links).wired_spec() == old(links).wired_spec() && r == Err::<
                Registry<T, InProcess<E>>,
                BootstrapError,
            >(BootstrapError::Assemble(AssembleError::NoGuests))
        } else {
            match bootstrapped(
                guests@,
                old(links).interface_names(),
                old(links).wired_spec(),
            ) {
                Err(refusal) => final(links).wired_spec() == old(links).wired_spec() && (
                r matches Err(BootstrapError::Polyfill(e)) && e@ == refusal),
                Ok((models, wired)) => {
                    &&& final(links).wired_spec() == wired
                    &&& exists|plans: Vec<Vec<Polyfill>>, defined: Result<L, String>|
                        {
                            &&& plan_models(plans@) == models
                            &&& #[trigger] define.ensures((&plans,), defined)
                            &&& match defined {
                                Err(reason) => r == Err::<Registry<T, InProcess<E>>, BootstrapError>(
                                    BootstrapError::Define(reason),
                                ),
                                Ok(linker) => exists|
                                    loaded: Seq<LoadedGuest<T>>,
                                    outcome: Result<Registry<T, InProcess<E>>, AssembleError>,
                                |
                                    {
                                        &&& loads(guests@, linker, load, loaded)
                                        &&& #[trigger] assembled(
                                            options,
                                            loaded,
                                            routes,
                                            carrier,
                                            allow_empty,
                                            outcome,
                                        )
                                        &&& match outcome {
                                            Ok(registry) => r == Ok::<
                                                Registry<T, InProcess<E>>,
                                                BootstrapError,
                                            >(registry),
                                            Err(e) => r == Err::<
                                                Registry<T, InProcess<E>>,
                                                BootstrapError,
                                            >(BootstrapError::Assemble(e)),
                                        }
                                    },
                            }
                        }
                },
            }
        },
{
    if guests.len() == 0 && !allow_empty {
        return Err(BootstrapError::Assemble(AssembleError::NoGuests));
    }
    let plans = match links.polyfill(guests) {
        Ok(plans) => plans,
        Err(e) => {
            return Err(BootstrapError::Polyfill(e));
        },
    };
    assert(links.interface_names().len() == 0 ==> plan_models(plans@) =~= Seq::empty());
    let defined = define(&plans);
    let ghost made = defined;
    assert(define.ensures((&plans,), made));
    let linker = match defined {
        Ok(linker) => linker,
        Err(reason) => {
            return Err(BootstrapError::Define(reason));
        },
    };
    let mut loaded: Vec<LoadedGuest<T>> = Vec::new();
    let mut i: usize = 0;
    while i < guests.len()
        invariant
            i <= guests@.len(),
            loaded@.len() == i,
            forall|linker: L, id: GuestId| #[trigger] load.requires((&linker, &id)),
            forall|k: int|
                0 <= k < i ==> (#[trigger] loaded@[k]).id@ == guests@[k].id@ && call_ensures(
                    load,
                    (&linker, &guests@[k].id),
                    loaded@[k].target,
                ),
        decreases guests@.len() - i,
    {
        let id = &guests[i].id;
        let target = load(&linker, id);
        loaded.push(LoadedGuest { id: id.copy(), target });
        i = i + 1;
    }
    let ghost all = loaded@;
    assert(loads(guests@, linker, load, all));
    let outcome = Registry::assemble(options, loaded, routes, carrier, allow_empty);
    assert(assembled(options, all, routes, carrier, allow_empty, outcome));
    match outcome {
        Ok(registry) => Ok(registry),
        Err(e) => Err(BootstrapError::Assemble(e)),
    }
}

/// Why a call could not be dispatched.
#[derive(Debug, PartialEq, Eq)]
pub enum PrepareError {
    /// No target could be derived from it.
    Select { interface: String, func: String, reason: String },
    /// A parameter carries a resource handle.
    Resource { interface: String, func: String, target: String },
    /// It would exceed the maximum depth.
    Depth(DepthExceeded),
    /// The selector forwarded another number of parameters than the function
    /// takes.
    Arity { forwarded: usize, interface: String, func: String, expected: usize },
    /// The target cannot be reached.
    Connect(ConnectError),
}

impl PrepareError {
    pub open spec fn text_spec(self) -> Seq<char> {
        match self {
            PrepareError::Select { interface, func, reason } => "selecting target for `"@
                + interface@ + "/"@ + func@ + "`: "@ + reason@,
            PrepareError::Resource { interface, func, target } => "a resource handle cannot cross the link seam (call to `"@
                + interface@ + "/"@ + func@ + "`, target `"@ + target@ + "`)"@,
            PrepareError::Depth(e) => crate::chain::depth_text(
                e.depth as nat,
                e.max_depth as nat,
                e.target@,
            ),
            PrepareError::Arity { forwarded, interface, func, expected } => "selector forwarded "@
                + crate::text::decimal(forwarded as nat) + " arguments but `"@ + interface@ + "/"@
                + func@ + "` expects "@ + crate::text::decimal(expected as nat),
            PrepareError::Connect(e) => e.text_spec(),
        }
    }

    /// The refusal in words.
    pub fn text(&self) -> (text: String)
        ensures
            text@ == self.text_spec(),
    {
        match self {
            PrepareError::Select { interface, func, reason } => String::from_str(
                "selecting target for `",
            ).concat(interface.as_str()).concat("/").concat(func.as_str()).concat("`: ").concat(
                reason.as_str(),
            ),
            PrepareError::Resource { interface, func, target } => String::from_str(
                "a resource handle cannot cross the link seam (call to `",
            ).concat(interface.as_str()).concat("/").concat(func.as_str()).concat(
                "`, target `",
            ).concat(target.as_str()).concat("`)"),
            PrepareError::Depth(e) => e.text(),
            PrepareError::Arity { forwarded, interface, func, expected } => String::from_str(
                "selector forwarded ",
            ).concat(decimal_text(*forwarded as u64).as_str()).concat(" arguments but `").concat(
                interface.as_str(),
            ).concat("/").concat(func.as_str()).concat("` expects ").concat(
                decimal_text(*expected as u64).as_str(),
            ),
            PrepareError::Connect(e) => e.text(),
        }
    }
}

/// A prepared dispatch: everything its round trip needs.
pub struct Call<'a, E> {
    pub target: GuestId,
    pub forwarded: Forwarded,
    /// What the target is reached through.
    pub server: &'a E,
    /// The chain context the call runs at; where it is uncapped, the round
    /// trip skips the wall-clock bound.
    pub ctx: ChainCtx,
}

/// The parameters that a selection forwards of a call's.
pub open spec fn forwarded_params(forwarded: Forwarded, params: Seq<Val>) -> Seq<Val> {
    match forwarded {
        Forwarded::AsGiven => params,
        Forwarded::Reshaped(reshaped) => reshaped@,
    }
}

/// Whether one of the values carries a resource handle.
pub open spec fn carry_resource(vals: Seq<Val>) -> bool {
    exists|i: int|
        0 <= i < vals.len() && crate::value::carries_resource(
            #[trigger] crate::value::models(vals)[i],
        )
}

/// Whether a call, once a target is selected or refused, comes to `r`: crossing
/// resources are rejected, the depth is bounded, the arity is checked and the
/// target is reached, in that order.
pub open spec fn prepared<E>(
    policy: ChainPolicy,
    live: Map<Seq<char>, Option<E>>,
    current: ChainCtx,
    selection: Result<Selection, SelectError>,
    interface: Seq<char>,
    func: Seq<char>,
    params: Seq<Val>,
    param_count: usize,
    r: Result<Call<'_, E>, PrepareError>,
) -> bool {
    match selection {
        Err(e) => r matches Err(PrepareError::Select { interface: i, func: f, reason }) && i@
            == interface && f@ == func && reason == e.reason,
        Ok(chosen) => {
            let vals = forwarded_params(chosen.params, params);
            if carry_resource(vals) {
                r matches Err(PrepareError::Resource { interface: i, func: f, target }) && i@
                    == interface && f@ == func && target@ == chosen.id@
            } else if crate::chain::entered(policy.max_depth, current) is None {
                r matches Err(PrepareError::Depth(e)) && e.depth == current.depth + 1
                    && e.max_depth == policy.max_depth && e.target@ == chosen.id@
            } else if vals.len() != param_count {
                r matches Err(
                    PrepareError::Arity { forwarded, interface: i, func: f, expected },
                ) && forwarded == vals.len() && i@ == interface && f@ == func && expected
                    == param_count
            } else if !live.dom().contains(chosen.id@) {
                r matches Err(
                    PrepareError::Connect(ConnectError::NotRegistered { target }),
                ) && target@ == chosen.id@
            } else if live[chosen.id@] is None {
                r matches Err(
                    PrepareError::Connect(ConnectError::Unlinked { target, interface: i }),
                ) && target@ == chosen.id@ && i@ == interface
            } else {
                r matches Ok(call) && call.target == chosen.id && call.forwarded
                    == chosen.params && live[chosen.id@] == Some(*call.server) && Some(call.ctx)
                    == crate::chain::entered(policy.max_depth, current)
            }
        },
    }
}

/// The per-call preamble once a target is selected: reject crossing resources,
/// take a depth slot, check the arity, and reach the target, in that order.
///
/// # Errors
///
/// Returns an error if no target was selected, a parameter carries a resource
/// handle, the chain is too deep, the arity does not fit, or the target cannot
/// be reached.
pub fn prepare_selected<'a, E>(
    policy: &ChainPolicy,
    transport: &'a InProcess<E>,
    current: ChainCtx,
    selection: Result<Selection, SelectError>,
    interface: &str,
    func: &str,
    params: &Vec<Val>,
    param_count: usize,
) -> (r: Result<Call<'a, E>, PrepareError>)
    requires
        transport.wf(),
        current.depth < usize::MAX,
    ensures
        prepared(
            *policy,
            transport.live(),
            current,
            selection,
            interface@,
            func@,
            params@,
            param_count,
            r,
        ),
{
    let Selection { id, params: forwarded } = match selection {
        Ok(selection) => selection,
        Err(e) => {
            return Err(
                PrepareError::Select {
                    interface: String::from_str(interface),
                    func: String::from_str(func),
                    reason: e.reason,
                },
            );
        },
    };
    let (crosses, count) = match &forwarded {
        Forwarded::AsGiven => (any_resource(params), params.len()),
        Forwarded::Reshaped(reshaped) => (any_resource(reshaped), reshaped.len()),
    };
    if crosses {
        return Err(
            PrepareError::Resource {
                interface: String::from_str(interface),
                func: String::from_str(func),
                target: String::from_str(id.as_str()),
            },
        );
    }
    let ctx = match policy.enter(current, &id) {
        Ok(ctx) => ctx,
        Err(e) => {
            return Err(PrepareError::Depth(e));
        },
    };
    if count != param_count {
        return Err(
            PrepareError::Arity {
                forwarded: count,
                interface: String::from_str(interface),
                func: String::from_str(func),
                expected: param_count,
            },
        );
    }
    match transport.connect(&id, interface) {
        Ok(server) => Ok(Call { target: id, forwarded, server, ctx }),
        Err(e) => Err(PrepareError::Connect(e)),
    }
}

impl<S: GuestSelector> InProcessLinks<S> {
    /// The per-call preamble: select the target, then as
    /// [`prepare_selected`]. Whatever the strategy chooses, no resource handle
    /// crosses, the chain stays within its depth, and the target is a live
    /// one.
    ///
    /// # Errors
    ///
    /// Returns an error if no target can be selected, or the selected call is
    /// refused.
    pub fn prepare<'a, E>(
        &self,
        transport: &'a InProcess<E>,
        current: ChainCtx,
        interface: &str,
        func: &str,
        params: &Vec<Val>,
        param_count: usize,
    ) -> (r: Result<Call<'a, E>, PrepareError>)
        requires
            transport.wf(),
            current.depth < usize::MAX,
        ensures
            exists|selection: Result<Selection, SelectError>| #[trigger]
                call_ensures(
                    S::select,
                    (&self.selector_spec(), interface, func, params),
                    selection,
                ) && prepared(
                    self.policy_spec(),
                    transport.live(),
                    current,
                    selection,
                    interface@,
                    func@,
                    params@,
                    param_count,
                    r,
                ),
            r matches Ok(call) ==> {
                &&& !carry_resource(forwarded_params(call.forwarded, params@))
                &&& forwarded_params(call.forwarded, params@).len() == param_count
                &&& crate::chain::entered(self.policy_spec().max_depth, current) == Some(call.ctx)
                &&& transport.live().dom().contains(call.target@)
                &&& transport.live()[call.target@] == Some(*call.server)
            },
            r matches Err(PrepareError::Depth(e)) ==> crate::chain::entered(
                self.policy_spec().max_depth,
                current,
            ) is None,
    {
        let selection = self.selector.select(interface, func, params);
        prepare_selected(
            &self.policy,
            transport,
            current,
            selection,
            interface,
            func,
            params,
            param_count,
        )
    }
}

/// The wall-clock bound on a call's round trip: none on a command-rooted
/// chain.
pub fn time_bound(policy: &ChainPolicy, ctx: ChainCtx) -> (bound: Option<Duration>)
    ensures
        bound == (if ctx.uncapped {
            None
        } else {
            Some(policy.timeout)
        }),
{
    if ctx.uncapped {
        None
    } else {
        Some(policy.timeout)
    }
}

/// Decode the results of a call, one behind the other.
///
/// # Errors
///
/// Returns the index of the first result that does not decode, and why.
pub fn decode_results<'a>(bytes: &'a [u8], types: &Vec<Type>) -> (r: Result<
    (Vec<Val>, &'a [u8]),
    (usize, DecodeFault),
>)
    ensures
        match r {
            Ok((vals, rest)) => crate::link::decode::decode_tuple(
                types@,
                types@.len(),
                bytes@,
            ) == Ok::<(Seq<ValModel>, Seq<u8>), DecodeFault>(
                (crate::value::models(vals@), rest@),
            ),
            Err((i, f)) => i < types@.len() && crate::link::decode::decode_tuple(
                types@,
                i as nat,
                bytes@,
            ) is Ok && crate::link::decode::decode_tuple(types@, (i + 1) as nat, bytes@) == Err::<
                (Seq<ValModel>, Seq<u8>),
                DecodeFault,
            >(f),
        },
{
    let mut vals: Vec<Val> = Vec::new();
    let mut rest = bytes;
    let mut i: usize = 0;
    assert(crate::value::models(vals@) =~= Seq::empty());
    while i < types.len()
        invariant
            i <= types@.len(),
            crate::link::decode::decode_tuple(types@, i as nat, bytes@) == Ok::<
                (Seq<ValModel>, Seq<u8>),
                DecodeFault,
            >((crate::value::models(vals@), rest@)),
        decreases types@.len() - i,
    {
        match read_plain_value(rest, &types[i]) {
            Ok((val, next)) => {
                let ghost before = vals@;
                vals.push(val);
                assert(crate::value::models(vals@) =~= crate::value::models(before).push(
                    val.model(),
                ));
                rest = next;
            },
            Err(f) => {
                return Err((i, f));
            },
        }
        i = i + 1;
    }
    Ok((vals, rest))
}

/// Why a prepared call failed on its round trip.
#[derive(Debug, PartialEq, Eq)]
pub enum CallError {
    /// A parameter could not be encoded.
    Encode { interface: String, func: String, reason: String },
    /// A parameter would be sent behind the call.
    Deferred { interface: String, func: String },
    /// The target could not be invoked.
    Invoke { target: String, interface: String, func: String, reason: String },
    /// A result could not be decoded.
    Decode { index: usize, target: String, fault: DecodeFault },
    /// The call took longer than `after`.
    Timeout { target: String, interface: String, func: String, after: String },
}

impl CallError {
    pub open spec fn text_spec(self) -> Seq<char> {
        match self {
            CallError::Encode { interface, func, reason } => "encoding parameter for `"@
                + interface@ + "/"@ + func@ + "`: "@ + reason@,
            CallError::Deferred { interface, func } => "async/stream parameters cannot cross the link seam (`"@
                + interface@ + "/"@ + func@ + "`)"@,
            CallError::Invoke { target, interface, func, reason } => "invoking link target `"@
                + target@ + "` for `"@ + interface@ + "/"@ + func@ + "`: "@ + reason@,
            CallError::Decode { index, target, fault } => "decoding result "@
                + crate::text::decimal(index as nat) + " from `"@ + target@ + "`: "@
                + fault.text_spec(),
            CallError::Timeout { target, interface, func, after } => "link dispatch to `"@
                + target@ + "` for `"@ + interface@ + "/"@ + func@ + "` timed out after "@ + after@,
        }
    }

    /// The failure in words.
    pub fn text(&self) -> (text: String)
        ensures
            text@ == self.text_spec(),
    {
        match self {
            CallError::Encode { interface, func, reason } => String::from_str(
                "encoding parameter for `",
            ).concat(interface.as_str()).concat("/").concat(func.as_str()).concat("`: ").concat(
                reason.as_str(),
            ),
            CallError::Deferred { interface, func } => String::from_str(
                "async/stream parameters cannot cross the link seam (`",
            ).concat(interface.as_str()).concat("/").concat(func.as_str()).concat("`)"),
            CallError::Invoke { target, interface, func, reason } => String::from_str(
                "invoking link target `",
            ).concat(target.as_str()).concat("` for `").concat(interface.as_str()).concat(
                "/",
            ).concat(func.as_str()).concat("`: ").concat(reason.as_str()),
            CallError::Decode { index, target, fault } => String::from_str(
                "decoding result ",
            ).concat(decimal_text(*index as u64).as_str()).concat(" from `").concat(
                target.as_str(),
            ).concat("`: ").concat(fault.text().as_str()),
            CallError::Timeout { target, interface, func, after } => String::from_str(
                "link dispatch to `",
            ).concat(target.as_str()).concat("` for `").concat(interface.as_str()).concat(
                "/",
            ).concat(func.as_str()).concat("` timed out after ").concat(after.as_str()),
        }
    }
}

/// What a call's reply gives: its results, or which of them does not decode.
///
/// # Errors
///
/// Returns [`CallError::Decode`] for the first result that does not decode.
pub fn read_reply(bytes: &[u8], types: &Vec<Type>, target: &GuestId) -> (r: Result<
    Vec<Val>,
    CallError,
>)
    ensures
        match crate::link::decode::decode_tuple(types@, types@.len(), bytes@) {
            Ok((models, _)) => r matches Ok(vals) && crate::value::models(vals@) == models,
            Err(_) => r matches Err(CallError::Decode { index, target: from, fault }) && from@
                == target@ && index < types@.len() && crate::link::decode::decode_tuple(
                types@,
                index as nat,
                bytes@,
            ) is Ok && crate::link::decode::decode_tuple(types@, (index + 1) as nat, bytes@)
                == Err::<(Seq<ValModel>, Seq<u8>), DecodeFault>(fault),
        },
{
    match decode_results(bytes, types) {
        Ok((vals, _)) => Ok(vals),
        Err((index, fault)) => {
            proof {
                lemma_tuple_fault(types@, (index + 1) as nat, types@.len(), bytes@);
            }
            Err(CallError::Decode { index, target: String::from_str(target.as_str()), fault })
        },
    }
}

proof fn lemma_tuple_fault(types: Seq<Type>, i: nat, n: nat, bytes: Seq<u8>)
    requires
        i <= n <= types.len(),
        crate::link::decode::decode_tuple(types, i, bytes) is Err,
    ensures
        crate::link::decode::decode_tuple(types, n, bytes) == crate::link::decode::decode_tuple(
            types,
            i,
            bytes,
        ),
    decreases n,
{
    if i < n {
        lemma_tuple_fault(types, i, (n - 1) as nat, bytes);
    }
}

/// What a call is answered with never carries a resource handle.
pub proof fn replies_are_plain(types: Seq<Type>, n: nat, bytes: Seq<u8>, i: int)
    requires
        n <= types.len(),
        crate::link::decode::decode_tuple(types, n, bytes) is Ok,
        0 <= i < crate::link::decode::decode_tuple(types, n, bytes)->Ok_0.0.len(),
    ensures
        !crate::value::carries_resource(
            crate::link::decode::decode_tuple(types, n, bytes)->Ok_0.0[i],
        ),
    decreases n,
{
    if n > 0 {
        let before = crate::link::decode::decode_tuple(types, (n - 1) as nat, bytes);
        let (vals, rest) = before->Ok_0;
        if i < vals.len() {
            replies_are_plain(types, (n - 1) as nat, bytes, i);
        } else {
            crate::link::decode::decoded_values_are_plain(types[n - 1], rest);
        }
    }
}

/// Every bootstrap guest is polyfilled: there is a plan for each of the first
/// `n`, in order, and it defines exactly that guest's imports of the declared
/// interfaces; over all of them no function is wired twice.
pub proof fn every_guest_is_polyfilled(
    guests: Seq<GuestImports>,
    interfaces: Seq<Seq<char>>,
    n: nat,
)
    requires
        n <= guests.len(),
        forall|g: int, i: int|
            #![trigger guests[g], guests[g].imports@[i]]
            0 <= g < guests.len() && 0 <= i < guests[g].imports@.len() ==> (
            guests[g].imports@[i].interface matches Some(members)
                ==> crate::link::polyfill::distinct_members(members@)),
    ensures
        bootstrap_plan(guests, interfaces, n) matches Ok((plans, wired)) ==> {
            &&& plans.len() == n
            &&& forall|g: int|
                0 <= g < n ==> crate::link::polyfill::defined_names(#[trigger] plans[g])
                    == crate::link::polyfill::import_names(guests[g].imports@).filter(
                    crate::link::polyfill::declared(interfaces),
                )
            &&& crate::link::polyfill::wired_once(wired)
        },
    decreases n,
{
    if n > 0 {
        let p = (n - 1) as nat;
        every_guest_is_polyfilled(guests, interfaces, p);
        if let Ok((plans, wired)) = bootstrap_plan(guests, interfaces, n) {
            let (before, then) = bootstrap_plan(guests, interfaces, p)->Ok_0;
            let guest = guests[p as int];
            crate::link::polyfill::declared_imports_are_defined(
                guest.id@,
                guest.imports@,
                interfaces,
                then,
            );
            assert forall|i: int| 0 <= i < guest.imports@.len() implies ((
            #[trigger] guest.imports@[i]).interface matches Some(members)
                ==> crate::link::polyfill::distinct_members(members@)) by {
                assert(guests[p as int].imports@[i] == guest.imports@[i]);
            }
            crate::link::polyfill::importers_agree(
                guest.id@,
                guest.imports@,
                interfaces,
                then,
                0,
                0,
                Seq::empty(),
                Seq::empty(),
            );
        }
    }
}

/// Whether no value carries a resource handle.
pub open spec fn handle_free(vals: Seq<Val>) -> bool {
    forall|i: int|
        0 <= i < vals.len() ==> !crate::value::carries_resource((#[trigger] vals[i]).model())
}

/// A call goes out exactly where nothing speaks against it: a target was
/// selected, no forwarded parameter carries a handle, the chain has room for
/// one more hop, as many parameters are forwarded as the function takes, and
/// the target has a live endpoint. It then goes to that target, with what was
/// forwarded, one hop deeper and under the chain's own wall-clock policy.
pub proof fn calls_go_out_where_they_may<E>(
    policy: ChainPolicy,
    transport: InProcess<E>,
    current: ChainCtx,
    selection: Result<Selection, SelectError>,
    interface: &str,
    func: &str,
    params: Vec<Val>,
    param_count: usize,
    r: Result<Call<'_, E>, PrepareError>,
)
    requires
        current.depth < usize::MAX,
        call_ensures(
            prepare_selected::<E>,
            (
                &policy,
                &transport,
                current,
                selection,
                interface,
                func,
                &params,
                param_count,
            ),
            r,
        ),
    ensures
        r is Ok <==> (selection matches Ok(chosen) && {
            let vals = match chosen.params {
                Forwarded::AsGiven => params@,
                Forwarded::Reshaped(reshaped) => reshaped@,
            };
            &&& handle_free(vals)
            &&& current.depth + 1 <= policy.max_depth
            &&& vals.len() == param_count
            &&& transport.live().dom().contains(chosen.id@)
            &&& transport.live()[chosen.id@] is Some
        }),
        r matches Ok(call) ==> {
            &&& call.target == selection->Ok_0.id
            &&& call.forwarded == selection->Ok_0.params
            &&& transport.live()[call.target@] == Some(*call.server)
            &&& call.ctx.depth == current.depth + 1
            &&& call.ctx.uncapped == current.uncapped
        },
{
    if let Ok(chosen) = selection {
        match chosen.params {
            Forwarded::AsGiven => handles_are_seen_among_values(params@),
            Forwarded::Reshaped(reshaped) => handles_are_seen_among_values(reshaped@),
        }
    }
}

/// Values carry a handle exactly where one of them does.
pub proof fn handles_are_seen_among_values(vals: Seq<Val>)
    ensures
        !carry_resource(vals) <==> handle_free(vals),
{
    let models = crate::value::models(vals);
    assert forall|i: int| 0 <= i < vals.len() implies models[i] == (
    #[trigger] vals[i]).model() by {}
    if carry_resource(vals) {
        let i = choose|i: int|
            0 <= i < vals.len() && crate::value::carries_resource(
                #[trigger] crate::value::models(vals)[i],
            );
        assert(crate::value::carries_resource(vals[i].model()));
    } else {
        assert forall|i: int| 0 <= i < vals.len() implies !crate::value::carries_resource(
            (#[trigger] vals[i]).model(),
        ) by {
            assert(!crate::value::carries_resource(crate::value::models(vals)[i]));
        }
    }
}

/// A reply is read back: the bytes of the results that a call has, whatever
/// follows them, give those results.
pub proof fn replies_are_read_back(
    bytes: &[u8],
    types: Vec<Type>,
    target: GuestId,
    vals: Seq<ValModel>,
    more: Seq<u8>,
    r: Result<Vec<Val>, CallError>,
)
    requires
        call_ensures(read_reply, (bytes, &types, &target), r),
        bytes@ == crate::link::encode::encode_tuple(types@, vals, types@.len()) + more,
        vals.len() == types@.len(),
        forall|i: int|
            0 <= i < types@.len() ==> crate::link::encode::sound(#[trigger] types@[i]),
        forall|i: int|
            #![trigger types@[i]]
            0 <= i < types@.len() ==> crate::link::encode::has_type(types@[i], vals[i]),
    ensures
        r is Ok && crate::value::models(r->Ok_0@) == vals,
{
    crate::link::encode::tuples_are_read_back(types@, vals, types@.len(), more);
    assert(vals.take(types@.len() as int) =~= vals);
}

/// The wall clock bounds server chains and not command chains: a hop of a
/// chain that a command roots has no bound, one of any other chain has the
/// policy's.
pub proof fn only_command_chains_run_unbounded<F>(
    policy: ChainPolicy,
    work: F,
    command: crate::chain::Scoped<F>,
    root: ChainCtx,
    target: GuestId,
    from_command: ChainCtx,
    from_server: ChainCtx,
    unbounded: Option<Duration>,
    bounded: Option<Duration>,
)
    requires
        call_ensures(crate::chain::as_command_chain::<F>, (work,), command),
        call_ensures(crate::chain::current_chain, (None,), root),
        call_ensures(ChainPolicy::enter, (&policy, command.ctx, &target), Ok(from_command)),
        call_ensures(ChainPolicy::enter, (&policy, root, &target), Ok(from_server)),
        call_ensures(time_bound, (&policy, from_command), unbounded),
        call_ensures(time_bound, (&policy, from_server), bounded),
    ensures
        unbounded is None,
        bounded == Some(policy.timeout),
{
}

/// A call that does not go out is told with its function and its target.
pub proof fn prepare_refusals_name_the_call(e: PrepareError)
    ensures
        match e {
            PrepareError::Select { interface, func, reason } => {
                &&& crate::text::holds(e.text_spec(), interface@)
                &&& crate::text::holds(e.text_spec(), func@)
                &&& crate::text::holds(e.text_spec(), reason@)
            },
            PrepareError::Resource { interface, func, target } => {
                &&& crate::text::holds(e.text_spec(), interface@)
                &&& crate::text::holds(e.text_spec(), func@)
                &&& crate::text::holds(e.text_spec(), target@)
            },
            PrepareError::Arity { forwarded, interface, func, expected } => {
                &&& crate::text::holds(e.text_spec(), crate::text::decimal(forwarded as nat))
                &&& crate::text::holds(e.text_spec(), interface@)
                &&& crate::text::holds(e.text_spec(), func@)
                &&& crate::text::holds(e.text_spec(), crate::text::decimal(expected as nat))
            },
            _ => true,
        },
{
    match e {
        PrepareError::Select { interface, func, reason } => {
            crate::text::holding_goes_on(interface@);
            crate::text::holding_goes_on(func@);
            crate::text::holding_goes_on(reason@);
        },
        PrepareError::Resource { interface, func, target } => {
            crate::text::holding_goes_on(interface@);
            crate::text::holding_goes_on(func@);
            crate::text::holding_goes_on(target@);
        },
        PrepareError::Arity { forwarded, interface, func, expected } => {
            crate::text::holding_goes_on(crate::text::decimal(forwarded as nat));
            crate::text::holding_goes_on(interface@);
            crate::text::holding_goes_on(func@);
            crate::text::holding_goes_on(crate::text::decimal(expected as nat));
        },
        _ => {},
    }
}

/// A call that failed is told with its function, its target and the reason.
pub proof fn call_refusals_name_the_call(e: CallError)
    ensures
        match e {
            CallError::Encode { interface, func, reason } => {
                &&& crate::text::holds(e.text_spec(), interface@)
                &&& crate::text::holds(e.text_spec(), func@)
                &&& crate::text::holds(e.text_spec(), reason@)
            },
            CallError::Deferred { interface, func } => {
                &&& crate::text::holds(e.text_spec(), interface@)
                &&& crate::text::holds(e.text_spec(), func@)
            },
            CallError::Invoke { target, interface, func, reason } => {
                &&& crate::text::holds(e.text_spec(), target@)
                &&& crate::text::holds(e.text_spec(), interface@)
                &&& crate::text::holds(e.text_spec(), func@)
                &&& crate::text::holds(e.text_spec(), reason@)
            },
            CallError::Decode { index, target, fault } => {
                &&& crate::text::holds(e.text_spec(), crate::text::decimal(index as nat))
                &&& crate::text::holds(e.text_spec(), target@)
                &&& crate::text::holds(e.text_spec(), fault.text_spec())
            },
            CallError::Timeout { target, interface, func, after } => {
                &&& crate::text::holds(e.text_spec(), target@)
                &&& crate::text::holds(e.text_spec(), interface@)
                &&& crate::text::holds(e.text_spec(), func@)
                &&& crate::text::holds(e.text_spec(), after@)
            },
        },
{
    match e {
        CallError::Encode { interface, func, reason } => {
            crate::text::holding_goes_on(interface@);
            crate::text::holding_goes_on(func@);
            crate::text::holding_goes_on(reason@);
        },
        CallError::Deferred { interface, func } => {
            crate::text::holding_goes_on(interface@);
            crate::text::holding_goes_on(func@);
        },
        CallError::Invoke { target, interface, func, reason } => {
            crate::text::holding_goes_on(target@);
            crate::text::holding_goes_on(interface@);
            crate::text::holding_goes_on(func@);
            crate::text::holding_goes_on(reason@);
        },
        CallError::Decode { index, target, fault } => {
            crate::text::holding_goes_on(crate::text::decimal(index as nat));
            crate::text::holding_goes_on(target@);
            crate::text::holding_goes_on(fault.text_spec());
        },
        CallError::Timeout { target, interface, func, after } => {
            crate::text::holding_goes_on(target@);
            crate::text::holding_goes_on(interface@);
            crate::text::holding_goes_on(func@);
            crate::text::holding_goes_on(after@);
        },
    }
}

/// A deployment without link interfaces has nothing to polyfill, whatever its
/// guests import, and wires nothing.
pub proof fn nothing_is_polyfilled_undeclared(
    guests: Seq<GuestImports>,
    wired: Seq<WiredModel>,
)
    ensures
        bootstrapped(guests, Seq::empty(), wired) is Ok,
        bootstrapped(guests, Seq::empty(), wired)->Ok_0.0.len() == 0,
        bootstrapped(guests, Seq::empty(), wired)->Ok_0.1 == wired,
{
}

/// Polyfilling the bootstrap guests gives a plan for each of them.
pub proof fn bootstrap_plans_every_guest(
    guests: Seq<GuestImports>,
    interfaces: Seq<Seq<char>>,
    wired: Seq<WiredModel>,
)
    requires
        interfaces.len() > 0,
        bootstrapped(guests, interfaces, wired) is Ok,
    ensures
        bootstrapped(guests, interfaces, wired)->Ok_0.0.len() == guests.len(),
{
    lemma_plan_count(guests, interfaces, guests.len());
}

proof fn lemma_plan_count(guests: Seq<GuestImports>, interfaces: Seq<Seq<char>>, n: nat)
    requires
        n <= guests.len(),
    ensures
        bootstrap_plan(guests, interfaces, n) matches Ok((plans, _)) ==> plans.len() == n,
    decreases n,
{
    if n > 0 {
        lemma_plan_count(guests, interfaces, (n - 1) as nat);
    }
}

} // verus!
