//! Connected runtime: the state of a deployment and its guests' lifecycle.

use crate::extensions::Extensions;
use crate::link::transport::InProcess;
use crate::mount::MountRegistry;
use crate::options::RuntimeOptions;
use crate::registry::{
    Guest, GuestId, PublishError, RegisterError, Registry, RemoveError, ServeError, ServeErrorModel,
    Served,
};
use crate::seam::{LinkError, LinkSeam, NoLinks};
use crate::store::{StoreBase, StoreConfig};
use vstd::prelude::*;
use vstd::string::StringExecFns;

verus! {

/// Guest exit code. [`code_u8`](Self::code_u8) keeps only the low byte (POSIX
/// semantics).
#[derive(Debug, Clone, Copy, PartialEq, Eq, Structural)]
pub struct ExitStatus(i32);

impl ExitStatus {
    pub closed spec fn code_spec(self) -> i32 {
        self.0
    }

    /// Exit code `0`.
    pub fn success() -> (status: Self)
        ensures
            status.code_spec() == 0,
    {
        ExitStatus(0)
    }

    /// Full `i32` exit code from the guest.
    #[must_use]
    pub fn code(self) -> (code: i32)
        ensures
            code == self.code_spec(),
    {
        self.0
    }

    /// Low byte of the exit code (POSIX process status).
    #[must_use]
    pub fn code_u8(self) -> (low: u8)
        ensures
            low as int == self.code_spec() as int % 256,
    {
        ((self.0 as i64 + 0x1_0000_0000) as u64 % 256) as u8
    }
}

impl From<i32> for ExitStatus {
    fn from(code: i32) -> (status: ExitStatus)
        ensures
            status.code_spec() == code,
    {
        ExitStatus(code)
    }
}

impl vstd::std_specs::convert::FromSpecImpl<i32> for ExitStatus {
    open spec fn obeys_from_spec() -> bool {
        true
    }

    closed spec fn from_spec(code: i32) -> ExitStatus {
        ExitStatus(code)
    }
}

/// What driving a guest's `wasi:cli/run` came to.
pub enum RunOutcome {
    /// It returned.
    Returned(Result<(), ()>),
    /// It exited with a code.
    Exited(i32),
    /// It trapped without a guest exit code.
    Trapped(String),
}

/// The exit status of a guest that was run: `0` where it returned success, `1`
/// where it returned failure, the code it exited with.
///
/// # Errors
///
/// Returns the trap where the command trapped without a guest exit code.
pub fn exit_status(outcome: RunOutcome) -> (r: Result<ExitStatus, String>)
    ensures
        match outcome {
            RunOutcome::Returned(Ok(())) => r matches Ok(status) && status.code_spec() == 0,
            RunOutcome::Returned(Err(())) => r matches Ok(status) && status.code_spec() == 1,
            RunOutcome::Exited(code) => r matches Ok(status) && status.code_spec() == code,
            RunOutcome::Trapped(reason) => r == Err::<ExitStatus, String>(reason),
        },
{
    match outcome {
        RunOutcome::Returned(Ok(())) => Ok(ExitStatus(0)),
        RunOutcome::Returned(Err(())) => Ok(ExitStatus(1)),
        RunOutcome::Exited(code) => Ok(ExitStatus(code)),
        RunOutcome::Trapped(reason) => Err(reason),
    }
}

/// Why [`Runtime::admit_guest`] refused a late guest; each variant carries the
/// refusal's description.
#[derive(Debug, PartialEq, Eq)]
pub enum AdmitError {
    /// The bytes are a native artifact, not a valid raw wasm component, or
    /// failed pre-instantiation against the deployment's host set.
    ArtifactRefused(String),
    /// The identity is already registered: an earlier or racing registration
    /// holds it.
    AlreadyRegistered(String),
    /// Serve wiring or publication failed.
    Internal(String),
}

impl AdmitError {
    pub open spec fn text_spec(self) -> Seq<char> {
        match self {
            AdmitError::ArtifactRefused(reason) => reason@,
            AdmitError::AlreadyRegistered(reason) => reason@,
            AdmitError::Internal(reason) => reason@,
        }
    }

    /// The refusal in words.
    pub fn text(&self) -> (text: String)
        ensures
            text@ == self.text_spec(),
    {
        match self {
            AdmitError::ArtifactRefused(reason) => reason.clone(),
            AdmitError::AlreadyRegistered(reason) => reason.clone(),
            AdmitError::Internal(reason) => reason.clone(),
        }
    }
}

/// The refusal of an admission, as the contracts speak of it.
pub enum AdmitErrorModel {
    ArtifactRefused(Seq<char>),
    AlreadyRegistered(Seq<char>),
    Internal(Seq<char>),
}

impl View for AdmitError {
    type V = AdmitErrorModel;

    open spec fn view(&self) -> AdmitErrorModel {
        match *self {
            AdmitError::ArtifactRefused(reason) => AdmitErrorModel::ArtifactRefused(reason@),
            AdmitError::AlreadyRegistered(reason) => AdmitErrorModel::AlreadyRegistered(reason@),
            AdmitError::Internal(reason) => AdmitErrorModel::Internal(reason@),
        }
    }
}

/// What staging an artifact came to, before it is published.
pub enum Staged<T, E> {
    /// The artifact could not be loaded as a component.
    Invalid(String),
    /// The component does not pre-instantiate against the host set.
    Unlinkable(String),
    /// The component is pre-instantiated; serving its linked exports gave
    /// this.
    Linked(T, Served<E>),
}

/// Why an admission is refused, if it is: in the order of the stages.
pub open spec fn admit_refusal<T, E>(
    registry: Registry<T, InProcess<E>>,
    id: Seq<char>,
    staged: Staged<T, E>,
) -> Option<AdmitErrorModel> {
    match staged {
        Staged::Invalid(reason) => Some(
            AdmitErrorModel::ArtifactRefused("validating `"@ + id + "`: "@ + reason@),
        ),
        Staged::Unlinkable(reason) => Some(
            AdmitErrorModel::ArtifactRefused("pre-instantiating `"@ + id + "`: "@ + reason@),
        ),
        Staged::Linked(_, Err(reason)) => Some(
            AdmitErrorModel::Internal("serving `"@ + id + "` seam exports: "@ + reason@),
        ),
        Staged::Linked(_, Ok(_)) => if registry.pending().dom().contains(id) {
            Some(
                AdmitErrorModel::Internal(
                    "serving `"@ + id + "` seam exports: guest `"@ + id
                        + "` already has a pending endpoint"@,
                ),
            )
        } else if registry.guest_map().dom().contains(id) {
            Some(
                AdmitErrorModel::AlreadyRegistered("guest `"@ + id + "` is already registered"@),
            )
        } else if registry.live().dom().contains(id) {
            Some(
                AdmitErrorModel::Internal(
                    "publishing `"@ + id + "`: guest `"@ + id
                        + "` already has a live endpoint"@,
                ),
            )
        } else {
            None
        },
    }
}

/// Why a guest could not be registered from its artifact.
#[derive(Debug, PartialEq, Eq)]
pub enum ArtifactError {
    /// The artifact could not be loaded.
    Load(GuestId, String),
    /// The component's imports exceed the linked host set and the declared
    /// link interfaces.
    Link(String),
    /// The registration was refused.
    Register(RegisterError),
}

impl ArtifactError {
    pub open spec fn text_spec(self) -> Seq<char> {
        match self {
            ArtifactError::Load(id, reason) => "loading guest `"@ + id@ + "`: "@ + reason@,
            ArtifactError::Link(reason) => reason@,
            ArtifactError::Register(error) => error.text_spec(),
        }
    }

    /// The refusal in words.
    pub fn text(&self) -> (text: String)
        ensures
            text@ == self.text_spec(),
    {
        match self {
            ArtifactError::Load(id, reason) => String::from_str("loading guest `").concat(
                id.as_str(),
            ).concat("`: ").concat(reason.as_str()),
            ArtifactError::Link(reason) => reason.clone(),
            ArtifactError::Register(error) => error.text(),
        }
    }
}

/// The refusal of a registration, as the contracts speak of it.
pub enum ArtifactErrorModel {
    Load(Seq<char>, Seq<char>),
    Link(Seq<char>),
    Serve(ServeErrorModel),
    Occupied(Seq<char>),
    Pending(Seq<char>),
    Live(Seq<char>),
}

impl View for ArtifactError {
    type V = ArtifactErrorModel;

    open spec fn view(&self) -> ArtifactErrorModel {
        match *self {
            ArtifactError::Load(id, reason) => ArtifactErrorModel::Load(id@, reason@),
            ArtifactError::Link(reason) => ArtifactErrorModel::Link(reason@),
            ArtifactError::Register(RegisterError::Serve(error)) => ArtifactErrorModel::Serve(
                error@,
            ),
            ArtifactError::Register(RegisterError::Publish(error)) => match error {
                PublishError::Occupied(id) => ArtifactErrorModel::Occupied(id@),
                PublishError::Transport(LinkError::Pending(id)) => ArtifactErrorModel::Pending(id@),
                PublishError::Transport(LinkError::Live(id)) => ArtifactErrorModel::Live(id@),
            },
        }
    }
}

/// Why a registration is refused, if it is: an identity that is taken first,
/// then in the order of the stages.
pub open spec fn register_refusal<T, E>(
    registry: Registry<T, InProcess<E>>,
    id: Seq<char>,
    staged: Staged<T, E>,
) -> Option<ArtifactErrorModel> {
    if registry.guest_map().dom().contains(id) {
        Some(ArtifactErrorModel::Occupied(id))
    } else {
        match staged {
            Staged::Invalid(reason) => Some(ArtifactErrorModel::Load(id, reason@)),
            Staged::Unlinkable(reason) => Some(ArtifactErrorModel::Link(reason@)),
            Staged::Linked(_, Err(reason)) => Some(
                ArtifactErrorModel::Serve(ServeErrorModel::Serve(id, reason@)),
            ),
            Staged::Linked(_, Ok(_)) => if registry.pending().dom().contains(id) {
                Some(ArtifactErrorModel::Serve(ServeErrorModel::Pending(id)))
            } else if registry.live().dom().contains(id) {
                Some(ArtifactErrorModel::Live(id))
            } else {
                None
            },
        }
    }
}

/// Why a registration is refused, if it is, in a deployment that declares no
/// link interfaces.
pub open spec fn unlinked_refusal<T>(
    registry: Registry<T, NoLinks>,
    id: Seq<char>,
    staged: Staged<T, ()>,
) -> Option<ArtifactErrorModel> {
    if registry.guest_map().dom().contains(id) {
        Some(ArtifactErrorModel::Occupied(id))
    } else {
        match staged {
            Staged::Invalid(reason) => Some(ArtifactErrorModel::Load(id, reason@)),
            Staged::Unlinkable(reason) => Some(ArtifactErrorModel::Link(reason@)),
            Staged::Linked(_, _) => None,
        }
    }
}

/// Why an admission is refused, if it is, in a deployment that declares no link
/// interfaces: in the order of the stages.
pub open spec fn unlinked_admit_refusal<T>(
    registry: Registry<T, NoLinks>,
    id: Seq<char>,
    staged: Staged<T, ()>,
) -> Option<AdmitErrorModel> {
    match staged {
        Staged::Invalid(reason) => Some(
            AdmitErrorModel::ArtifactRefused("validating `"@ + id + "`: "@ + reason@),
        ),
        Staged::Unlinkable(reason) => Some(
            AdmitErrorModel::ArtifactRefused("pre-instantiating `"@ + id + "`: "@ + reason@),
        ),
        Staged::Linked(_, _) => if registry.guest_map().dom().contains(id) {
            Some(
                AdmitErrorModel::AlreadyRegistered("guest `"@ + id + "` is already registered"@),
            )
        } else {
            None
        },
    }
}

/// Where plugins are acquired from.
#[derive(Debug, PartialEq, Eq)]
pub enum Location {
    /// One named root for path loads.
    Path { name: String, path: String },
    /// The default registry endpoint.
    Registry(String),
}

/// How `wasi:cli/run` is routed without a marked command guest.
pub enum CliRouting {
    /// The routing decision failed.
    Failed(String),
    /// No guest exports it.
    Inert,
    /// The sole exporter.
    CatchAll(GuestId),
    /// Several guests export it.
    Ambiguous,
}

/// What a command drive does.
pub enum Drive {
    /// Run this guest.
    Run(GuestId),
    /// Nothing: the deployment exits with success.
    Inert,
}

/// Why a command drive cannot run.
#[derive(Debug, PartialEq, Eq)]
pub enum DriveError {
    /// The marked command guest is not registered.
    CommandGuest(GuestId),
    /// The routing decision failed.
    Routing(String),
    /// Several guests export `wasi:cli/run`.
    Ambiguous,
    /// The routed guest is not registered.
    Routed(GuestId),
}

impl DriveError {
    pub open spec fn text_spec(self) -> Seq<char> {
        match self {
            DriveError::CommandGuest(id) => "command guest `"@ + id@ + "` is not registered"@,
            DriveError::Routing(reason) => reason@,
            DriveError::Ambiguous => "multiple wasi:cli/run guests; mark one `command = true` to disambiguate"@,
            DriveError::Routed(id) => "routed guest `"@ + id@ + "` is not registered"@,
        }
    }

    /// The refusal in words.
    pub fn text(&self) -> (text: String)
        ensures
            text@ == self.text_spec(),
    {
        match self {
            DriveError::CommandGuest(id) => String::from_str("command guest `").concat(
                id.as_str(),
            ).concat("` is not registered"),
            DriveError::Routing(reason) => reason.clone(),
            DriveError::Ambiguous => String::from_str(
                "multiple wasi:cli/run guests; mark one `command = true` to disambiguate",
            ),
            DriveError::Routed(id) => String::from_str("routed guest `").concat(
                id.as_str(),
            ).concat("` is not registered"),
        }
    }
}

/// Inputs to [`Runtime::from_parts`].
pub struct RuntimeParts<B, T, S, D> {
    /// Deployment name read by trigger servers and the bootstrap log.
    pub name: String,
    /// Assembled guest registry.
    pub registry: Registry<T, S>,
    /// Guest argv.
    pub args: Vec<String>,
    /// Mount registry opened from the deployment's preopens.
    pub mounts: MountRegistry<D>,
    /// Connected backend bundle.
    pub backends: B,
    /// Plugin acquisition locations from the manifest.
    pub locations: Vec<Location>,
    /// Command-mode guest identity, if any.
    pub command_guest: Option<GuestId>,
}

/// Connected host runtime: registry over the link seam `S`, argv, mounts,
/// backend bundle `B` and extensions of type `V`.
pub struct Runtime<B, T, S, D, V> {
    name: String,
    registry: Registry<T, S>,
    args: Vec<String>,
    mounts: MountRegistry<D>,
    backends: B,
    command_guest: Option<GuestId>,
    locations: Vec<Location>,
    extensions: Extensions<V>,
}

impl<B, T, S: LinkSeam, D, V> Runtime<B, T, S, D, V> {
    pub closed spec fn parts(&self) -> RuntimeParts<B, T, S, D> {
        RuntimeParts {
            name: self.name,
            registry: self.registry,
            args: self.args,
            mounts: self.mounts,
            backends: self.backends,
            locations: self.locations,
            command_guest: self.command_guest,
        }
    }

    pub closed spec fn extension_set(&self) -> Extensions<V> {
        self.extensions
    }

    pub open spec fn wf(&self) -> bool {
        self.parts().registry.wf() && self.extension_set().wf()
    }

    /// Everything but the registry is as before.
    pub open spec fn same_but_registry(&self, other: &Self) -> bool {
        &&& self.parts().name == other.parts().name
        &&& self.parts().args == other.parts().args
        &&& self.parts().mounts == other.parts().mounts
        &&& self.parts().backends == other.parts().backends
        &&& self.parts().locations == other.parts().locations
        &&& self.parts().command_guest == other.parts().command_guest
        &&& self.extension_set() == other.extension_set()
    }

    /// Build a runtime from already-assembled parts, with no extensions
    /// installed.
    #[must_use]
    pub fn from_parts(parts: RuntimeParts<B, T, S, D>) -> (runtime: Self)
        requires
            parts.registry.wf(),
        ensures
            runtime.wf(),
            runtime.parts() == parts,
            runtime.extension_set()@ == Map::<Seq<char>, V>::empty(),
    {
        Runtime {
            name: parts.name,
            registry: parts.registry,
            args: parts.args,
            mounts: parts.mounts,
            backends: parts.backends,
            command_guest: parts.command_guest,
            locations: parts.locations,
            extensions: Extensions::new(),
        }
    }

    /// The deployment's plugin acquisition locations.
    #[must_use]
    pub fn plugin_locations(&self) -> (r: &Vec<Location>)
        ensures
            *r == self.parts().locations,
    {
        &self.locations
    }

    /// The deployment name.
    #[must_use]
    pub fn name(&self) -> (r: &str)
        ensures
            r@ == self.parts().name@,
    {
        self.name.as_str()
    }

    /// The command-mode guest identity, if any.
    #[must_use]
    pub fn command_guest(&self) -> (r: Option<&GuestId>)
        ensures
            match r {
                Some(id) => self.parts().command_guest == Some(*id),
                None => self.parts().command_guest is None,
            },
    {
        match &self.command_guest {
            Some(id) => Some(id),
            None => None,
        }
    }

    /// Guest registry.
    #[must_use]
    pub fn registry(&self) -> (r: &Registry<T, S>)
        ensures
            *r == self.parts().registry,
    {
        &self.registry
    }

    /// The deployment's connected backend bundle.
    #[must_use]
    pub fn backends(&self) -> (r: &B)
        ensures
            *r == self.parts().backends,
    {
        &self.backends
    }

    /// The capability state installed by the extend hook.
    #[must_use]
    pub fn extensions(&self) -> (r: &Extensions<V>)
        ensures
            *r == self.extension_set(),
    {
        &self.extensions
    }

    /// Install capability state under the name of its type; `false` when a
    /// value of that type is already installed.
    pub fn extend(&mut self, kind: &str, value: V) -> (installed: bool)
        requires
            old(self).wf(),
        ensures
            final(self).wf(),
            final(self).parts() == old(self).parts(),
            installed == !old(self).extension_set()@.dom().contains(kind@),
            final(self).extension_set()@ == (if installed {
                old(self).extension_set()@.insert(kind@, value)
            } else {
                old(self).extension_set()@
            }),
    {
        self.extensions.insert(kind, value)
    }

    /// Runtime options from the environment.
    #[must_use]
    pub fn options(&self) -> (r: &RuntimeOptions)
        ensures
            *r == self.parts().registry.options_spec(),
    {
        self.registry.options()
    }

    /// The fixed state of a fresh guest store: the deployment's argv and
    /// mounts, the host's environment.
    #[must_use]
    pub fn store(&self) -> (base: StoreBase<'_>)
        ensures
            base.env is Inherit,
            base.args matches Some(args) && *args == self.parts().args,
            base.preopens@.len() == self.parts().mounts@.len(),
            forall|i: int|
                0 <= i < base.preopens@.len() ==> crate::store::preopens_mount(
                    #[trigger] base.preopens@[i],
                    self.parts().mounts@[i],
                ),
            base.memory_size == self.parts().registry.options_spec().max_memory_bytes,
    {
        StoreBase::new(
            StoreConfig {
                options: self.registry.options(),
                args: Some(&self.args),
                mounts: Some(&self.mounts),
                env: None,
            },
        )
    }

    /// Which guest a command drive runs. A guest marked as the command guest
    /// goes through the ordinary registry lookup and fails the run if it is
    /// not registered. Without a marked guest, the sole exporter of
    /// `wasi:cli/run` is the catch-all; a deployment with no exporter is inert.
    ///
    /// # Errors
    ///
    /// Returns an error if the command guest is not registered, or routing
    /// failed or is ambiguous.
    pub fn drive(&self, routing: CliRouting) -> (r: Result<Drive, DriveError>)
        requires
            self.wf(),
        ensures
            match self.parts().command_guest {
                Some(id) => if self.parts().registry.guest_map().dom().contains(id@) {
                    r matches Ok(Drive::Run(chosen)) && chosen@ == id@
                } else {
                    r matches Err(DriveError::CommandGuest(refused)) && refused@ == id@
                },
                None => match routing {
                    CliRouting::Failed(reason) => r == Err::<Drive, DriveError>(
                        DriveError::Routing(reason),
                    ),
                    CliRouting::Inert => r == Ok::<Drive, DriveError>(Drive::Inert),
                    CliRouting::Ambiguous => r == Err::<Drive, DriveError>(DriveError::Ambiguous),
                    CliRouting::CatchAll(id) => if self.parts().registry.guest_map().dom().contains(
                        id@,
                    ) {
                        r matches Ok(Drive::Run(chosen)) && chosen@ == id@
                    } else {
                        r matches Err(DriveError::Routed(refused)) && refused@ == id@
                    },
                },
            },
    {
        if let Some(id) = &self.command_guest {
            return match self.registry.get(id) {
                Some(_) => Ok(Drive::Run(id.copy())),
                None => Err(DriveError::CommandGuest(id.copy())),
            };
        }
        match routing {
            CliRouting::Failed(reason) => Err(DriveError::Routing(reason)),
            CliRouting::Inert => Ok(Drive::Inert),
            CliRouting::Ambiguous => Err(DriveError::Ambiguous),
            CliRouting::CatchAll(id) => match self.registry.get(&id) {
                Some(_) => Ok(Drive::Run(id)),
                None => Err(DriveError::Routed(id)),
            },
        }
    }

    /// Whether an identity is free, checked early to skip the load and serve
    /// work of a registration that would be refused.
    ///
    /// # Errors
    ///
    /// Returns an error if `id` is already registered.
    pub fn check_free(&self, id: &GuestId) -> (r: Result<(), PublishError>)
        requires
            self.wf(),
        ensures
            match r {
                Ok(()) => !self.parts().registry.guest_map().dom().contains(id@),
                Err(e) => self.parts().registry.guest_map().dom().contains(id@) && (
                e matches PublishError::Occupied(refused) && refused@ == id@),
            },
    {
        match self.registry.get(id) {
            Some(_) => Err(PublishError::Occupied(id.copy())),
            None => Ok(()),
        }
    }

    /// Remove a dynamically registered guest. New dispatches to `id` fail as
    /// unregistered; in-flight calls complete on the instance they hold.
    /// Static deployment entries are refused.
    ///
    /// # Errors
    ///
    /// Returns an error if `id` names a static entry or is not registered.
    pub fn deregister(&mut self, id: &GuestId) -> (r: Result<(), RemoveError>)
        requires
            old(self).wf(),
        ensures
            final(self).wf(),
            final(self).same_but_registry(old(self)),
            final(self).parts().registry.same_deployment(&old(self).parts().registry),
            final(self).parts().registry.link_seam().pending() == old(self).parts().registry.link_seam().pending(),
            match r {
                Ok(()) => {
                    &&& !old(self).parts().registry.statics().contains(id@)
                    &&& old(self).parts().registry.guest_map().dom().contains(id@)
                    &&& final(self).parts().registry.guest_map() == old(
                        self,
                    ).parts().registry.guest_map().remove(id@)
                    &&& final(self).parts().registry.link_seam().live() == old(
                        self,
                    ).parts().registry.link_seam().live().remove(id@)
                },
                Err(e) => {
                    &&& final(self).parts().registry.guest_map() == old(
                        self,
                    ).parts().registry.guest_map()
                    &&& final(self).parts().registry.link_seam().live() == old(self).parts().registry.link_seam().live()
                    &&& match e {
                        RemoveError::Static(refused) => refused@ == id@ && old(
                            self,
                        ).parts().registry.statics().contains(id@),
                        RemoveError::NotRegistered(refused) => refused@ == id@ && !old(
                            self,
                        ).parts().registry.statics().contains(id@) && !old(
                            self,
                        ).parts().registry.guest_map().dom().contains(id@),
                    }
                },
            },
            old(self).parts().registry.in_step() ==> final(self).parts().registry.in_step(),
    {
        self.registry.remove(id)
    }

    /// Release every link-serve endpoint. In-flight invocations hold their own
    /// handles and complete; only new dispatches are cut off.
    pub fn shutdown(&mut self)
        requires
            old(self).wf(),
        ensures
            final(self).wf(),
            final(self).same_but_registry(old(self)),
            final(self).parts().registry.same_deployment(&old(self).parts().registry),
            final(self).parts().registry.guest_map() == old(self).parts().registry.guest_map(),
            final(self).parts().registry.link_seam().pending() == Map::<Seq<char>, Option<S::Endpoint>>::empty(),
            final(self).parts().registry.link_seam().live() == Map::<Seq<char>, Option<S::Endpoint>>::empty(),
    {
        self.registry.shutdown();
    }

}

impl<B, T, E, D, V> Runtime<B, T, InProcess<E>, D, V> {
    /// Register a guest at run time, `staged` being what loading its artifact,
    /// linking it and serving its linked exports came to, in that order. Entry
    /// and endpoint are published as one transition; a failed registration
    /// leaves no partial state. An upgrade is [`deregister`](Self::deregister),
    /// then this.
    ///
    /// # Errors
    ///
    /// Returns an error if `id` is already registered, the artifact could not
    /// be loaded or linked, or its linked exports could not be served.
    pub fn register(&mut self, id: GuestId, staged: Staged<T, E>) -> (r: Result<(), ArtifactError>)
        requires
            old(self).wf(),
        ensures
            final(self).wf(),
            final(self).same_but_registry(old(self)),
            final(self).parts().registry.same_deployment(&old(self).parts().registry),
            final(self).parts().registry.pending() == old(self).parts().registry.pending(),
            r is Err ==> final(self).parts().registry.guest_map() == old(
                self,
            ).parts().registry.guest_map() && final(self).parts().registry.live() == old(
                self,
            ).parts().registry.live(),
            r is Err <==> register_refusal(old(self).parts().registry, id@, staged) is Some,
            r matches Err(e) ==> register_refusal(old(self).parts().registry, id@, staged) == Some(
                e@,
            ),
            r is Ok ==> {
                let guests = final(self).parts().registry.guest_map();
                &&& guests == old(self).parts().registry.guest_map().insert(id@, guests[id@])
                &&& guests[id@].id_spec() == id@
                &&& guests[id@].target_spec() == staged->Linked_0
                &&& guests[id@].digest_spec() is None
                &&& final(self).parts().registry.live() == old(
                    self,
                ).parts().registry.live().insert(id@, staged->Linked_1->Ok_0)
            },
            old(self).parts().registry.in_step() ==> final(self).parts().registry.in_step(),
    {
        if let Err(error) = self.check_free(&id) {
            return Err(ArtifactError::Register(RegisterError::Publish(error)));
        }
        match staged {
            Staged::Invalid(reason) => Err(ArtifactError::Load(id, reason)),
            Staged::Unlinkable(reason) => Err(ArtifactError::Link(reason)),
            Staged::Linked(target, served) => {
                match self.registry.register(Guest::local(id, target), served) {
                    Ok(()) => Ok(()),
                    Err(error) => Err(ArtifactError::Register(error)),
                }
            },
        }
    }

    /// Admit raw wasm bytes as a late guest, `staged` being what validating,
    /// linking and serving them came to, in that order. The registry entry
    /// records the content `digest` of the bytes, so the attestation lives
    /// exactly as long as the entry.
    ///
    /// # Errors
    ///
    /// Returns a typed [`AdmitError`] naming the refusal: refused artifact, an
    /// identity already registered (an earlier or racing registration), or an
    /// internal serve or publication failure.
    pub fn admit_guest(&mut self, id: GuestId, digest: String, staged: Staged<T, E>) -> (r: Result<
        (),
        AdmitError,
    >)
        requires
            old(self).wf(),
        ensures
            final(self).wf(),
            final(self).same_but_registry(old(self)),
            final(self).parts().registry.same_deployment(&old(self).parts().registry),
            final(self).parts().registry.pending() == old(self).parts().registry.pending(),
            match r {
                Ok(()) => {
                    let guests = final(self).parts().registry.guest_map();
                    &&& admit_refusal(old(self).parts().registry, id@, staged) is None
                    &&& guests == old(self).parts().registry.guest_map().insert(id@, guests[id@])
                    &&& guests[id@].id_spec() == id@
                    &&& guests[id@].target_spec() == staged->Linked_0
                    &&& guests[id@].digest_spec() == Some(digest@)
                    &&& final(self).parts().registry.live() == old(
                        self,
                    ).parts().registry.live().insert(id@, staged->Linked_1->Ok_0)
                },
                Err(e) => {
                    &&& admit_refusal(old(self).parts().registry, id@, staged) == Some(e@)
                    &&& final(self).parts().registry.guest_map() == old(
                        self,
                    ).parts().registry.guest_map()
                    &&& final(self).parts().registry.live() == old(self).parts().registry.live()
                },
            },
            old(self).parts().registry.in_step() ==> final(self).parts().registry.in_step(),
    {
        let (target, served) = match staged {
            Staged::Invalid(reason) => {
                return Err(
                    AdmitError::ArtifactRefused(
                        String::from_str("validating `").concat(id.as_str()).concat(
                            "`: ",
                        ).concat(reason.as_str()),
                    ),
                );
            },
            Staged::Unlinkable(reason) => {
                return Err(
                    AdmitError::ArtifactRefused(
                        String::from_str("pre-instantiating `").concat(id.as_str()).concat(
                            "`: ",
                        ).concat(reason.as_str()),
                    ),
                );
            },
            Staged::Linked(target, served) => (target, served),
        };
        let guest = Guest::local(id.copy(), target).with_digest(digest);
        match self.registry.register(guest, served) {
            Ok(()) => Ok(()),
            Err(RegisterError::Serve(ServeError::Serve(_, reason))) => Err(
                AdmitError::Internal(
                    String::from_str("serving `").concat(id.as_str()).concat(
                        "` seam exports: ",
                    ).concat(reason.as_str()),
                ),
            ),
            Err(RegisterError::Serve(_)) => Err(
                AdmitError::Internal(
                    String::from_str("serving `").concat(id.as_str()).concat(
                        "` seam exports: guest `",
                    ).concat(id.as_str()).concat("` already has a pending endpoint"),
                ),
            ),
            Err(RegisterError::Publish(PublishError::Occupied(_))) => Err(
                AdmitError::AlreadyRegistered(
                    String::from_str("guest `").concat(id.as_str()).concat(
                        "` is already registered",
                    ),
                ),
            ),
            Err(RegisterError::Publish(PublishError::Transport(_))) => Err(
                AdmitError::Internal(
                    String::from_str("publishing `").concat(id.as_str()).concat(
                        "`: guest `",
                    ).concat(id.as_str()).concat("` already has a live endpoint"),
                ),
            ),
        }
    }

    /// Wire the link serve side of every registered guest, then publish them
    /// all; see [`Registry::serve_links`].
    ///
    /// # Errors
    ///
    /// Returns an error if a guest's export could not be served, or a served
    /// guest already has an endpoint.
    pub fn serve_links(&mut self, served: Vec<Served<E>>) -> (r: Result<(), ServeError>)
        requires
            old(self).wf(),
        ensures
            final(self).wf(),
            final(self).same_but_registry(old(self)),
            final(self).parts().registry.same_deployment(&old(self).parts().registry),
            final(self).parts().registry.guest_map() == old(self).parts().registry.guest_map(),
            ({
                let before = old(self).parts().registry;
                let after = final(self).parts().registry;
                let ids = crate::registry::entry_ids(before.guest_seq());
                let reached = crate::registry::live_prefix(before.live(), ids, 0);
                &&& after.pending() == before.pending().remove_keys(
                    crate::registry::ids_from(ids, 0),
                )
                &&& match r {
                    Ok(()) => {
                        &&& crate::registry::serve_refusal(
                            before.pending(),
                            ids,
                            served@,
                            0,
                        ) is None
                        &&& reached == ids.len()
                        &&& after.live() == crate::registry::with_served(
                            before.live(),
                            ids,
                            served@,
                            ids.len(),
                        )
                    },
                    Err(e) => match crate::registry::serve_refusal(
                        before.pending(),
                        ids,
                        served@,
                        0,
                    ) {
                        Some(refusal) => e@ == refusal && after.live() == before.live(),
                        None => {
                            &&& reached < ids.len()
                            &&& e@ == crate::registry::ServeErrorModel::Live(ids[reached as int])
                            &&& after.live() == crate::registry::with_served(
                                before.live(),
                                ids,
                                served@,
                                reached,
                            )
                        },
                    },
                }
            }),
    {
        self.registry.serve_links(served)
    }
}

impl<B, T, D, V> Runtime<B, T, NoLinks, D, V> {
    /// Register a guest at run time, `staged` being what loading its artifact
    /// and linking it came to, in that order. A deployment that declares no
    /// link interfaces serves nothing, whatever `staged` holds of that.
    ///
    /// # Errors
    ///
    /// Returns an error if `id` is already registered, or the artifact could
    /// not be loaded or linked.
    pub fn register(&mut self, id: GuestId, staged: Staged<T, ()>) -> (r: Result<(), ArtifactError>)
        requires
            old(self).wf(),
        ensures
            final(self).wf(),
            final(self).same_but_registry(old(self)),
            final(self).parts().registry.same_deployment(&old(self).parts().registry),
            r is Err ==> final(self).parts().registry.guest_map() == old(
                self,
            ).parts().registry.guest_map(),
            r is Err <==> unlinked_refusal(old(self).parts().registry, id@, staged) is Some,
            r matches Err(e) ==> unlinked_refusal(old(self).parts().registry, id@, staged) == Some(
                e@,
            ),
            r is Ok ==> {
                let guests = final(self).parts().registry.guest_map();
                &&& guests == old(self).parts().registry.guest_map().insert(id@, guests[id@])
                &&& guests[id@].id_spec() == id@
                &&& guests[id@].target_spec() == staged->Linked_0
                &&& guests[id@].digest_spec() is None
            },
    {
        if let Err(error) = self.check_free(&id) {
            return Err(ArtifactError::Register(RegisterError::Publish(error)));
        }
        match staged {
            Staged::Invalid(reason) => Err(ArtifactError::Load(id, reason)),
            Staged::Unlinkable(reason) => Err(ArtifactError::Link(reason)),
            Staged::Linked(target, _) => match self.registry.publish(Guest::local(id, target)) {
                Ok(()) => Ok(()),
                Err(error) => Err(ArtifactError::Register(RegisterError::Publish(error))),
            },
        }
    }

    /// Admit raw wasm bytes as a late guest, `staged` being what validating and
    /// linking them came to, in that order; nothing is served. The registry
    /// entry records the content `digest` of the bytes.
    ///
    /// # Errors
    ///
    /// Returns a typed [`AdmitError`] naming the refusal: refused artifact, or
    /// an identity already registered.
    pub fn admit_guest(&mut self, id: GuestId, digest: String, staged: Staged<T, ()>) -> (r: Result<
        (),
        AdmitError,
    >)
        requires
            old(self).wf(),
        ensures
            final(self).wf(),
            final(self).same_but_registry(old(self)),
            final(self).parts().registry.same_deployment(&old(self).parts().registry),
            match r {
                Ok(()) => {
                    let guests = final(self).parts().registry.guest_map();
                    &&& unlinked_admit_refusal(old(self).parts().registry, id@, staged) is None
                    &&& guests == old(self).parts().registry.guest_map().insert(id@, guests[id@])
                    &&& guests[id@].id_spec() == id@
                    &&& guests[id@].target_spec() == staged->Linked_0
                    &&& guests[id@].digest_spec() == Some(digest@)
                },
                Err(e) => {
                    &&& unlinked_admit_refusal(old(self).parts().registry, id@, staged) == Some(e@)
                    &&& final(self).parts().registry.guest_map() == old(
                        self,
                    ).parts().registry.guest_map()
                },
            },
    {
        let target = match staged {
            Staged::Invalid(reason) => {
                return Err(
                    AdmitError::ArtifactRefused(
                        String::from_str("validating `").concat(id.as_str()).concat(
                            "`: ",
                        ).concat(reason.as_str()),
                    ),
                );
            },
            Staged::Unlinkable(reason) => {
                return Err(
                    AdmitError::ArtifactRefused(
                        String::from_str("pre-instantiating `").concat(id.as_str()).concat(
                            "`: ",
                        ).concat(reason.as_str()),
                    ),
                );
            },
            Staged::Linked(target, _) => target,
        };
        match self.registry.publish(Guest::local(id.copy(), target).with_digest(digest)) {
            Ok(()) => Ok(()),
            Err(_) => Err(
                AdmitError::AlreadyRegistered(
                    String::from_str("guest `").concat(id.as_str()).concat(
                        "` is already registered",
                    ),
                ),
            ),
        }
    }

    /// A deployment that declares no link interfaces has nothing to serve.
    pub fn serve_links(&mut self)
        ensures
            *final(self) == *old(self),
    {
    }
}

/// A run counts as a success exactly where the guest returned one or exited
/// with code zero; an exit code is handed on as it is; a run without a status
/// is one that trapped.
pub proof fn exit_statuses_tell_the_outcome(outcome: RunOutcome, r: Result<ExitStatus, String>)
    requires
        call_ensures(exit_status, (outcome,), r),
    ensures
        r is Ok && r->Ok_0.code_spec() == 0 <==> match outcome {
            RunOutcome::Returned(returned) => returned is Ok,
            RunOutcome::Exited(code) => code == 0,
            RunOutcome::Trapped(_) => false,
        },
        r is Err <==> outcome is Trapped,
        outcome matches RunOutcome::Exited(code) ==> r is Ok && r->Ok_0.code_spec() == code,
        outcome is Returned && r is Ok ==> 0 <= r->Ok_0.code_spec() <= 1,
        outcome matches RunOutcome::Trapped(reason) ==> r is Err && r->Err_0@ == reason@,
{
}

/// The low byte of an exit code is the code where that is a byte, and codes a
/// multiple of the byte's range apart share it.
pub proof fn low_bytes_are_codes(status: ExitStatus, other: ExitStatus, a: u8, b: u8)
    requires
        call_ensures(ExitStatus::code_u8, (status,), a),
        call_ensures(ExitStatus::code_u8, (other,), b),
    ensures
        0 <= status.code_spec() < 256 ==> a == status.code_spec(),
        a == b <==> (status.code_spec() - other.code_spec()) % 256 == 0,
{
}

/// A marked command guest is what a drive runs, however routing went.
pub proof fn the_marked_guest_is_driven<B, T, S: LinkSeam, D, V>(
    runtime: Runtime<B, T, S, D, V>,
    one: CliRouting,
    other: CliRouting,
    a: Result<Drive, DriveError>,
    b: Result<Drive, DriveError>,
)
    requires
        runtime.parts().command_guest is Some,
        call_ensures(Runtime::<B, T, S, D, V>::drive, (&runtime, one), a),
        call_ensures(Runtime::<B, T, S, D, V>::drive, (&runtime, other), b),
    ensures
        a is Ok <==> b is Ok,
        a matches Ok(Drive::Run(chosen)) ==> chosen@ == runtime.parts().command_guest->0@,
        a is Ok ==> a->Ok_0 is Run,
        a is Ok <==> runtime.parts().registry.guest_map().dom().contains(
            runtime.parts().command_guest->0@,
        ),
{
}

/// A drive only ever runs a registered guest, and without a marked one it does
/// nothing exactly where no guest exports the entry point.
pub proof fn only_registered_guests_are_driven<B, T, S: LinkSeam, D, V>(
    runtime: Runtime<B, T, S, D, V>,
    routing: CliRouting,
    r: Result<Drive, DriveError>,
)
    requires
        call_ensures(Runtime::<B, T, S, D, V>::drive, (&runtime, routing), r),
    ensures
        r matches Ok(Drive::Run(id)) ==> runtime.parts().registry.guest_map().dom().contains(id@),
        r matches Ok(Drive::Inert) ==> runtime.parts().command_guest is None && routing is Inert,
        runtime.parts().command_guest is None && routing is Inert ==> r is Ok,
        runtime.parts().command_guest is None && routing is Ambiguous ==> r is Err,
        runtime.parts().command_guest is None ==> match routing {
            CliRouting::CatchAll(id) => runtime.parts().registry.guest_map().dom().contains(id@)
                <==> r is Ok,
            _ => true,
        },
{
}

/// A guest is admitted late exactly where it could be registered: staged
/// without a fault, under an identity that no guest holds and that has no
/// endpoint, parked or live.
pub proof fn admission_is_registration<T, E>(
    registry: Registry<T, InProcess<E>>,
    id: Seq<char>,
    staged: Staged<T, E>,
)
    ensures
        admit_refusal(registry, id, staged) is None <==> register_refusal(registry, id, staged)
            is None,
        register_refusal(registry, id, staged) is None <==> {
            &&& staged matches Staged::Linked(_, Ok(_))
            &&& !registry.guest_map().dom().contains(id)
            &&& !registry.pending().dom().contains(id)
            &&& !registry.live().dom().contains(id)
        },
{
}

/// Without link interfaces a guest is admitted late exactly where it could be
/// registered: loaded and linked, under an identity that no guest holds.
pub proof fn unlinked_admission_is_registration<T>(
    registry: Registry<T, NoLinks>,
    id: Seq<char>,
    staged: Staged<T, ()>,
)
    ensures
        unlinked_admit_refusal(registry, id, staged) is None <==> unlinked_refusal(
            registry,
            id,
            staged,
        ) is None,
        unlinked_refusal(registry, id, staged) is None <==> staged is Linked
            && !registry.guest_map().dom().contains(id),
{
}

/// The refusal of an admission names the guest, and an identity that is taken
/// is told apart from an artifact that is at fault.
pub proof fn admission_refusals_name_the_guest<T, E>(
    registry: Registry<T, InProcess<E>>,
    id: Seq<char>,
    staged: Staged<T, E>,
)
    ensures
        match admit_refusal(registry, id, staged) {
            None => true,
            Some(AdmitErrorModel::ArtifactRefused(text)) => crate::text::holds(text, id) && !(
            staged is Linked),
            Some(AdmitErrorModel::AlreadyRegistered(text)) => crate::text::holds(text, id)
                && registry.guest_map().dom().contains(id),
            Some(AdmitErrorModel::Internal(text)) => crate::text::holds(text, id) && staged
                is Linked,
        },
        staged is Invalid || staged is Unlinkable ==> admit_refusal(registry, id, staged) matches Some(
            AdmitErrorModel::ArtifactRefused(_),
        ),
        match staged {
            Staged::Linked(_, Err(reason)) => admit_refusal(registry, id, staged) matches Some(
                AdmitErrorModel::Internal(_),
            ),
            _ => true,
        },
{
    crate::text::holding_goes_on(id);
}

} // verus!
