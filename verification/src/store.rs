//! The construction policy of a guest store.

use crate::mount::{Mount, MountRegistry};
use crate::options::RuntimeOptions;
use vstd::prelude::*;

verus! {

/// The per-store construction inputs.
pub struct StoreConfig<'a, D> {
    /// Runtime options; caps linear-memory growth at `max_memory_bytes`.
    pub options: &'a RuntimeOptions,
    /// Guest argv (`args[0]` is the program name); `None` for reactor
    /// deployments that do not model a CLI invocation.
    pub args: Option<&'a Vec<String>>,
    /// Mount registry preopened into the guest sandbox; `None` for deployments
    /// without mounts.
    pub mounts: Option<&'a MountRegistry<D>>,
    /// Complete guest environment replacing host inheritance; `None` inherits
    /// the host environment.
    pub env: Option<&'a Vec<(String, String)>>,
}

/// Where the guest's environment comes from.
pub enum GuestEnv<'a> {
    /// The host's environment.
    Inherit,
    /// A complete list.
    Explicit(&'a Vec<(String, String)>),
}

/// The permissions on a preopened directory.
#[derive(Clone, Copy, Debug, PartialEq, Eq, Structural)]
pub enum FsPerms {
    ReadOnly,
    ReadWrite,
}

/// A directory to preopen into the guest sandbox.
pub struct Preopen<'a> {
    pub host_path: &'a String,
    pub name: &'a String,
    pub perms: FsPerms,
}

/// The fixed state of a guest store: standard streams are the host's, the rest
/// is stated here.
pub struct StoreBase<'a> {
    pub env: GuestEnv<'a>,
    /// The guest's argv, if it models a CLI invocation.
    pub args: Option<&'a Vec<String>>,
    /// The directories to preopen, in order.
    pub preopens: Vec<Preopen<'a>>,
    /// The cap on linear-memory growth, in bytes.
    pub memory_size: usize,
}

/// The preopen of a mount: read-only unless the mount is writable.
pub open spec fn preopens_mount<D>(preopen: Preopen, mount: Mount<D>) -> bool {
    &&& *preopen.host_path == mount.host_path
    &&& *preopen.name == mount.name
    &&& preopen.perms == (if mount.writable {
        FsPerms::ReadWrite
    } else {
        FsPerms::ReadOnly
    })
}

/// The mounts of a configuration.
pub open spec fn configured_mounts<D>(mounts: Option<&MountRegistry<D>>) -> Seq<Mount<D>> {
    match mounts {
        Some(registry) => registry@,
        None => Seq::empty(),
    }
}

impl<'a> StoreBase<'a> {
    /// The fixed state for a single guest invocation: the explicit environment
    /// when set and the host's otherwise, the configured argv, every
    /// authorized mount preopened, linear-memory growth capped.
    pub fn new<D>(config: StoreConfig<'a, D>) -> (base: Self)
        ensures
            match config.env {
                Some(env) => base.env == GuestEnv::Explicit(env),
                None => base.env == GuestEnv::Inherit,
            },
            base.args == config.args,
            base.preopens@.len() == configured_mounts(config.mounts).len(),
            forall|i: int|
                0 <= i < base.preopens@.len() ==> preopens_mount(
                    #[trigger] base.preopens@[i],
                    configured_mounts(config.mounts)[i],
                ),
            base.memory_size == config.options.max_memory_bytes,
    {
        let env = match config.env {
            Some(env) => GuestEnv::Explicit(env),
            None => GuestEnv::Inherit,
        };
        let mut preopens: Vec<Preopen<'a>> = Vec::new();
        if let Some(registry) = config.mounts {
            let mounts = registry.entries();
            let mut i: usize = 0;
            while i < mounts.len()
                invariant
                    i <= mounts@.len(),
                    mounts@ == registry@,
                    preopens@.len() == i,
                    forall|k: int|
                        0 <= k < i ==> preopens_mount(#[trigger] preopens@[k], mounts@[k]),
                decreases mounts@.len() - i,
            {
                let entry = &mounts[i];
                let perms = if entry.writable {
                    FsPerms::ReadWrite
                } else {
                    FsPerms::ReadOnly
                };
                preopens.push(Preopen { host_path: &entry.host_path, name: &entry.name, perms });
                i = i + 1;
            }
        }
        StoreBase {
            env,
            args: config.args,
            preopens,
            memory_size: config.options.max_memory_bytes,
        }
    }
}

/// The fuel to install on a store: none runs the guest unmetered.
pub fn store_fuel(options: &RuntimeOptions) -> (fuel: Option<u64>)
    ensures
        fuel == (if options.max_fuel > 0 {
            Some(options.max_fuel)
        } else {
            None
        }),
{
    if options.max_fuel > 0 {
        Some(options.max_fuel)
    } else {
        None
    }
}

/// A store gives a guest no more than its mounts: one preopen for each, in
/// order, writable only where the mount is; and no more memory than the
/// options allow, the environment and the arguments as configured.
pub proof fn stores_give_what_is_configured<'a, D>(
    config: StoreConfig<'a, D>,
    base: StoreBase<'a>,
    i: int,
)
    requires
        call_ensures(StoreBase::<'a>::new::<D>, (config,), base),
    ensures
        config.mounts is None ==> base.preopens@.len() == 0,
        config.mounts matches Some(mounts) ==> {
            &&& base.preopens@.len() == mounts@.len()
            &&& 0 <= i < mounts@.len() ==> {
                &&& *base.preopens@[i].name == mounts@[i].name
                &&& *base.preopens@[i].host_path == mounts@[i].host_path
                &&& base.preopens@[i].perms == FsPerms::ReadWrite <==> mounts@[i].writable
            }
        },
        base.memory_size == config.options.max_memory_bytes,
        base.args == config.args,
        config.env is None <==> base.env is Inherit,
        config.env matches Some(env) ==> base.env == GuestEnv::Explicit(env),
{
    if 0 <= i < base.preopens@.len() {
        assert(preopens_mount(base.preopens@[i], configured_mounts(config.mounts)[i]));
    }
}

/// A guest is metered by what the options allow, and unmetered exactly where
/// they allow nothing.
pub proof fn only_zero_fuel_is_unmetered(options: &RuntimeOptions, fuel: Option<u64>)
    requires
        call_ensures(store_fuel, (options,), fuel),
    ensures
        fuel is None <==> options.max_fuel == 0,
        fuel is Some ==> fuel->0 == options.max_fuel,
{
}

} // verus!
