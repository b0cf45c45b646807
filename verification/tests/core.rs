//! The host core: extensions, mounts, exit statuses, chains, the registry, and
//! the runtime.

use std::cell::RefCell;
use std::rc::Rc;
use std::time::Duration;

use omnia::chain::{as_command_chain, current_chain, with_chain, ChainCtx, ChainPolicy};
use omnia::extensions::Extensions;
use omnia::idmap::IdMap;
use omnia::link::transport::InProcess;
use omnia::mount::{dedup_last_wins, MountError, MountRegistry, Probe, ResolvedPreopen};
use omnia::options::RuntimeOptions;
use omnia::registry::{
    AssembleError, Guest, GuestId, LoadedGuest, PublishError, Registry, RemoveError, Routes,
    ServeError,
};
use omnia::runtime::{
    exit_status, AdmitError, CliRouting, Drive, ExitStatus, Location, RunOutcome, Runtime,
    RuntimeParts, Staged,
};
use omnia::seam::NoLinks;
use omnia::store::{store_fuel, FsPerms, GuestEnv, StoreBase, StoreConfig};
use omnia::text::{decimal_text, join, order, Order};

#[test]
fn insert_once_then_get() {
    let mut extensions: Extensions<u32> = Extensions::new();
    assert!(extensions.insert("u32", 7), "first install succeeds");
    assert!(!extensions.insert("u32", 9), "re-install of the same type refuses");
    assert_eq!(*extensions.get("u32").expect("installed"), 7);
    assert!(extensions.get("String").is_none(), "absent type reads back nothing");
}

#[test]
fn clones_share_set() {
    let extensions = Rc::new(RefCell::new(Extensions::new()));
    let handle = Rc::clone(&extensions);
    assert!(extensions.borrow_mut().insert("String", "shared".to_owned()));
    assert_eq!(*handle.borrow().get("String").expect("visible through the clone"), "shared");
}

#[test]
fn code_u8_low_byte() {
    // The POSIX low-byte truncation is the only non-trivial ExitStatus logic.
    assert_eq!(ExitStatus::from(256).code_u8(), 0);
    assert_eq!(ExitStatus::from(257).code_u8(), 1);
    assert_eq!(ExitStatus::from(-1).code_u8(), 255);
    assert_eq!(ExitStatus::success().code(), 0);
}

#[test]
fn run_outcomes_map_to_exits() {
    assert_eq!(exit_status(RunOutcome::Returned(Ok(()))).map(|s| s.code()), Ok(0));
    assert_eq!(exit_status(RunOutcome::Returned(Err(()))).map(|s| s.code()), Ok(1));
    assert_eq!(exit_status(RunOutcome::Exited(7)).map(|s| s.code()), Ok(7));
    assert_eq!(
        exit_status(RunOutcome::Trapped("trap".to_owned())).map(|s| s.code()),
        Err("trap".to_owned())
    );
}

fn preopen(name: &str, path: &str, writable: bool) -> ResolvedPreopen {
    ResolvedPreopen::new(name.to_owned(), path.to_owned(), writable)
}

fn opened(ino: u64) -> Probe<u64> {
    Probe::Opened(ino, (1, ino))
}

fn mounted(preopens: Vec<ResolvedPreopen>, probes: Vec<Probe<u64>>) -> MountRegistry<u64> {
    match MountRegistry::open(preopens, probes) {
        Ok(registry) => registry,
        Err(error) => panic!("opening registry: {}", error.text()),
    }
}

#[test]
fn open_identity() {
    let registry = mounted(vec![preopen(".", "/root", false)], vec![opened(42)]);
    let entry = &registry.entries()[0];
    assert_eq!(entry.name, ".");
    assert_eq!(entry.host_path, "/root");
    assert!(!entry.writable, "a mount defaults to read-only");
    assert_eq!(entry.identity, (1, 42), "the entry records the dir's (dev, ino)");
}

#[test]
fn match_identity_by_dev_ino() {
    let registry = mounted(vec![preopen(".", "/root", false)], vec![opened(42)]);
    let (dev, ino) = (1_u64, 42_u64);
    let hit = registry.match_identity(dev, ino).expect("the mount's identity matches");
    assert_eq!(hit.host_path, "/root");
    // A foreign identity matches nothing — the out-of-scope rejection a
    // consuming host relies on.
    assert!(registry.match_identity(dev ^ 0xFFFF, ino ^ 0xFFFF).is_none());
}

#[test]
fn open_records_writability() {
    let registry = mounted(vec![preopen("tree", "/root", true)], vec![opened(1)]);
    assert!(registry.entries()[0].writable, "a writable mount permits mutation");
}

#[test]
fn duplicate_name_last_wins() {
    // Same guest-visible name, distinct host paths: the CLI entry is layered
    // last and must override the manifest entry rather than be shadowed.
    let registry = mounted(
        vec![preopen(".", "/manifest", false), preopen(".", "/cli", true)],
        vec![opened(2)],
    );
    assert_eq!(registry.entries().len(), 1, "duplicate names collapse to one entry");
    let entry = &registry.entries()[0];
    assert_eq!(entry.host_path, "/cli", "the last entry wins");
    assert!(entry.writable, "the winning entry's permissions apply");
}

#[test]
fn overridden_mount_path() {
    // The shadowed manifest entry names a nonexistent path; last-wins dedup
    // discards it before opening, so a stale override does not fail startup.
    let kept =
        dedup_last_wins(vec![preopen(".", "/no/such/mount", false), preopen(".", "/cli", true)]);
    assert_eq!(kept, vec![preopen(".", "/cli", true)]);
    let registry = mounted(
        vec![preopen(".", "/no/such/mount", false), preopen(".", "/cli", true)],
        vec![opened(3)],
    );
    assert_eq!(registry.entries()[0].host_path, "/cli");
}

#[test]
fn last_wins_keeps_the_order() {
    let kept = dedup_last_wins(vec![
        preopen("a", "/1", false),
        preopen("b", "/2", false),
        preopen("a", "/3", true),
        preopen("c", "/4", false),
    ]);
    let names: Vec<(&str, &str)> =
        kept.iter().map(|p| (p.name.as_str(), p.host_path.as_str())).collect();
    assert_eq!(names, [("a", "/3"), ("b", "/2"), ("c", "/4")]);
}

#[test]
fn mounts_that_do_not_open() {
    let two = || vec![preopen("a", "/1", false), preopen("b", "/2", false)];
    let failed = |probe| MountRegistry::open(two(), vec![opened(1), probe]).err().expect("fails");
    assert_eq!(
        failed(Probe::OpenFailed("gone".to_owned())).text(),
        "opening mount `b` at /2: gone"
    );
    assert_eq!(
        failed(Probe::StatFailed("denied".to_owned())).text(),
        "reading metadata for mount `b`: denied"
    );
    assert_eq!(
        MountRegistry::<u64>::open(two(), vec![opened(1)]).err(),
        Some(MountError::Unprobed { name: "b".to_owned() })
    );
    assert!(MountRegistry::<u64>::new().entries().is_empty());
}

fn options() -> RuntimeOptions {
    RuntimeOptions {
        max_dispatch_depth: 2,
        guest_timeout: Duration::from_secs(30),
        max_memory_bytes: 1 << 20,
        max_fuel: 0,
    }
}

fn id(name: &str) -> GuestId {
    GuestId::new(name)
}

#[test]
fn chains_stop_at_the_bound() {
    let policy = ChainPolicy::from(&options());
    assert_eq!(policy.max_depth, 2);
    assert_eq!(policy.timeout, Duration::from_secs(30));
    let root = current_chain(None);
    assert_eq!((root.depth, root.uncapped), (0, false));
    let one = policy.enter(root, &id("b")).expect("first hop");
    let two = policy.enter(one, &id("c")).expect("second hop");
    assert_eq!(two.depth, 2);
    let error = policy.enter(two, &id("d")).expect_err("third hop");
    assert_eq!((error.depth, error.max_depth, error.target.as_str()), (3, 2, "d"));
    assert!(error.text().contains("`d`"), "{}", error.text());
}

#[test]
fn command_chains_stay_uncapped() {
    let scoped = as_command_chain(());
    assert_eq!((scoped.ctx.depth, scoped.ctx.uncapped), (0, true));
    let policy = ChainPolicy::from(&options());
    let hop = policy.enter(scoped.ctx, &id("b")).expect("a hop");
    assert_eq!((hop.depth, hop.uncapped), (1, true));
    let scope = with_chain(hop, "work");
    assert_eq!(scope.work, "work");
    assert_eq!(current_chain(Some(scope.ctx)).depth, 1);
    assert_eq!(ChainCtx::default().depth, 0);
}

fn loaded(name: &str) -> LoadedGuest<u32> {
    LoadedGuest { id: id(name), target: Ok(name.len() as u32) }
}

fn routes(targets: &[&str]) -> Routes {
    Routes { targets: targets.iter().map(|t| id(t)).collect() }
}

fn assemble(
    guests: Vec<LoadedGuest<u32>>,
    targets: &[&str],
    allow_empty: bool,
) -> Result<Registry<u32, InProcess<u32>>, AssembleError> {
    Registry::assemble(options(), guests, routes(targets), InProcess::new(), allow_empty)
}

fn refusal(r: Result<Registry<u32, InProcess<u32>>, AssembleError>) -> String {
    r.err().expect("refused").text()
}

#[test]
fn assembly_refusals() {
    assert_eq!(
        refusal(assemble(vec![], &[], false)),
        "cannot build a guest registry with no guests"
    );
    assert!(assemble(vec![], &[], true).is_ok());
    assert_eq!(
        refusal(assemble(vec![loaded("a"), loaded("a")], &[], false)),
        "duplicate guest id `a`: guest identities must be unique"
    );
    let broken = LoadedGuest { id: id("b"), target: Err("no such import".to_owned()) };
    assert_eq!(
        refusal(assemble(vec![loaded("a"), broken], &[], false)),
        "pre-instantiating guest `b`: no such import"
    );
    assert_eq!(
        refusal(assemble(vec![loaded("a")], &["z"], false)),
        "route targets guest `z`, which is not registered"
    );
}

#[test]
fn guests_come_sorted() {
    let registry = assemble(vec![loaded("b"), loaded("a")], &["b"], false).expect("assembles");
    let names: Vec<&str> = registry.guests().iter().map(|g| g.id().as_str()).collect();
    assert_eq!(names, ["a", "b"]);
    assert_eq!(registry.len(), 2);
    assert!(!registry.is_empty());
    assert_eq!(registry.options(), &options());
    assert_eq!(registry.routes().targets, vec![id("b")]);
    assert_eq!(*registry.get(&id("b")).expect("registered").instance_pre(), 1);
    assert!(registry.get(&id("c")).is_none());
}

#[test]
fn late_guests_come_and_go() {
    let mut registry = assemble(vec![loaded("a")], &[], false).expect("assembles");
    let late = Guest::local(id("late"), 9).with_digest("sha256:00".to_owned());
    registry.register(late, Ok(Some(5))).expect("registers");
    assert_eq!(registry.get(&id("late")).expect("registered").digest(), Some("sha256:00"));
    assert_eq!(registry.seam().connect(&id("late"), "i"), Ok(&5));

    let again = registry.register(Guest::local(id("late"), 9), Ok(None)).err().expect("taken");
    assert_eq!(again.text(), "guest `late` is already registered");

    registry.remove(&id("late")).expect("removed");
    assert!(registry.get(&id("late")).is_none());
    assert!(registry.seam().connect(&id("late"), "i").is_err());
    assert!(matches!(registry.remove(&id("late")), Err(RemoveError::NotRegistered(_))));
    assert!(matches!(registry.remove(&id("a")), Err(RemoveError::Static(_))));
}

#[test]
fn serving_is_all_or_nothing() {
    let mut registry = assemble(vec![loaded("a"), loaded("b")], &[], false).expect("assembles");
    let failed = registry.serve_links(vec![Ok(Some(1)), Err("no carrier".to_owned())]);
    assert_eq!(
        failed.err().expect("refused").text(),
        "no carrier"
    );
    assert!(registry.seam().connect(&id("a"), "i").is_err(), "nothing stays published");
    registry.serve_links(vec![Ok(Some(1)), Ok(None)]).expect("serves");
    assert_eq!(registry.seam().connect(&id("a"), "i"), Ok(&1));
    assert_eq!(
        registry.seam().connect(&id("b"), "i").unwrap_err().text(),
        "guest `b` is registered but exports no linked interface (`i`); is it meant to be a link target?"
    );
    registry.shutdown();
    assert!(registry.seam().connect(&id("a"), "i").is_err());
}

#[test]
fn unserved_guests_are_refused() {
    let mut registry = assemble(vec![loaded("a"), loaded("b")], &[], false).expect("assembles");
    assert_eq!(
        registry.serve_links(vec![Ok(Some(1))]),
        Err(ServeError::Unserved(id("b")))
    );
}

#[test]
fn registries_without_links() {
    let mut registry: Registry<u32, NoLinks> =
        Registry::assemble(options(), vec![loaded("a")], routes(&[]), NoLinks, false)
            .ok()
            .expect("assembles");
    registry.publish(Guest::local(id("b"), 1)).expect("publishes");
    let taken = registry.publish(Guest::local(id("b"), 2));
    assert!(matches!(taken, Err(PublishError::Occupied(_))));
    assert_eq!(registry.len(), 2);
}

type TestRuntime = Runtime<(), u32, InProcess<u32>, u64, String>;

fn runtime(guests: Vec<LoadedGuest<u32>>, command: Option<&str>) -> TestRuntime {
    Runtime::from_parts(RuntimeParts {
        name: "test".to_owned(),
        registry: assemble(guests, &[], false).ok().expect("assembles"),
        args: vec!["bin".to_owned()],
        mounts: mounted(vec![preopen(".", "/root", true)], vec![opened(1)]),
        backends: (),
        locations: vec![Location::Registry("ghcr.io".to_owned())],
        command_guest: command.map(id),
    })
}

fn drives(runtime: &TestRuntime, routing: CliRouting) -> Result<Option<String>, String> {
    match runtime.drive(routing) {
        Ok(Drive::Run(guest)) => Ok(Some(guest.as_str().to_owned())),
        Ok(Drive::Inert) => Ok(None),
        Err(error) => Err(error.text()),
    }
}

#[test]
fn marked_guest_beats_routing() {
    let marked = runtime(vec![loaded("a"), loaded("b")], Some("a"));
    assert_eq!(marked.command_guest(), Some(&id("a")));
    assert_eq!(drives(&marked, CliRouting::Ambiguous), Ok(Some("a".to_owned())));
    let missing = runtime(vec![loaded("a")], Some("z"));
    assert_eq!(
        drives(&missing, CliRouting::Inert),
        Err("command guest `z` is not registered".to_owned())
    );
}

#[test]
fn unmarked_deployments_follow_routing() {
    let runtime = runtime(vec![loaded("a"), loaded("b")], None);
    assert_eq!(drives(&runtime, CliRouting::Inert), Ok(None));
    assert_eq!(drives(&runtime, CliRouting::CatchAll(id("b"))), Ok(Some("b".to_owned())));
    assert_eq!(
        drives(&runtime, CliRouting::CatchAll(id("z"))),
        Err("routed guest `z` is not registered".to_owned())
    );
    assert_eq!(
        drives(&runtime, CliRouting::Ambiguous),
        Err("multiple wasi:cli/run guests; mark one `command = true` to disambiguate".to_owned())
    );
    assert_eq!(
        drives(&runtime, CliRouting::Failed("bad route".to_owned())),
        Err("bad route".to_owned())
    );
}

#[test]
fn runtimes_hold_their_parts() {
    let mut runtime = runtime(vec![loaded("a")], None);
    assert_eq!(runtime.name(), "test");
    assert_eq!(runtime.plugin_locations(), &vec![Location::Registry("ghcr.io".to_owned())]);
    assert_eq!(runtime.options(), &options());
    assert_eq!(runtime.backends(), &());
    assert_eq!(runtime.registry().len(), 1);
    assert!(runtime.extend("cache", "first".to_owned()));
    assert!(!runtime.extend("cache", "second".to_owned()));
    assert_eq!(runtime.extensions().get("cache").map(String::as_str), Some("first"));
}

fn admit_text(error: AdmitError) -> String {
    error.text()
}

#[test]
fn admission_runs_in_stages() {
    let digest = || "sha256:00".to_owned();
    let mut runtime = runtime(vec![loaded("a")], None);
    let invalid = runtime.admit_guest(id("p"), digest(), Staged::Invalid("not wasm".to_owned()));
    assert!(matches!(&invalid, Err(AdmitError::ArtifactRefused(r)) if r == "validating `p`: not wasm"));
    let unlinkable =
        runtime.admit_guest(id("p"), digest(), Staged::Unlinkable("no import".to_owned()));
    assert!(
        matches!(&unlinkable, Err(AdmitError::ArtifactRefused(r)) if r == "pre-instantiating `p`: no import")
    );
    let unserved =
        runtime.admit_guest(id("p"), digest(), Staged::Linked(1, Err("carrier".to_owned())));
    assert_eq!(
        unserved.err().map(admit_text),
        Some(AdmitError::Internal("serving `p` seam exports: carrier".to_owned()).text())
    );
    assert!(runtime.check_free(&id("p")).is_ok());
    runtime.admit_guest(id("p"), digest(), Staged::Linked(1, Ok(Some(3)))).ok().expect("admits");
    assert_eq!(runtime.registry().get(&id("p")).expect("registered").digest(), Some("sha256:00"));
    let taken = runtime.admit_guest(id("p"), digest(), Staged::Linked(1, Ok(None)));
    assert!(
        matches!(&taken, Err(AdmitError::AlreadyRegistered(r)) if r == "guest `p` is already registered")
    );
    assert!(runtime.check_free(&id("p")).is_err());
    runtime.deregister(&id("p")).ok().expect("deregisters");
    assert!(runtime.check_free(&id("p")).is_ok());
    runtime
        .register(id("p"), Staged::Linked(2, Ok(None)))
        .ok()
        .expect("the identity is free again");
    runtime.shutdown();
}

#[test]
fn registration_runs_in_stages() {
    let mut runtime = runtime(vec![loaded("a")], None);
    let taken = runtime.register(id("a"), Staged::Invalid("not wasm".to_owned()));
    assert_eq!(taken.unwrap_err().text(), "guest `a` is already registered");
    let invalid = runtime.register(id("p"), Staged::Invalid("not wasm".to_owned()));
    assert_eq!(invalid.unwrap_err().text(), "loading guest `p`: not wasm");
    let unlinkable = runtime.register(id("p"), Staged::Unlinkable("no import".to_owned()));
    assert_eq!(unlinkable.unwrap_err().text(), "no import");
    let unserved = runtime.register(id("p"), Staged::Linked(1, Err("carrier".to_owned())));
    assert_eq!(unserved.unwrap_err().text(), "serving guest `p` link exports: carrier");
    assert!(runtime.registry().get(&id("p")).is_none());
    runtime.register(id("p"), Staged::Linked(1, Ok(None))).expect("registers");
    assert!(runtime.registry().get(&id("p")).expect("registered").digest().is_none());
}

#[test]
fn serve_links_through_the_runtime() {
    let mut runtime = runtime(vec![loaded("a")], None);
    runtime.serve_links(vec![Ok(Some(1))]).expect("serves");
    assert_eq!(runtime.registry().seam().connect(&id("a"), "i"), Ok(&1));
}

#[test]
fn runtimes_without_links() {
    let registry = Registry::assemble(options(), vec![loaded("a")], routes(&[]), NoLinks, false);
    let mut runtime: Runtime<(), u32, NoLinks, u64, String> = Runtime::from_parts(RuntimeParts {
        name: "test".to_owned(),
        registry: registry.ok().expect("assembles"),
        args: vec![],
        mounts: mounted(vec![], vec![]),
        backends: (),
        locations: vec![],
        command_guest: None,
    });
    runtime.serve_links();
    runtime.serve_links();
    let taken = runtime.register(id("a"), Staged::Linked(1, Ok(None)));
    assert_eq!(taken.unwrap_err().text(), "guest `a` is already registered");
    let invalid = runtime.register(id("p"), Staged::Invalid("not wasm".to_owned()));
    assert_eq!(invalid.unwrap_err().text(), "loading guest `p`: not wasm");
    runtime.register(id("p"), Staged::Linked(2, Ok(None))).expect("registers");
    assert_eq!(*runtime.registry().get(&id("p")).expect("registered").instance_pre(), 2);
    let refused =
        runtime.admit_guest(id("q"), "sha256:00".to_owned(), Staged::Unlinkable("x".to_owned()));
    assert!(
        matches!(&refused, Err(AdmitError::ArtifactRefused(r)) if r == "pre-instantiating `q`: x")
    );
    let again =
        runtime.admit_guest(id("p"), "sha256:00".to_owned(), Staged::Linked(3, Ok(None)));
    assert!(matches!(&again, Err(AdmitError::AlreadyRegistered(_))));
    runtime
        .admit_guest(id("q"), "sha256:00".to_owned(), Staged::Linked(3, Ok(None)))
        .ok()
        .expect("admits");
    assert_eq!(runtime.registry().get(&id("q")).expect("registered").digest(), Some("sha256:00"));
}

#[test]
fn stores_inherit_or_pin_their_environment() {
    let opts = options();
    let mounts = mounted(
        vec![preopen("a", "/a", true), preopen("b", "/b", false)],
        vec![opened(1), opened(2)],
    );
    let args = vec!["bin".to_owned()];
    let env = vec![("K".to_owned(), "V".to_owned())];
    let base = StoreBase::new(StoreConfig {
        options: &opts,
        args: Some(&args),
        mounts: Some(&mounts),
        env: Some(&env),
    });
    assert!(matches!(base.env, GuestEnv::Explicit(pairs) if pairs == &env));
    assert_eq!(base.args, Some(&args));
    assert_eq!(base.memory_size, 1 << 20);
    let perms: Vec<(&str, FsPerms)> =
        base.preopens.iter().map(|p| (p.name.as_str(), p.perms)).collect();
    assert_eq!(perms, [("a", FsPerms::ReadWrite), ("b", FsPerms::ReadOnly)]);

    let plain: StoreBase<'_> = StoreBase::new(StoreConfig::<u64> {
        options: &opts,
        args: None,
        mounts: None,
        env: None,
    });
    assert!(matches!(plain.env, GuestEnv::Inherit));
    assert!(plain.preopens.is_empty());
    assert_eq!(store_fuel(&opts), None);
    assert_eq!(store_fuel(&RuntimeOptions { max_fuel: 5, ..opts }), Some(5));
}

#[test]
fn runtime_stores_carry_args_and_mounts() {
    let runtime = runtime(vec![loaded("a")], None);
    let base = runtime.store();
    assert_eq!(base.args.map(Vec::len), Some(1));
    assert_eq!(base.preopens.len(), 1);
}

#[test]
fn texts_order_by_bytes() {
    assert!(matches!(order("a", "b"), Order::Before));
    assert!(matches!(order("b", "a"), Order::After));
    assert!(matches!(order("a", "a"), Order::Same));
    assert!(matches!(order("a", "aa"), Order::Before));
    assert_eq!(decimal_text(0), "0");
    assert_eq!(decimal_text(18_446_744_073_709_551_615), "18446744073709551615");
    assert_eq!(join(&vec!["a".to_owned(), "b".to_owned()], ", "), "a, b");
    assert_eq!(join(&vec![], ", "), "");
}

#[test]
fn id_maps_keep_keys_sorted() {
    let mut map: IdMap<u8> = IdMap::new();
    for (key, value) in [("b", 2), ("a", 1), ("c", 3), ("a", 9)] {
        map.insert(key.to_owned(), value);
    }
    assert_eq!(map.len(), 3);
    assert_eq!((map.key_at(0).as_str(), *map.value_at(0)), ("a", 9));
    assert_eq!(map.get("c"), Some(&3));
    assert_eq!(map.remove("b"), Some(2));
    assert!(!map.contains_key("b"));
    map.clear();
    assert_eq!(map.len(), 0);
}
