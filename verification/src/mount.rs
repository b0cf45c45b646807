//! Preopen mounts and the mount registry.
//!
//! A deployment may mount node-local directories into a guest's sandbox. The
//! registry maps a lent directory descriptor back to its mount by directory
//! identity; it, never the descriptor, supplies the resolved handle `D`.

use crate::text::str_eq;
use vstd::prelude::*;
use vstd::string::StringExecFns;

verus! {

/// A preopen mount resolved to an absolute host path and writability, ready
/// to be opened into the guest sandbox and recorded in the [`MountRegistry`].
#[derive(Debug, PartialEq, Eq)]
pub struct ResolvedPreopen {
    /// Guest-visible name returned by `preopens.get-directories()`.
    pub name: String,
    /// Absolute host path of the mount root.
    pub host_path: String,
    /// Whether the mount permits writes; read-only otherwise.
    pub writable: bool,
}

impl ResolvedPreopen {
    /// Build a resolved preopen: read-only unless `writable`.
    #[must_use]
    pub fn new(name: String, host_path: String, writable: bool) -> (r: Self)
        ensures
            r == (ResolvedPreopen { name, host_path, writable }),
    {
        ResolvedPreopen { name, host_path, writable }
    }
}

/// The position of the first preopen with the name, if any.
pub open spec fn position(list: Seq<ResolvedPreopen>, name: Seq<char>, i: int) -> Option<int>
    decreases list.len() - i,
{
    if i < 0 || i >= list.len() {
        None
    } else if list[i].name@ == name {
        Some(i)
    } else {
        position(list, name, i + 1)
    }
}

/// The first `n` preopens with those sharing a name collapsed: the last one's
/// value at the position of the first.
pub open spec fn collapsed(list: Seq<ResolvedPreopen>, n: nat) -> Seq<ResolvedPreopen>
    decreases n,
{
    if n == 0 || n > list.len() {
        Seq::empty()
    } else {
        let before = collapsed(list, (n - 1) as nat);
        match position(before, list[n - 1].name@, 0) {
            Some(i) => before.update(i, list[n - 1]),
            None => before.push(list[n - 1]),
        }
    }
}

proof fn lemma_position(list: Seq<ResolvedPreopen>, name: Seq<char>, i: int)
    requires
        0 <= i <= list.len(),
    ensures
        match position(list, name, i) {
            Some(k) => i <= k < list.len() && list[k].name@ == name,
            None => forall|k: int| i <= k < list.len() ==> (#[trigger] list[k]).name@ != name,
        },
    decreases list.len() - i,
{
    if i < list.len() && list[i].name@ != name {
        lemma_position(list, name, i + 1);
        if position(list, name, i + 1) is None {
            assert forall|k: int| i <= k < list.len() implies (#[trigger] list[k]).name@ != name by {
                if k > i {
                    assert(i + 1 <= k < list.len());
                }
            }
        }
    }
}

/// Collapse preopens sharing a guest-visible name to a single entry, last
/// wins.
///
/// The winning entry keeps the position of the first occurrence of its name so
/// the overall order is stable; only its value is taken from the last
/// occurrence.
pub fn dedup_last_wins(preopens: Vec<ResolvedPreopen>) -> (r: Vec<ResolvedPreopen>)
    ensures
        r@ == collapsed(preopens@, preopens@.len()),
{
    let ghost all = preopens@;
    let mut deduped: Vec<ResolvedPreopen> = Vec::new();
    for preopen in it: preopens
        invariant
            it.seq() == all,
            deduped@ == collapsed(all, it.index() as nat),
    {
        let ghost n = it.index();
        assert(preopen == all[n]);
        proof {
            lemma_position(deduped@, preopen.name@, 0);
        }
        match find_name(&deduped, preopen.name.as_str()) {
            Some(i) => {
                deduped.set(i, preopen);
            },
            None => {
                deduped.push(preopen);
            },
        }
    }
    deduped
}

fn find_name(list: &Vec<ResolvedPreopen>, name: &str) -> (r: Option<usize>)
    ensures
        match r {
            Some(i) => position(list@, name@, 0) == Some(i as int) && i < list@.len(),
            None => position(list@, name@, 0) is None,
        },
{
    let mut i: usize = 0;
    while i < list.len()
        invariant
            i <= list@.len(),
            position(list@, name@, 0) == position(list@, name@, i as int),
        decreases list@.len() - i,
    {
        if str_eq(list[i].name.as_str(), name) {
            return Some(i);
        }
        i = i + 1;
    }
    None
}

/// A single resolved mount: one record in the [`MountRegistry`].
#[derive(Debug, PartialEq, Eq)]
pub struct Mount<D> {
    /// Guest-visible name returned by `preopens.get-directories()`.
    pub name: String,
    /// Absolute host path of the mount root.
    pub host_path: String,
    /// Host-side capability handle to the mount root.
    pub dir: D,
    /// Whether the mount permits writes; read-only otherwise.
    pub writable: bool,
    /// Directory identity `(device, inode)`, used to match a lent descriptor
    /// back to this entry.
    pub identity: (u64, u64),
}

/// What opening a mount's host path as a directory gave.
pub enum Probe<D> {
    /// The directory and its identity.
    Opened(D, (u64, u64)),
    /// It could not be opened.
    OpenFailed(String),
    /// Its metadata could not be read.
    StatFailed(String),
}

/// Why the registry could not be built.
#[derive(Debug, PartialEq, Eq)]
pub enum MountError {
    /// A mount's host path could not be opened as a directory.
    Open { name: String, host_path: String, reason: String },
    /// A mount's metadata could not be read.
    Stat { name: String, reason: String },
    /// A mount was not probed.
    Unprobed { name: String },
}

impl MountError {
    pub open spec fn text_spec(self) -> Seq<char> {
        match self {
            MountError::Open { name, host_path, reason } => "opening mount `"@ + name@ + "` at "@
                + host_path@ + ": "@ + reason@,
            MountError::Stat { name, reason } => "reading metadata for mount `"@ + name@ + "`: "@
                + reason@,
            MountError::Unprobed { name } => "mount `"@ + name@ + "` was not opened"@,
        }
    }

    /// The failure in words.
    pub fn text(&self) -> (text: String)
        ensures
            text@ == self.text_spec(),
    {
        match self {
            MountError::Open { name, host_path, reason } => String::from_str(
                "opening mount `",
            ).concat(name.as_str()).concat("` at ").concat(host_path.as_str()).concat(
                ": ",
            ).concat(reason.as_str()),
            MountError::Stat { name, reason } => String::from_str(
                "reading metadata for mount `",
            ).concat(name.as_str()).concat("`: ").concat(reason.as_str()),
            MountError::Unprobed { name } => String::from_str("mount `").concat(
                name.as_str(),
            ).concat("` was not opened"),
        }
    }
}

/// How many preopens were opened before the first that was not.
pub open spec fn opened<D>(probes: Seq<Probe<D>>, n: nat, i: nat) -> nat
    decreases n - i,
{
    if i >= n || i >= probes.len() || !(probes[i as int] is Opened) {
        i
    } else {
        opened(probes, n, i + 1)
    }
}

/// The mount that a preopen and its probe give.
pub open spec fn mount_of<D>(preopen: ResolvedPreopen, probe: Probe<D>) -> Mount<D> {
    Mount {
        name: preopen.name,
        host_path: preopen.host_path,
        dir: probe->Opened_0,
        writable: preopen.writable,
        identity: probe->Opened_1,
    }
}

/// The host-side registry of authorized mounts, built once at startup and
/// shared read-only across every store.
#[derive(Debug, PartialEq, Eq)]
pub struct MountRegistry<D> {
    entries: Vec<Mount<D>>,
}

impl<D> View for MountRegistry<D> {
    type V = Seq<Mount<D>>;

    closed spec fn view(&self) -> Seq<Mount<D>> {
        self.entries@
    }
}

impl<D> MountRegistry<D> {
    /// The registry without mounts.
    pub fn new() -> (r: Self)
        ensures
            r@ == Seq::<Mount<D>>::empty(),
    {
        MountRegistry { entries: Vec::new() }
    }

    /// Build the registry from the preopens, those sharing a name collapsed
    /// (see [`dedup_last_wins`]), and from what opening each of those left, in
    /// order and up to the first failure, gave. Startup fails fast here: a
    /// mount that cannot be opened or stat-ed is a configuration error
    /// surfaced before the registry is built. A preopen that another overrides
    /// is never opened.
    ///
    /// # Errors
    ///
    /// Returns an error if a mount's host path could not be opened as a
    /// directory or its metadata could not be read.
    pub fn open(preopens: Vec<ResolvedPreopen>, probes: Vec<Probe<D>>) -> (r: Result<
        Self,
        MountError,
    >)
        ensures
            ({
                let kept = collapsed(preopens@, preopens@.len());
                let n = opened(probes@, kept.len(), 0);
                match r {
                    Ok(registry) => {
                        &&& n == kept.len()
                        &&& registry@.len() == n
                        &&& forall|i: int|
                            0 <= i < n ==> (#[trigger] registry@[i]) == mount_of(
                                kept[i],
                                probes@[i],
                            )
                    },
                    Err(e) => {
                        &&& n < kept.len()
                        &&& match e {
                            MountError::Open { name, host_path, reason } => n < probes@.len()
                                && probes@[n as int] == Probe::<D>::OpenFailed(reason) && name
                                == kept[n as int].name && host_path == kept[n as int].host_path,
                            MountError::Stat { name, reason } => n < probes@.len()
                                && probes@[n as int] == Probe::<D>::StatFailed(reason) && name
                                == kept[n as int].name,
                            MountError::Unprobed { name } => n >= probes@.len() && name
                                == kept[n as int].name,
                        }
                    },
                }
            }),
    {
        let kept = dedup_last_wins(preopens);
        let ghost all = kept@;
        let ghost tried = probes@;
        let mut rest = probes;
        let mut entries: Vec<Mount<D>> = Vec::new();
        assert(tried.skip(0) =~= tried);
        for preopen in it: kept
            invariant
                it.seq() == all,
                all == collapsed(preopens@, preopens@.len()),
                tried == probes@,
                it.index() <= tried.len(),
                rest@ == tried.skip(it.index()),
                entries@.len() == it.index(),
                opened(tried, all.len(), 0) == opened(tried, all.len(), it.index() as nat),
                forall|i: int|
                    0 <= i < it.index() ==> (#[trigger] entries@[i]) == mount_of(all[i], tried[i]),
        {
            let ghost n = it.index();
            assert(preopen == all[n]);
            if rest.len() == 0 {
                return Err(MountError::Unprobed { name: preopen.name });
            }
            let probe = rest.remove(0);
            assert(probe == tried[n]);
            assert(rest@ =~= tried.skip(n + 1));
            match probe {
                Probe::Opened(dir, identity) => {
                    entries.push(
                        Mount {
                            name: preopen.name,
                            host_path: preopen.host_path,
                            dir,
                            writable: preopen.writable,
                            identity,
                        },
                    );
                },
                Probe::OpenFailed(reason) => {
                    return Err(
                        MountError::Open {
                            name: preopen.name,
                            host_path: preopen.host_path,
                            reason,
                        },
                    );
                },
                Probe::StatFailed(reason) => {
                    return Err(MountError::Stat { name: preopen.name, reason });
                },
            }
        }
        Ok(MountRegistry { entries })
    }

    /// The registered mounts, the preopens to apply to each store.
    #[must_use]
    pub fn entries(&self) -> (r: &Vec<Mount<D>>)
        ensures
            r@ == self@,
    {
        &self.entries
    }

    /// The registered mount whose directory identity matches `(dev, ino)`, if
    /// any: the first of them.
    #[must_use]
    pub fn match_identity(&self, dev: u64, ino: u64) -> (r: Option<&Mount<D>>)
        ensures
            match r {
                Some(mount) => exists|i: int|
                    0 <= i < self@.len() && #[trigger] self@[i] == *mount && mount.identity == (
                        dev,
                        ino,
                    ) && forall|k: int| 0 <= k < i ==> (#[trigger] self@[k]).identity != (dev, ino),
                None => forall|k: int|
                    0 <= k < self@.len() ==> (#[trigger] self@[k]).identity != (dev, ino),
            },
    {
        let mut i: usize = 0;
        while i < self.entries.len()
            invariant
                i <= self.entries@.len(),
                forall|k: int| 0 <= k < i ==> (#[trigger] self@[k]).identity != (dev, ino),
            decreases self.entries@.len() - i,
        {
            if self.entries[i].identity.0 == dev && self.entries[i].identity.1 == ino {
                assert(self@[i as int].identity == (dev, ino));
                return Some(&self.entries[i]);
            }
            i = i + 1;
        }
        None
    }
}

/// The last of the first `n` preopens with the name.
pub open spec fn last_with(list: Seq<ResolvedPreopen>, name: Seq<char>, n: nat) -> Option<
    ResolvedPreopen,
>
    decreases n,
{
    if n == 0 || n > list.len() {
        None
    } else if list[n - 1].name@ == name {
        Some(list[n - 1])
    } else {
        last_with(list, name, (n - 1) as nat)
    }
}

proof fn lemma_collapsed(list: Seq<ResolvedPreopen>, n: nat)
    requires
        n <= list.len(),
    ensures
        forall|i: int, k: int|
            0 <= i < k < collapsed(list, n).len() ==> (#[trigger] collapsed(list, n)[i]).name@ != (
            #[trigger] collapsed(list, n)[k]).name@,
        forall|i: int|
            0 <= i < collapsed(list, n).len() ==> last_with(
                list,
                (#[trigger] collapsed(list, n)[i]).name@,
                n,
            ) == Some(collapsed(list, n)[i]),
        forall|name: Seq<char>|
            (#[trigger] last_with(list, name, n)) is Some ==> position(
                collapsed(list, n),
                name,
                0,
            ) is Some,
    decreases n,
{
    if n > 0 {
        let m = (n - 1) as nat;
        lemma_collapsed(list, m);
        let before = collapsed(list, m);
        let after = collapsed(list, n);
        let item = list[n - 1];
        lemma_position(before, item.name@, 0);
        assert forall|i: int, k: int| 0 <= i < k < after.len() implies (
        #[trigger] after[i]).name@ != (#[trigger] after[k]).name@ by {
            match position(before, item.name@, 0) {
                Some(p) => {
                    let a = before[i];
                    let b = before[k];
                },
                None => {
                    if k < before.len() {
                        let a = before[i];
                        let b = before[k];
                    } else {
                        let a = before[i];
                    }
                },
            }
        }
        assert forall|i: int| 0 <= i < after.len() implies last_with(
            list,
            (#[trigger] after[i]).name@,
            n,
        ) == Some(after[i]) by {
            if after[i].name@ != item.name@ {
                match position(before, item.name@, 0) {
                    Some(p) => {
                        assert(i != p);
                        assert(after[i] == before[i]);
                    },
                    None => {
                        assert(i < before.len());
                        assert(after[i] == before[i]);
                    },
                }
            } else {
                match position(before, item.name@, 0) {
                    Some(p) => {
                        if i != p {
                            assert(after[i] == before[i]);
                            assert(before[i].name@ != before[p].name@ || i == p) by {
                                if i < p {
                                    assert(before[i].name@ != before[p].name@);
                                } else if p < i {
                                    assert(before[p].name@ != before[i].name@);
                                }
                            }
                        }
                    },
                    None => {
                        if i < before.len() {
                            assert(after[i] == before[i]);
                        }
                    },
                }
            }
        }
        assert forall|name: Seq<char>| (#[trigger] last_with(list, name, n)) is Some implies position(
            after,
            name,
            0,
        ) is Some by {
            lemma_position(after, name, 0);
            if name == item.name@ {
                match position(before, item.name@, 0) {
                    Some(p) => {
                        assert(after[p].name@ == name);
                    },
                    None => {
                        assert(after[before.len() as int].name@ == name);
                    },
                }
            } else {
                assert(last_with(list, name, m) is Some);
                lemma_position(before, name, 0);
                let p = position(before, name, 0)->0;
                assert(before[p].name@ == name);
                assert(after[p].name@ == name);
            }
        }
    }
}

/// Preopens layered later override earlier ones of the same name: what is left
/// holds each name once, with the value of its last occurrence, and no name is
/// lost.
pub proof fn last_preopen_wins(list: Seq<ResolvedPreopen>, name: Seq<char>, i: int, k: int)
    ensures
        0 <= i < k < collapsed(list, list.len()).len() ==> collapsed(list, list.len())[i].name@
            != collapsed(list, list.len())[k].name@,
        0 <= i < collapsed(list, list.len()).len() ==> last_with(
            list,
            collapsed(list, list.len())[i].name@,
            list.len(),
        ) == Some(collapsed(list, list.len())[i]),
        last_with(list, name, list.len()) is Some ==> position(
            collapsed(list, list.len()),
            name,
            0,
        ) is Some,
{
    lemma_collapsed(list, list.len());
}

proof fn lemma_last_with(list: Seq<ResolvedPreopen>, k: int, n: nat)
    requires
        0 <= k < n <= list.len(),
        forall|j: int| k < j < n ==> (#[trigger] list[j]).name@ != list[k].name@,
    ensures
        last_with(list, list[k].name@, n) == Some(list[k]),
    decreases n,
{
    if k < n - 1 {
        assert(list[n - 1].name@ != list[k].name@);
        lemma_last_with(list, k, (n - 1) as nat);
    }
}

proof fn lemma_collapsed_from(list: Seq<ResolvedPreopen>, n: nat)
    requires
        n <= list.len(),
    ensures
        forall|i: int|
            0 <= i < collapsed(list, n).len() ==> list.take(n as int).contains(
                #[trigger] collapsed(list, n)[i],
            ),
    decreases n,
{
    if n > 0 {
        let p = (n - 1) as nat;
        let before = collapsed(list, p);
        let after = collapsed(list, n);
        lemma_collapsed_from(list, p);
        lemma_position(before, list[p as int].name@, 0);
        assert(list.take(n as int)[p as int] == list[p as int]);
        assert forall|i: int| 0 <= i < after.len() implies list.take(n as int).contains(
            #[trigger] after[i],
        ) by {
            if after[i] != list[p as int] {
                assert(after[i] == before[i]);
                let k = choose|k: int|
                    0 <= k < list.take(p as int).len() && list.take(p as int)[k] == before[i];
                assert(list.take(n as int)[k] == before[i]);
            }
        }
    }
}

/// Of the preopens that share a name the last is mounted: the last preopen of
/// its name is among those left, and what is left are preopens of the list.
pub proof fn the_last_of_a_name_is_mounted(list: Seq<ResolvedPreopen>, k: int, i: int)
    ensures
        0 <= k < list.len() && (forall|j: int|
            k < j < list.len() ==> (#[trigger] list[j]).name@ != list[k].name@) ==> collapsed(
            list,
            list.len(),
        ).contains(list[k]),
        0 <= i < collapsed(list, list.len()).len() ==> list.contains(
            collapsed(list, list.len())[i],
        ),
{
    let kept = collapsed(list, list.len());
    if 0 <= k < list.len() && (forall|j: int|
        k < j < list.len() ==> (#[trigger] list[j]).name@ != list[k].name@) {
        let name = list[k].name@;
        lemma_last_with(list, k, list.len());
        last_preopen_wins(list, name, 0, 0);
        lemma_position(kept, name, 0);
        let p = position(kept, name, 0)->0;
        last_preopen_wins(list, name, p, p);
        assert(kept[p] == list[k]);
    }
    lemma_collapsed_from(list, list.len());
    assert(list.take(list.len() as int) =~= list);
}

proof fn lemma_names_stay(list: Seq<ResolvedPreopen>, m: nat, n: nat, i: int)
    requires
        m <= n <= list.len(),
        0 <= i < collapsed(list, m).len(),
    ensures
        collapsed(list, m).len() <= collapsed(list, n).len(),
        collapsed(list, n)[i].name@ == collapsed(list, m)[i].name@,
    decreases n,
{
    if m < n {
        let p = (n - 1) as nat;
        lemma_names_stay(list, m, p, i);
        lemma_position(collapsed(list, p), list[p as int].name@, 0);
    }
}

proof fn lemma_collapsed_name(list: Seq<ResolvedPreopen>, m: nat, name: Seq<char>)
    requires
        m <= list.len(),
        forall|j: int| 0 <= j < m ==> (#[trigger] list[j]).name@ != name,
    ensures
        position(collapsed(list, m), name, 0) is None,
{
    lemma_collapsed_from(list, m);
    lemma_position(collapsed(list, m), name, 0);
    if let Some(p) = position(collapsed(list, m), name, 0) {
        let kept = collapsed(list, m);
        assert(list.take(m as int).contains(kept[p]));
        let k = choose|k: int|
            0 <= k < list.take(m as int).len() && list.take(m as int)[k] == kept[p];
        assert(list[k].name@ == name);
    }
}

/// Mounts keep the order in which their names first occur: of two names, the
/// one that occurs first in the list stands first among the mounts, whichever
/// of its preopens is the last.
pub proof fn mounts_keep_their_order(list: Seq<ResolvedPreopen>, a: int, b: int, i: int, k: int)
    requires
        0 <= a < b < list.len(),
        forall|j: int| 0 <= j < a ==> (#[trigger] list[j]).name@ != list[a].name@,
        forall|j: int| 0 <= j < b ==> (#[trigger] list[j]).name@ != list[b].name@,
        0 <= i < collapsed(list, list.len()).len(),
        0 <= k < collapsed(list, list.len()).len(),
        collapsed(list, list.len())[i].name@ == list[a].name@,
        collapsed(list, list.len())[k].name@ == list[b].name@,
    ensures
        i < k,
{
    let kept = collapsed(list, list.len());
    lemma_collapsed_name(list, a as nat, list[a].name@);
    lemma_collapsed_name(list, b as nat, list[b].name@);
    let at_a = collapsed(list, a as nat).len() as int;
    let at_b = collapsed(list, b as nat).len() as int;
    assert(collapsed(list, (a + 1) as nat)[at_a].name@ == list[a].name@);
    assert(collapsed(list, (b + 1) as nat)[at_b].name@ == list[b].name@);
    lemma_names_stay(list, (a + 1) as nat, b as nat, at_a);
    lemma_names_stay(list, (a + 1) as nat, list.len(), at_a);
    lemma_names_stay(list, (b + 1) as nat, list.len(), at_b);
    lemma_collapsed(list, list.len());
    if i != at_a {
        if i < at_a {
            assert(kept[i].name@ != kept[at_a].name@);
        } else {
            assert(kept[at_a].name@ != kept[i].name@);
        }
    }
    if k != at_b {
        if k < at_b {
            assert(kept[k].name@ != kept[at_b].name@);
        } else {
            assert(kept[at_b].name@ != kept[k].name@);
        }
    }
}

/// A mount is its preopen, opened: it has the preopen's name, path and
/// writability, and the directory and the identity that opening it gave. A
/// registry is built exactly where every preopen that is left was opened.
pub proof fn mounts_are_their_preopens<D>(
    preopens: Vec<ResolvedPreopen>,
    probes: Vec<Probe<D>>,
    r: Result<MountRegistry<D>, MountError>,
    i: int,
)
    requires
        call_ensures(MountRegistry::<D>::open, (preopens, probes), r),
    ensures
        ({
            let kept = collapsed(preopens@, preopens@.len());
            &&& r is Ok <==> (forall|k: int|
                #![trigger kept[k]]
                0 <= k < kept.len() ==> k < probes@.len() && probes@[k] is Opened)
            &&& r matches Ok(registry) ==> {
                &&& registry@.len() == kept.len()
                &&& 0 <= i < kept.len() ==> {
                    &&& registry@[i].name == kept[i].name
                    &&& registry@[i].host_path == kept[i].host_path
                    &&& registry@[i].writable == kept[i].writable
                    &&& probes@[i] == Probe::Opened(registry@[i].dir, registry@[i].identity)
                }
            }
        }),
{
    let kept = collapsed(preopens@, preopens@.len());
    lemma_opened(probes@, kept.len(), 0);
    let n = opened(probes@, kept.len(), 0);
    if n < kept.len() {
        assert(kept[n as int] == kept[n as int]);
    }
}

proof fn lemma_opened<D>(probes: Seq<Probe<D>>, n: nat, i: nat)
    requires
        i <= n,
    ensures
        i <= opened(probes, n, i) <= n,
        forall|k: int| i <= k < opened(probes, n, i) ==> k < probes.len() && (#[trigger] probes[k])
            is Opened,
        opened(probes, n, i) < n ==> opened(probes, n, i) >= probes.len() || !(probes[opened(
            probes,
            n,
            i,
        ) as int] is Opened),
    decreases n - i,
{
    if !(i >= n || i >= probes.len() || !(probes[i as int] is Opened)) {
        lemma_opened(probes, n, i + 1);
    }
}

/// A mount that was not opened is told by its name, with the reason.
pub proof fn mount_refusals_name_the_mount(e: MountError)
    ensures
        match e {
            MountError::Open { name, host_path, reason } => {
                &&& crate::text::holds(e.text_spec(), name@)
                &&& crate::text::holds(e.text_spec(), host_path@)
                &&& crate::text::holds(e.text_spec(), reason@)
            },
            MountError::Stat { name, reason } => {
                &&& crate::text::holds(e.text_spec(), name@)
                &&& crate::text::holds(e.text_spec(), reason@)
            },
            MountError::Unprobed { name } => {
                &&& crate::text::holds(e.text_spec(), name@)
            },
        },
{
    match e {
        MountError::Open { name, host_path, reason } => {
            crate::text::holding_goes_on(name@);
            crate::text::holding_goes_on(host_path@);
            crate::text::holding_goes_on(reason@);
        },
        MountError::Stat { name, reason } => {
            crate::text::holding_goes_on(name@);
            crate::text::holding_goes_on(reason@);
        },
        MountError::Unprobed { name } => {
            crate::text::holding_goes_on(name@);
        },
    }
}

} // verus!
