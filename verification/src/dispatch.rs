//! Host-originated dispatch into guest exports.
//!
//! A dispatch begins ([`begin`]), finds its export ([`resolve`]), calls it on a
//! fresh instance, and checks what came back ([`finish`]).

use crate::chain::{ChainCtx, ChainPolicy, DepthExceeded};
use crate::link::polyfill::{Extern, Member};
use crate::registry::{Guest, GuestId, Registry};
use crate::seam::LinkSeam;
use crate::text::{join, str_eq};
use crate::value::{any_resource, Val};
use vstd::prelude::*;
use vstd::string::StringExecFns;

verus! {

/// Why a dispatch was refused.
#[derive(Debug, PartialEq, Eq)]
pub enum DispatchError {
    /// An argument carries a resource handle.
    Argument { interface: String, func: String, target: String },
    /// The target is not registered.
    NotRegistered { interface: String, func: String, target: String },
    /// The hop would exceed the maximum depth.
    Depth(DepthExceeded),
    /// The target exports no such interface.
    NoInterface { interface: String, target: String },
    /// The interface exports no such member.
    NoFunc { interface: String, func: String, target: String },
    /// The member is not a function.
    NotFunction { interface: String, func: String, target: String },
    /// A result carries a resource handle.
    Returned { interface: String, func: String, target: String },
}

impl DispatchError {
    pub open spec fn text_spec(self) -> Seq<char> {
        match self {
            DispatchError::Argument { interface, func, target } => "a resource handle cannot cross the link seam (host\u{2192}guest `"@
                + interface@ + "/"@ + func@ + "`, target `"@ + target@ + "`)"@,
            DispatchError::NotRegistered { interface, func, target } => "dispatching `"@
                + interface@ + "/"@ + func@ + "` to guest `"@ + target@
                + "`: guest is not registered"@,
            DispatchError::Depth(e) => crate::chain::depth_text(
                e.depth as nat,
                e.max_depth as nat,
                e.target@,
            ),
            DispatchError::NoInterface { interface, target } => "guest `"@ + target@
                + "` exports no interface `"@ + interface@ + "`"@,
            DispatchError::NoFunc { interface, func, target } => "interface `"@ + interface@
                + "` (guest `"@ + target@ + "`) exports no `"@ + func@ + "`"@,
            DispatchError::NotFunction { interface, func, target } => "`"@ + interface@ + "/"@
                + func@ + "` (guest `"@ + target@ + "`) is not a function"@,
            DispatchError::Returned { interface, func, target } => "a resource handle cannot cross the link seam (result of `"@
                + interface@ + "/"@ + func@ + "`, target `"@ + target@ + "`)"@,
        }
    }

    /// The refusal in words.
    pub fn text(&self) -> (text: String)
        ensures
            text@ == self.text_spec(),
    {
        match self {
            DispatchError::Argument { interface, func, target } => String::from_str(
                "a resource handle cannot cross the link seam (host\u{2192}guest `",
            ).concat(interface.as_str()).concat("/").concat(func.as_str()).concat(
                "`, target `",
            ).concat(target.as_str()).concat("`)"),
            DispatchError::NotRegistered { interface, func, target } => String::from_str(
                "dispatching `",
            ).concat(interface.as_str()).concat("/").concat(func.as_str()).concat(
                "` to guest `",
            ).concat(target.as_str()).concat("`: guest is not registered"),
            DispatchError::Depth(e) => e.text(),
            DispatchError::NoInterface { interface, target } => String::from_str(
                "guest `",
            ).concat(target.as_str()).concat("` exports no interface `").concat(
                interface.as_str(),
            ).concat("`"),
            DispatchError::NoFunc { interface, func, target } => String::from_str(
                "interface `",
            ).concat(interface.as_str()).concat("` (guest `").concat(target.as_str()).concat(
                "`) exports no `",
            ).concat(func.as_str()).concat("`"),
            DispatchError::NotFunction { interface, func, target } => String::from_str(
                "`",
            ).concat(interface.as_str()).concat("/").concat(func.as_str()).concat(
                "` (guest `",
            ).concat(target.as_str()).concat("`) is not a function"),
            DispatchError::Returned { interface, func, target } => String::from_str(
                "a resource handle cannot cross the link seam (result of `",
            ).concat(interface.as_str()).concat("/").concat(func.as_str()).concat(
                "`, target `",
            ).concat(target.as_str()).concat("`)"),
        }
    }
}

/// Begin a dispatch from the chain context `current`: reject crossing
/// resources, look the target up, and count the hop exactly like a
/// guest-to-guest dispatch, in that order.
///
/// # Errors
///
/// Returns an error if an argument carries a resource handle, the target is
/// not registered, or the depth bound is exceeded.
pub fn begin<'a, T, S: LinkSeam>(
    registry: &'a Registry<T, S>,
    policy: &ChainPolicy,
    current: ChainCtx,
    target: &GuestId,
    interface: &str,
    func: &str,
    args: &Vec<Val>,
) -> (r: Result<(&'a Guest<T>, ChainCtx), DispatchError>)
    requires
        registry.wf(),
        current.depth < usize::MAX,
    ensures
        if crate::link::links::carry_resource(args@) {
            r matches Err(DispatchError::Argument { interface: i, func: f, target: t }) && i@
                == interface@ && f@ == func@ && t@ == target@
        } else if !registry.guest_map().dom().contains(target@) {
            r matches Err(DispatchError::NotRegistered { interface: i, func: f, target: t }) && i@
                == interface@ && f@ == func@ && t@ == target@
        } else {
            match crate::chain::entered(policy.max_depth, current) {
                None => r matches Err(DispatchError::Depth(e)) && e.depth == current.depth + 1
                    && e.max_depth == policy.max_depth && e.target@ == target@,
                Some(ctx) => r matches Ok((guest, at)) && *guest == registry.guest_map()[target@]
                    && at == ctx,
            }
        },
{
    if any_resource(args) {
        return Err(
            DispatchError::Argument {
                interface: String::from_str(interface),
                func: String::from_str(func),
                target: String::from_str(target.as_str()),
            },
        );
    }
    let guest = match registry.get(target) {
        Some(guest) => guest,
        None => {
            return Err(
                DispatchError::NotRegistered {
                    interface: String::from_str(interface),
                    func: String::from_str(func),
                    target: String::from_str(target.as_str()),
                },
            );
        },
    };
    match policy.enter(current, target) {
        Ok(ctx) => Ok((guest, ctx)),
        Err(e) => Err(DispatchError::Depth(e)),
    }
}

/// The first export with the name, from `i` on.
pub open spec fn export_named(exports: Seq<Extern>, name: Seq<char>, i: int) -> Option<Extern>
    decreases exports.len() - i,
{
    if i < 0 || i >= exports.len() {
        None
    } else if exports[i].name@ == name {
        Some(exports[i])
    } else {
        export_named(exports, name, i + 1)
    }
}

/// The first member with the name, from `i` on.
pub open spec fn member_named(members: Seq<Member>, name: Seq<char>, i: int) -> Option<Member>
    decreases members.len() - i,
{
    if i < 0 || i >= members.len() {
        None
    } else if members[i].name@ == name {
        Some(members[i])
    } else {
        member_named(members, name, i + 1)
    }
}

/// Find the function `func` of `interface` among a target's exports.
///
/// # Errors
///
/// Returns an error if the interface or the member is absent, or the member is
/// not a function.
pub fn resolve(exports: &Vec<Extern>, target: &GuestId, interface: &str, func: &str) -> (r: Result<
    (),
    DispatchError,
>)
    ensures
        match export_named(exports@, interface@, 0) {
            None => r matches Err(DispatchError::NoInterface { interface: i, target: t }) && i@
                == interface@ && t@ == target@,
            Some(export) => {
                let member = match export.interface {
                    Some(members) => member_named(members@, func@, 0),
                    None => None,
                };
                match member {
                    None => r matches Err(
                        DispatchError::NoFunc { interface: i, func: f, target: t },
                    ) && i@ == interface@ && f@ == func@ && t@ == target@,
                    Some(found) => if found.func is Some {
                        r is Ok
                    } else {
                        r matches Err(
                            DispatchError::NotFunction { interface: i, func: f, target: t },
                        ) && i@ == interface@ && f@ == func@ && t@ == target@
                    },
                }
            },
        },
{
    let mut i: usize = 0;
    while i < exports.len() && !str_eq(exports[i].name.as_str(), interface)
        invariant
            i <= exports@.len(),
            export_named(exports@, interface@, 0) == export_named(
                exports@,
                interface@,
                i as int,
            ),
        decreases exports@.len() - i,
    {
        i = i + 1;
    }
    if i == exports.len() {
        return Err(
            DispatchError::NoInterface {
                interface: String::from_str(interface),
                target: String::from_str(target.as_str()),
            },
        );
    }
    if let Some(members) = &exports[i].interface {
        let mut k: usize = 0;
        while k < members.len() && !str_eq(members[k].name.as_str(), func)
            invariant
                k <= members@.len(),
                member_named(members@, func@, 0) == member_named(members@, func@, k as int),
            decreases members@.len() - k,
        {
            k = k + 1;
        }
        if k < members.len() {
            if members[k].func.is_some() {
                return Ok(());
            }
            return Err(
                DispatchError::NotFunction {
                    interface: String::from_str(interface),
                    func: String::from_str(func),
                    target: String::from_str(target.as_str()),
                },
            );
        }
    }
    Err(
        DispatchError::NoFunc {
            interface: String::from_str(interface),
            func: String::from_str(func),
            target: String::from_str(target.as_str()),
        },
    )
}

/// Hand the results of a dispatch back: a target must not hand back a resource
/// handle either.
///
/// # Errors
///
/// Returns an error if a result carries a resource handle.
pub fn finish(results: Vec<Val>, target: &GuestId, interface: &str, func: &str) -> (r: Result<
    Vec<Val>,
    DispatchError,
>)
    ensures
        if crate::link::links::carry_resource(results@) {
            r matches Err(DispatchError::Returned { interface: i, func: f, target: t }) && i@
                == interface@ && f@ == func@ && t@ == target@
        } else {
            r == Ok::<Vec<Val>, DispatchError>(results)
        },
{
    if any_resource(&results) {
        return Err(
            DispatchError::Returned {
                interface: String::from_str(interface),
                func: String::from_str(func),
                target: String::from_str(target.as_str()),
            },
        );
    }
    Ok(results)
}

/// Whether one of the members is a function with the name.
pub open spec fn has_func(members: Seq<Member>, func: Seq<char>) -> bool {
    exists|i: int|
        0 <= i < members.len() && (#[trigger] members[i]).name@ == func && members[i].func is Some
}

/// The interfaces among the first `n` exports that carry a function with the
/// name, in order.
pub open spec fn carriers(exports: Seq<Extern>, func: Seq<char>, n: nat) -> Seq<Seq<char>>
    decreases n,
{
    if n == 0 || n > exports.len() {
        Seq::empty()
    } else {
        let before = carriers(exports, func, (n - 1) as nat);
        match exports[n - 1].interface {
            Some(members) => if has_func(members@, func) {
                before.push(exports[n - 1].name@)
            } else {
                before
            },
            None => before,
        }
    }
}

/// Why no interface could be found for a function.
#[derive(Debug, PartialEq, Eq)]
pub enum FindError {
    /// The target is not registered.
    NotRegistered { target: String },
    /// No interface carries the function.
    Absent { target: String, func: String },
    /// Several interfaces carry it.
    Ambiguous { target: String, func: String, interfaces: Vec<String> },
}

impl FindError {
    pub open spec fn text_spec(self) -> Seq<char> {
        match self {
            FindError::NotRegistered { target } => "dispatch target `"@ + target@
                + "` is not registered"@,
            FindError::Absent { target, func } => "dispatch target `"@ + target@
                + "` exports no interface with a `"@ + func@ + "` function"@,
            FindError::Ambiguous { target, func, interfaces } => "dispatch target `"@ + target@
                + "` exports `"@ + func@ + "` from several interfaces ("@ + crate::text::joined(
                crate::text::views(interfaces@),
                ", "@,
            ) + "); name the interface explicitly"@,
        }
    }

    /// The refusal in words.
    pub fn text(&self) -> (text: String)
        ensures
            text@ == self.text_spec(),
    {
        match self {
            FindError::NotRegistered { target } => String::from_str("dispatch target `").concat(
                target.as_str(),
            ).concat("` is not registered"),
            FindError::Absent { target, func } => String::from_str("dispatch target `").concat(
                target.as_str(),
            ).concat("` exports no interface with a `").concat(func.as_str()).concat(
                "` function",
            ),
            FindError::Ambiguous { target, func, interfaces } => String::from_str(
                "dispatch target `",
            ).concat(target.as_str()).concat("` exports `").concat(func.as_str()).concat(
                "` from several interfaces (",
            ).concat(join(interfaces, ", ").as_str()).concat(
                "); name the interface explicitly",
            ),
        }
    }
}

fn carries_func(members: &Vec<Member>, func: &str) -> (r: bool)
    ensures
        r == has_func(members@, func@),
{
    let mut i: usize = 0;
    while i < members.len()
        invariant
            i <= members@.len(),
            forall|k: int|
                0 <= k < i ==> !((#[trigger] members@[k]).name@ == func@ && members@[k].func
                    is Some),
        decreases members@.len() - i,
    {
        if str_eq(members[i].name.as_str(), func) && members[i].func.is_some() {
            return true;
        }
        i = i + 1;
    }
    false
}

/// Find the unique exported interface of the target that carries a function
/// named `func`, so a host can invoke it without naming a consumer interface.
/// Ambiguity is an error, never a silent first match. `exports` holds what the
/// target exports, if it is registered.
///
/// # Errors
///
/// Returns an error if the target is not registered, or not exactly one
/// interface carries the function.
pub fn find_interface(exports: Option<&Vec<Extern>>, target: &GuestId, func: &str) -> (r: Result<
    String,
    FindError,
>)
    ensures
        match exports {
            None => r matches Err(FindError::NotRegistered { target: t }) && t@ == target@,
            Some(list) => {
                let found = carriers(list@, func@, list@.len());
                if found.len() == 0 {
                    r matches Err(FindError::Absent { target: t, func: f }) && t@ == target@ && f@
                        == func@
                } else if found.len() == 1 {
                    r matches Ok(interface) && interface@ == found[0]
                } else {
                    r matches Err(FindError::Ambiguous { target: t, func: f, interfaces }) && t@
                        == target@ && f@ == func@ && crate::text::views(interfaces@) == found
                }
            },
        },
{
    let list = match exports {
        Some(list) => list,
        None => {
            return Err(FindError::NotRegistered { target: String::from_str(target.as_str()) });
        },
    };
    let mut found: Vec<String> = Vec::new();
    let mut i: usize = 0;
    assert(crate::text::views(found@) =~= Seq::empty());
    while i < list.len()
        invariant
            i <= list@.len(),
            crate::text::views(found@) == carriers(list@, func@, i as nat),
        decreases list@.len() - i,
    {
        if let Some(members) = &list[i].interface {
            if carries_func(members, func) {
                let ghost before = found@;
                found.push(list[i].name.clone());
                assert(crate::text::views(found@) =~= crate::text::views(before).push(
                    list@[i as int].name@,
                ));
            }
        }
        i = i + 1;
    }
    if found.len() == 0 {
        return Err(
            FindError::Absent {
                target: String::from_str(target.as_str()),
                func: String::from_str(func),
            },
        );
    }
    if found.len() == 1 {
        let ghost views = crate::text::views(found@);
        let interface = found.remove(0);
        assert(views[0] == interface@);
        return Ok(interface);
    }
    Err(
        FindError::Ambiguous {
            target: String::from_str(target.as_str()),
            func: String::from_str(func),
            interfaces: found,
        },
    )
}

/// The interface to invoke `func` on: the one that is named, else the unique
/// one that carries a function of that name.
///
/// # Errors
///
/// Returns an error if no interface is named and [`find_interface`] finds none.
pub fn choose_interface(
    interface: Option<String>,
    exports: Option<&Vec<Extern>>,
    target: &GuestId,
    func: &str,
) -> (r: Result<String, FindError>)
    ensures
        match interface {
            Some(name) => r == Ok::<String, FindError>(name),
            None => match exports {
                None => r matches Err(FindError::NotRegistered { target: t }) && t@ == target@,
                Some(list) => {
                    let found = carriers(list@, func@, list@.len());
                    if found.len() == 0 {
                        r matches Err(FindError::Absent { target: t, func: f }) && t@ == target@
                            && f@ == func@
                    } else if found.len() == 1 {
                        r matches Ok(name) && name@ == found[0]
                    } else {
                        r matches Err(FindError::Ambiguous { target: t, func: f, interfaces })
                            && t@ == target@ && f@ == func@ && crate::text::views(interfaces@)
                            == found
                    }
                },
            },
        },
{
    match interface {
        Some(name) => Ok(name),
        None => find_interface(exports, target, func),
    }
}

proof fn lemma_export_named(exports: Seq<Extern>, name: Seq<char>, i: int)
    requires
        0 <= i <= exports.len(),
    ensures
        match export_named(exports, name, i) {
            Some(export) => exists|k: int|
                i <= k < exports.len() && #[trigger] exports[k] == export && export.name@ == name
                    && forall|j: int| i <= j < k ==> (#[trigger] exports[j]).name@ != name,
            None => forall|k: int|
                i <= k < exports.len() ==> (#[trigger] exports[k]).name@ != name,
        },
    decreases exports.len() - i,
{
    if i < exports.len() {
        lemma_export_named(exports, name, i + 1);
        if exports[i].name@ == name {
            assert(i <= i < exports.len() && exports[i] == exports[i]);
        } else if let Some(export) = export_named(exports, name, i + 1) {
            let k = choose|k: int|
                i + 1 <= k < exports.len() && #[trigger] exports[k] == export && export.name@
                    == name && forall|j: int|
                    i + 1 <= j < k ==> (#[trigger] exports[j]).name@ != name;
            assert forall|j: int| i <= j < k implies (#[trigger] exports[j]).name@ != name by {
                if j > i {
                    assert(i + 1 <= j);
                }
            }
            assert(i <= k < exports.len() && exports[k] == export);
        } else {
            assert forall|k: int| i <= k < exports.len() implies (#[trigger] exports[k]).name@
                != name by {
                if k > i {
                    assert(i + 1 <= k);
                }
            }
        }
    }
}

proof fn lemma_member_named(members: Seq<Member>, name: Seq<char>, i: int)
    requires
        0 <= i <= members.len(),
    ensures
        match member_named(members, name, i) {
            Some(member) => exists|k: int|
                i <= k < members.len() && #[trigger] members[k] == member && member.name@ == name
                    && forall|j: int| i <= j < k ==> (#[trigger] members[j]).name@ != name,
            None => forall|k: int|
                i <= k < members.len() ==> (#[trigger] members[k]).name@ != name,
        },
    decreases members.len() - i,
{
    if i < members.len() {
        lemma_member_named(members, name, i + 1);
        if members[i].name@ == name {
            assert(i <= i < members.len() && members[i] == members[i]);
        } else if let Some(member) = member_named(members, name, i + 1) {
            let k = choose|k: int|
                i + 1 <= k < members.len() && #[trigger] members[k] == member && member.name@
                    == name && forall|j: int|
                    i + 1 <= j < k ==> (#[trigger] members[j]).name@ != name;
            assert forall|j: int| i <= j < k implies (#[trigger] members[j]).name@ != name by {
                if j > i {
                    assert(i + 1 <= j);
                }
            }
            assert(i <= k < members.len() && members[k] == member);
        } else {
            assert forall|k: int| i <= k < members.len() implies (#[trigger] members[k]).name@
                != name by {
                if k > i {
                    assert(i + 1 <= k);
                }
            }
        }
    }
}

/// A dispatch finds its export exactly where it is one: of a target whose
/// exports, and whose interfaces' members, carry distinct names, a function
/// resolves if and only if an exported interface of the name has a member of
/// the name that is a function.
pub proof fn exported_functions_resolve(
    exports: Vec<Extern>,
    target: GuestId,
    interface: &str,
    func: &str,
    r: Result<(), DispatchError>,
)
    requires
        call_ensures(resolve, (&exports, &target, interface, func), r),
        forall|i: int, k: int|
            0 <= i < k < exports@.len() ==> (#[trigger] exports@[i]).name@ != (
            #[trigger] exports@[k]).name@,
        forall|i: int|
            0 <= i < exports@.len() ==> ((#[trigger] exports@[i]).interface matches Some(members)
                ==> crate::link::polyfill::distinct_members(members@)),
    ensures
        r is Ok <==> exists|i: int, m: int|
            #![trigger exports@[i], exports@[i].interface->0@[m]]
            0 <= i < exports@.len() && exports@[i].name@ == interface@ && exports@[i].interface
                is Some && 0 <= m < exports@[i].interface->0@.len()
                && exports@[i].interface->0@[m].name@ == func@
                && exports@[i].interface->0@[m].func is Some,
{
    lemma_export_named(exports@, interface@, 0);
    if let Some(export) = export_named(exports@, interface@, 0) {
        let i = choose|i: int|
            0 <= i < exports@.len() && #[trigger] exports@[i] == export && export.name@
                == interface@ && forall|j: int|
                0 <= j < i ==> (#[trigger] exports@[j]).name@ != interface@;
        if let Some(members) = export.interface {
            lemma_member_named(members@, func@, 0);
            if let Some(member) = member_named(members@, func@, 0) {
                let m = choose|m: int|
                    0 <= m < members@.len() && #[trigger] members@[m] == member && member.name@
                        == func@ && forall|j: int|
                        0 <= j < m ==> (#[trigger] members@[j]).name@ != func@;
                assert(exports@[i].interface->0@[m] == member);
                if member.func is Some {
                    assert(exports@[i].interface->0@[m].func is Some);
                }
            }
        }
        if exists|k: int, m: int|
            #![trigger exports@[k], exports@[k].interface->0@[m]]
            0 <= k < exports@.len() && exports@[k].name@ == interface@ && exports@[k].interface
                is Some && 0 <= m < exports@[k].interface->0@.len()
                && exports@[k].interface->0@[m].name@ == func@
                && exports@[k].interface->0@[m].func is Some {
            let (k, m) = choose|k: int, m: int|
                #![trigger exports@[k], exports@[k].interface->0@[m]]
                0 <= k < exports@.len() && exports@[k].name@ == interface@ && exports@[k].interface
                    is Some && 0 <= m < exports@[k].interface->0@.len()
                    && exports@[k].interface->0@[m].name@ == func@
                    && exports@[k].interface->0@[m].func is Some;
            if k < i {
                assert(exports@[k].name@ != exports@[i].name@);
            } else if i < k {
                assert(exports@[i].name@ != exports@[k].name@);
            }
            let members = export.interface->0@;
            assert(crate::link::polyfill::distinct_members(members));
            let found = member_named(members, func@, 0)->0;
            let q = choose|q: int|
                0 <= q < members.len() && #[trigger] members[q] == found && found.name@ == func@
                    && forall|j: int| 0 <= j < q ==> (#[trigger] members[j]).name@ != func@;
            if q < m {
                assert(members[q].name@ != members[m].name@);
            } else if m < q {
                assert(members[m].name@ != members[q].name@);
            }
        }
    }
}

/// Whether an export is an interface with a function of the name.
pub open spec fn carries(export: Extern, func: Seq<char>) -> bool {
    export.interface matches Some(members) && exists|m: int|
        0 <= m < members@.len() && (#[trigger] members@[m]).name@ == func && members@[m].func
            is Some
}

proof fn lemma_carriers(exports: Seq<Extern>, func: Seq<char>, n: nat)
    requires
        n <= exports.len(),
    ensures
        (forall|i: int| 0 <= i < n ==> !carries(#[trigger] exports[i], func)) <==> carriers(
            exports,
            func,
            n,
        ).len() == 0,
        forall|i: int|
            0 <= i < n && carries(#[trigger] exports[i], func) && (forall|k: int|
                0 <= k < n && k != i ==> !carries(#[trigger] exports[k], func)) ==> carriers(
                exports,
                func,
                n,
            ) == seq![exports[i].name@],
        forall|i: int, k: int|
            0 <= i < k < n && carries(#[trigger] exports[i], func) && carries(
                #[trigger] exports[k],
                func,
            ) ==> carriers(exports, func, n).len() >= 2,
    decreases n,
{
    if n > 0 {
        let p = (n - 1) as nat;
        lemma_carriers(exports, func, p);
        let last = exports[p as int];
        let before = carriers(exports, func, p);
        let now = carriers(exports, func, n);
        assert(carries(last, func) == (last.interface is Some && has_func(
            last.interface->0@,
            func,
        )));
        if carries(last, func) {
            assert(now == before.push(last.name@));
        } else {
            assert(now == before);
        }
        assert forall|i: int|
            0 <= i < n && carries(#[trigger] exports[i], func) && (forall|k: int|
                0 <= k < n && k != i ==> !carries(#[trigger] exports[k], func)) implies now
            == seq![exports[i].name@] by {
            if i == p {
                assert(before.len() == 0);
                assert(now =~= seq![last.name@]);
            } else {
                assert(!carries(exports[p as int], func));
            }
        }
        assert forall|i: int, k: int|
            0 <= i < k < n && carries(#[trigger] exports[i], func) && carries(
                #[trigger] exports[k],
                func,
            ) implies now.len() >= 2 by {
            if k == p {
                assert(before.len() > 0);
            }
        }
    }
}

/// A host that names no interface reaches the one that carries the function,
/// and no other: an interface is found exactly where a single export carries a
/// function of the name, and it is that export. More than one is refused as
/// ambiguous, never resolved to the first.
pub proof fn the_only_carrier_is_found(
    exports: Vec<Extern>,
    target: GuestId,
    func: &str,
    r: Result<String, FindError>,
    i: int,
    k: int,
)
    requires
        call_ensures(find_interface, (Some(&exports), &target, func), r),
        0 <= i < exports@.len(),
        0 <= k < exports@.len(),
    ensures
        carries(exports@[i], func@) && (forall|j: int|
            0 <= j < exports@.len() && j != i ==> !carries(#[trigger] exports@[j], func@)) ==> r
            is Ok && r->Ok_0@ == exports@[i].name@,
        i != k && carries(exports@[i], func@) && carries(exports@[k], func@) ==> (r matches Err(
            FindError::Ambiguous { .. },
        )),
        (forall|j: int| 0 <= j < exports@.len() ==> !carries(#[trigger] exports@[j], func@)) ==> (
        r matches Err(FindError::Absent { .. })),
{
    lemma_carriers(exports@, func@, exports@.len());
}

/// A dispatch begins exactly where nothing speaks against it: no argument
/// carries a handle, the target is registered and the chain has room for one
/// more hop. It then reaches that guest, one hop deeper, under the chain's own
/// wall-clock policy.
pub proof fn dispatches_begin_where_they_may<'a, T, S: LinkSeam>(
    registry: &'a Registry<T, S>,
    policy: ChainPolicy,
    current: ChainCtx,
    target: GuestId,
    interface: &str,
    func: &str,
    args: Vec<Val>,
    r: Result<(&'a Guest<T>, ChainCtx), DispatchError>,
)
    requires
        current.depth < usize::MAX,
        call_ensures(
            begin::<T, S>,
            (registry, &policy, current, &target, interface, func, &args),
            r,
        ),
    ensures
        r is Ok <==> {
            &&& crate::link::links::handle_free(args@)
            &&& registry.guest_map().dom().contains(target@)
            &&& current.depth + 1 <= policy.max_depth
        },
        r matches Ok((guest, ctx)) ==> {
            &&& *guest == registry.guest_map()[target@]
            &&& ctx.depth == current.depth + 1
            &&& ctx.uncapped == current.uncapped
        },
        !crate::link::links::handle_free(args@) ==> r is Err && r->Err_0 is Argument,
{
    crate::link::links::handles_are_seen_among_values(args@);
}

/// Results are handed back as they are exactly where none carries a handle.
pub proof fn results_come_back_as_they_are(
    results: Vec<Val>,
    target: GuestId,
    interface: &str,
    func: &str,
    r: Result<Vec<Val>, DispatchError>,
)
    requires
        call_ensures(finish, (results, &target, interface, func), r),
    ensures
        r is Ok <==> crate::link::links::handle_free(results@),
        r is Ok ==> r->Ok_0@ == results@,
        r is Err ==> r->Err_0 is Returned,
{
    crate::link::links::handles_are_seen_among_values(results@);
}

/// A named interface is taken at its word, whatever the target exports; without
/// a name the choice is what finding one comes to.
pub proof fn named_interfaces_are_taken(
    name: String,
    exports: Option<&Vec<Extern>>,
    target: GuestId,
    func: &str,
    named: Result<String, FindError>,
    chosen: Result<String, FindError>,
    found: Result<String, FindError>,
)
    requires
        call_ensures(choose_interface, (Some(name), exports, &target, func), named),
        call_ensures(choose_interface, (None, exports, &target, func), chosen),
        call_ensures(find_interface, (exports, &target, func), found),
    ensures
        named is Ok && named->Ok_0@ == name@,
        chosen is Ok <==> found is Ok,
        chosen is Ok ==> chosen->Ok_0@ == found->Ok_0@,
{
}

/// A refused dispatch is told with its interface, its function and its target.
pub proof fn dispatch_refusals_name_the_call(e: DispatchError)
    ensures
        match e {
            DispatchError::Argument { interface, func, target } => {
                &&& crate::text::holds(e.text_spec(), interface@)
                &&& crate::text::holds(e.text_spec(), func@)
                &&& crate::text::holds(e.text_spec(), target@)
            },
            DispatchError::NotRegistered { interface, func, target } => {
                &&& crate::text::holds(e.text_spec(), interface@)
                &&& crate::text::holds(e.text_spec(), func@)
                &&& crate::text::holds(e.text_spec(), target@)
            },
            DispatchError::NoInterface { interface, target } => {
                &&& crate::text::holds(e.text_spec(), interface@)
                &&& crate::text::holds(e.text_spec(), target@)
            },
            DispatchError::NoFunc { interface, func, target } => {
                &&& crate::text::holds(e.text_spec(), interface@)
                &&& crate::text::holds(e.text_spec(), func@)
                &&& crate::text::holds(e.text_spec(), target@)
            },
            DispatchError::NotFunction { interface, func, target } => {
                &&& crate::text::holds(e.text_spec(), interface@)
                &&& crate::text::holds(e.text_spec(), func@)
                &&& crate::text::holds(e.text_spec(), target@)
            },
            DispatchError::Returned { interface, func, target } => {
                &&& crate::text::holds(e.text_spec(), interface@)
                &&& crate::text::holds(e.text_spec(), func@)
                &&& crate::text::holds(e.text_spec(), target@)
            },
            _ => true,
        },
{
    match e {
        DispatchError::Argument { interface, func, target } => {
            crate::text::holding_goes_on(interface@);
            crate::text::holding_goes_on(func@);
            crate::text::holding_goes_on(target@);
        },
        DispatchError::NotRegistered { interface, func, target } => {
            crate::text::holding_goes_on(interface@);
            crate::text::holding_goes_on(func@);
            crate::text::holding_goes_on(target@);
        },
        DispatchError::NoInterface { interface, target } => {
            crate::text::holding_goes_on(interface@);
            crate::text::holding_goes_on(target@);
        },
        DispatchError::NoFunc { interface, func, target } => {
            crate::text::holding_goes_on(interface@);
            crate::text::holding_goes_on(func@);
            crate::text::holding_goes_on(target@);
        },
        DispatchError::NotFunction { interface, func, target } => {
            crate::text::holding_goes_on(interface@);
            crate::text::holding_goes_on(func@);
            crate::text::holding_goes_on(target@);
        },
        DispatchError::Returned { interface, func, target } => {
            crate::text::holding_goes_on(interface@);
            crate::text::holding_goes_on(func@);
            crate::text::holding_goes_on(target@);
        },
        _ => {},
    }
}

/// A function that was not found is told with its target, and with the
/// interfaces where several carry it.
pub proof fn find_refusals_name_the_function(e: FindError)
    ensures
        match e {
            FindError::NotRegistered { target } => {
                &&& crate::text::holds(e.text_spec(), target@)
            },
            FindError::Absent { target, func } => {
                &&& crate::text::holds(e.text_spec(), target@)
                &&& crate::text::holds(e.text_spec(), func@)
            },
            FindError::Ambiguous { target, func, interfaces } => {
                &&& crate::text::holds(e.text_spec(), target@)
                &&& crate::text::holds(e.text_spec(), func@)
                &&& crate::text::holds(e.text_spec(), crate::text::joined(crate::text::views(interfaces@), ", "@))
            },
        },
{
    match e {
        FindError::NotRegistered { target } => {
            crate::text::holding_goes_on(target@);
        },
        FindError::Absent { target, func } => {
            crate::text::holding_goes_on(target@);
            crate::text::holding_goes_on(func@);
        },
        FindError::Ambiguous { target, func, interfaces } => {
            crate::text::holding_goes_on(target@);
            crate::text::holding_goes_on(func@);
            crate::text::holding_goes_on(crate::text::joined(crate::text::views(interfaces@), ", "@));
        },
    }
}

} // verus!
