//! The serve side of a guest's linked exports.

use crate::link::polyfill::{Extern, Member};
use crate::link::transport::InProcess;
use crate::registry::GuestId;
use crate::seam::{LinkError, LinkSeam};
use crate::text::contains_str;
use vstd::prelude::*;
use vstd::string::StringExecFns;

verus! {

/// A function to serve over the carrier.
#[derive(Debug, PartialEq, Eq)]
pub struct ServedFunc {
    pub interface: String,
    pub func: String,
}

impl View for ServedFunc {
    type V = (Seq<char>, Seq<char>);

    open spec fn view(&self) -> (Seq<char>, Seq<char>) {
        (self.interface@, self.func@)
    }
}

/// The models of functions to serve.
pub open spec fn served_models(funcs: Seq<ServedFunc>) -> Seq<(Seq<char>, Seq<char>)> {
    funcs.map_values(|f: ServedFunc| f@)
}

/// The functions among the first `n` members of an interface.
pub open spec fn member_funcs(interface: Seq<char>, members: Seq<Member>, n: nat) -> Seq<
    (Seq<char>, Seq<char>),
>
    decreases n,
{
    if n == 0 || n > members.len() {
        Seq::empty()
    } else {
        let before = member_funcs(interface, members, (n - 1) as nat);
        if members[n - 1].func is Some {
            before.push((interface, members[n - 1].name@))
        } else {
            before
        }
    }
}

/// The functions of the declared interfaces among the first `n` exports.
pub open spec fn linked_funcs(exports: Seq<Extern>, interfaces: Seq<Seq<char>>, n: nat) -> Seq<
    (Seq<char>, Seq<char>),
>
    decreases n,
{
    if n == 0 || n > exports.len() {
        Seq::empty()
    } else {
        let before = linked_funcs(exports, interfaces, (n - 1) as nat);
        let export = exports[n - 1];
        match export.interface {
            Some(members) => if interfaces.contains(export.name@) {
                before + member_funcs(export.name@, members@, members@.len())
            } else {
                before
            },
            None => before,
        }
    }
}

/// The functions that a guest serves: those of its exports of the declared
/// interfaces, in order.
pub fn served_funcs(exports: &Vec<Extern>, interfaces: &Vec<String>) -> (r: Vec<ServedFunc>)
    ensures
        served_models(r@) == linked_funcs(
            exports@,
            crate::text::views(interfaces@),
            exports@.len(),
        ),
{
    let ghost names = crate::text::views(interfaces@);
    let mut r: Vec<ServedFunc> = Vec::new();
    let mut i: usize = 0;
    assert(served_models(r@) =~= Seq::empty());
    while i < exports.len()
        invariant
            i <= exports@.len(),
            names == crate::text::views(interfaces@),
            served_models(r@) == linked_funcs(exports@, names, i as nat),
        decreases exports@.len() - i,
    {
        let export = &exports[i];
        if let Some(members) = &export.interface {
            if contains_str(interfaces, export.name.as_str()) {
                let ghost before = served_models(r@);
                let mut k: usize = 0;
                assert(before + member_funcs(export.name@, members@, 0) =~= before);
                while k < members.len()
                    invariant
                        k <= members@.len(),
                        served_models(r@) == before + member_funcs(
                            export.name@,
                            members@,
                            k as nat,
                        ),
                    decreases members@.len() - k,
                {
                    if members[k].func.is_some() {
                        let ghost done = r@;
                        let func = ServedFunc {
                            interface: export.name.clone(),
                            func: members[k].name.clone(),
                        };
                        let ghost model = func@;
                        r.push(func);
                        assert(served_models(r@) =~= served_models(done).push(model));
                        assert(served_models(r@) =~= before + member_funcs(
                            export.name@,
                            members@,
                            (k + 1) as nat,
                        ));
                    }
                    k = k + 1;
                }
            }
        }
        i = i + 1;
    }
    r
}

/// Why a guest could not be served.
#[derive(Debug, PartialEq, Eq)]
pub enum ServeGuestError {
    /// An export could not be served over the carrier.
    Export { interface: String, func: String, id: String, reason: String },
    /// The guest already has a pending endpoint.
    Link(LinkError),
}

impl ServeGuestError {
    pub open spec fn text_spec(self) -> Seq<char> {
        match self {
            ServeGuestError::Export { interface, func, id, reason } => "serving `"@ + interface@
                + "/"@ + func@ + "` from guest `"@ + id@ + "`: "@ + reason@,
            ServeGuestError::Link(e) => e.text_spec(),
        }
    }

    /// The failure in words.
    pub fn text(&self) -> (text: String)
        ensures
            text@ == self.text_spec(),
    {
        match self {
            ServeGuestError::Export { interface, func, id, reason } => String::from_str(
                "serving `",
            ).concat(interface.as_str()).concat("/").concat(func.as_str()).concat(
                "` from guest `",
            ).concat(id.as_str()).concat("`: ").concat(reason.as_str()),
            ServeGuestError::Link(e) => e.text(),
        }
    }
}

/// Wire the serve side of one guest's exports of the declared `interfaces` and
/// park the result as pending, with no endpoint when the guest exports none of
/// them, so that a later call to it is diagnosed as "registered but unlinked"
/// rather than "not registered".
///
/// `server` serves the functions of [`served_funcs`]; `failure` names the
/// first of them, by its place in that list, that could not be served, and
/// why.
///
/// # Errors
///
/// Returns an error if an export could not be served over the carrier, or the
/// guest already has a pending endpoint.
pub fn serve_guest<E>(
    transport: &mut InProcess<E>,
    interfaces: &Vec<String>,
    exports: &Vec<Extern>,
    id: &GuestId,
    server: E,
    failure: Option<(usize, String)>,
) -> (r: Result<(), ServeGuestError>)
    requires
        old(transport).wf(),
    ensures
        final(transport).wf(),
        final(transport).live() == old(transport).live(),
        ({
            let funcs = linked_funcs(exports@, crate::text::views(interfaces@), exports@.len());
            let broken = match failure {
                Some((i, why)) => if i < funcs.len() {
                    Some((funcs[i as int], why))
                } else {
                    None
                },
                None => None,
            };
            if broken is Some {
                &&& final(transport).pending() == old(transport).pending()
                &&& r matches Err(
                    ServeGuestError::Export { interface, func, id: guest, reason },
                ) && broken == Some(((interface@, func@), reason)) && guest@ == id@
            } else if old(transport).pending().dom().contains(id@) {
                &&& final(transport).pending() == old(transport).pending()
                &&& r matches Err(ServeGuestError::Link(LinkError::Pending(guest))) && guest@
                    == id@
            } else {
                &&& r is Ok
                &&& final(transport).pending() == old(transport).pending().insert(
                    id@,
                    if funcs.len() == 0 {
                        None
                    } else {
                        Some(server)
                    },
                )
            }
        }),
{
    let funcs = served_funcs(exports, interfaces);
    if let Some((i, reason)) = failure {
        if i < funcs.len() {
            assert(served_models(funcs@)[i as int] == funcs@[i as int]@);
            return Err(
                ServeGuestError::Export {
                    interface: funcs[i].interface.clone(),
                    func: funcs[i].func.clone(),
                    id: String::from_str(id.as_str()),
                    reason,
                },
            );
        }
    }
    let endpoint = if funcs.len() == 0 {
        None
    } else {
        Some(server)
    };
    match transport.park(id, endpoint) {
        Ok(()) => Ok(()),
        Err(e) => Err(ServeGuestError::Link(e)),
    }
}

proof fn lemma_member_funcs(interface: Seq<char>, members: Seq<Member>, n: nat, func: Seq<char>)
    requires
        n <= members.len(),
    ensures
        member_funcs(interface, members, n).contains((interface, func)) <==> exists|m: int|
            0 <= m < n && (#[trigger] members[m]).func is Some && members[m].name@ == func,
        forall|k: int|
            0 <= k < member_funcs(interface, members, n).len() ==> (#[trigger] member_funcs(
                interface,
                members,
                n,
            )[k]).0 == interface,
    decreases n,
{
    if n > 0 {
        let p = (n - 1) as nat;
        let before = member_funcs(interface, members, p);
        let now = member_funcs(interface, members, n);
        lemma_member_funcs(interface, members, p, func);
        if before.contains((interface, func)) {
            let k = choose|k: int| 0 <= k < before.len() && before[k] == (interface, func);
            assert(now[k] == (interface, func));
            let m = choose|m: int|
                0 <= m < p && (#[trigger] members[m]).func is Some && members[m].name@ == func;
            assert(0 <= m < n && members[m].func is Some);
        }
        if members[n - 1].func is Some && members[n - 1].name@ == func {
            assert(now[before.len() as int] == (interface, func));
        }
        if now.contains((interface, func)) && !before.contains((interface, func)) {
            let k = choose|k: int| 0 <= k < now.len() && now[k] == (interface, func);
            if k < before.len() {
                assert(before[k] == (interface, func));
            }
            assert(members[n - 1].func is Some && members[n - 1].name@ == func);
        }
    }
}

proof fn lemma_linked_funcs(
    exports: Seq<Extern>,
    interfaces: Seq<Seq<char>>,
    n: nat,
    interface: Seq<char>,
    func: Seq<char>,
)
    requires
        n <= exports.len(),
    ensures
        linked_funcs(exports, interfaces, n).contains((interface, func)) <==> exists|
            i: int,
            m: int,
        |
            #![trigger exports[i], exports[i].interface->0@[m]]
            0 <= i < n && exports[i].name@ == interface && interfaces.contains(interface)
                && exports[i].interface is Some && 0 <= m < exports[i].interface->0@.len()
                && exports[i].interface->0@[m].func is Some && exports[i].interface->0@[m].name@
                == func,
    decreases n,
{
    if n > 0 {
        let p = (n - 1) as nat;
        let pair = (interface, func);
        let before = linked_funcs(exports, interfaces, p);
        let now = linked_funcs(exports, interfaces, n);
        let last = exports[n - 1];
        lemma_linked_funcs(exports, interfaces, p, interface, func);
        if before.contains(pair) {
            let k = choose|k: int| 0 <= k < before.len() && before[k] == pair;
            assert(now[k] == pair);
        }
        if last.interface is Some && interfaces.contains(last.name@) {
            let members = last.interface->0@;
            let added = member_funcs(last.name@, members, members.len());
            lemma_member_funcs(last.name@, members, members.len(), func);
            if added.contains(pair) {
                let k = choose|k: int| 0 <= k < added.len() && added[k] == pair;
                assert(now[before.len() + k] == pair);
                assert(last.name@ == interface);
                let m = choose|m: int|
                    0 <= m < members.len() && (#[trigger] members[m]).func is Some
                        && members[m].name@ == func;
                assert(exports[n - 1].interface->0@[m].func is Some);
            }
            if now.contains(pair) && !before.contains(pair) {
                let k = choose|k: int| 0 <= k < now.len() && now[k] == pair;
                if k < before.len() {
                    assert(before[k] == pair);
                }
                assert(added[k - before.len()] == pair);
            }
        }
        if exists|i: int, m: int|
            #![trigger exports[i], exports[i].interface->0@[m]]
            0 <= i < n && exports[i].name@ == interface && interfaces.contains(interface)
                && exports[i].interface is Some && 0 <= m < exports[i].interface->0@.len()
                && exports[i].interface->0@[m].func is Some && exports[i].interface->0@[m].name@
                == func {
            let (i, m) = choose|i: int, m: int|
                #![trigger exports[i], exports[i].interface->0@[m]]
                0 <= i < n && exports[i].name@ == interface && interfaces.contains(interface)
                    && exports[i].interface is Some && 0 <= m < exports[i].interface->0@.len()
                    && exports[i].interface->0@[m].func is Some
                    && exports[i].interface->0@[m].name@ == func;
            if i == n - 1 {
                assert(last.interface->0@[m].func is Some);
            } else {
                assert(0 <= i < p);
                assert(exports[i].interface->0@[m].func is Some);
            }
        }
    }
}

/// A guest serves exactly the functions, plain or async, of its exports of the
/// declared interfaces: a function is served where a declared interface that
/// the guest exports has it, and nowhere else.
pub proof fn declared_functions_are_served(
    exports: Seq<Extern>,
    interfaces: Seq<Seq<char>>,
    interface: Seq<char>,
    func: Seq<char>,
)
    ensures
        linked_funcs(exports, interfaces, exports.len()).contains((interface, func)) <==> exists|
            i: int,
            m: int,
        |
            #![trigger exports[i], exports[i].interface->0@[m]]
            0 <= i < exports.len() && exports[i].name@ == interface && interfaces.contains(
                interface,
            ) && exports[i].interface is Some && 0 <= m < exports[i].interface->0@.len()
                && exports[i].interface->0@[m].func is Some && exports[i].interface->0@[m].name@
                == func,
{
    lemma_linked_funcs(exports, interfaces, exports.len(), interface, func);
}

proof fn lemma_linked_prefix(a: Seq<Extern>, b: Seq<Extern>, interfaces: Seq<Seq<char>>, n: nat)
    requires
        n <= a.len(),
    ensures
        linked_funcs(a + b, interfaces, n) == linked_funcs(a, interfaces, n),
    decreases n,
{
    if n > 0 {
        lemma_linked_prefix(a, b, interfaces, (n - 1) as nat);
        assert((a + b)[n - 1] == a[n - 1]);
    }
}

proof fn lemma_linked_suffix(a: Seq<Extern>, b: Seq<Extern>, interfaces: Seq<Seq<char>>, n: nat)
    requires
        n <= b.len(),
    ensures
        linked_funcs(a + b, interfaces, a.len() + n) == linked_funcs(a, interfaces, a.len())
            + linked_funcs(b, interfaces, n),
    decreases n,
{
    if n > 0 {
        lemma_linked_suffix(a, b, interfaces, (n - 1) as nat);
        assert((a + b)[a.len() + n - 1] == b[n - 1]);
        assert(linked_funcs(a + b, interfaces, a.len() + n) =~= linked_funcs(
            a,
            interfaces,
            a.len(),
        ) + linked_funcs(b, interfaces, n));
    } else {
        lemma_linked_prefix(a, b, interfaces, a.len());
        assert(linked_funcs(a, interfaces, a.len()) + linked_funcs(b, interfaces, 0)
            =~= linked_funcs(a, interfaces, a.len()));
    }
}

/// Exports are served one behind the other: what is served of two lists of
/// exports together is what is served of the first and then of the second.
pub proof fn exports_are_served_in_order(
    a: Seq<Extern>,
    b: Seq<Extern>,
    interfaces: Seq<Seq<char>>,
)
    ensures
        linked_funcs(a + b, interfaces, (a + b).len()) == linked_funcs(a, interfaces, a.len())
            + linked_funcs(b, interfaces, b.len()),
{
    lemma_linked_suffix(a, b, interfaces, b.len());
}

proof fn lemma_all_funcs(interface: Seq<char>, members: Seq<Member>, n: nat)
    requires
        n <= members.len(),
        forall|m: int| 0 <= m < members.len() ==> (#[trigger] members[m]).func is Some,
    ensures
        member_funcs(interface, members, n).len() == n,
        forall|m: int|
            0 <= m < n ==> #[trigger] member_funcs(interface, members, n)[m] == (
                interface,
                members[m].name@,
            ),
    decreases n,
{
    if n > 0 {
        lemma_all_funcs(interface, members, (n - 1) as nat);
    }
}

/// The functions of one declared interface are served each once, in the order
/// in which the guest exports them.
pub proof fn functions_are_served_in_order(export: Extern, interfaces: Seq<Seq<char>>, m: int)
    requires
        interfaces.contains(export.name@),
        export.interface is Some,
        forall|m: int|
            0 <= m < export.interface->0@.len() ==> (#[trigger] export.interface->0@[m]).func
                is Some,
    ensures
        linked_funcs(seq![export], interfaces, 1).len() == export.interface->0@.len(),
        0 <= m < export.interface->0@.len() ==> linked_funcs(seq![export], interfaces, 1)[m] == (
            export.name@,
            export.interface->0@[m].name@,
        ),
{
    let members = export.interface->0@;
    reveal_with_fuel(linked_funcs, 2);
    lemma_all_funcs(export.name@, members, members.len());
}

/// An export that could not be served is told with its guest and the reason.
pub proof fn serving_refusals_name_the_export(e: ServeGuestError)
    ensures
        match e {
            ServeGuestError::Export { interface, func, id, reason } => {
                &&& crate::text::holds(e.text_spec(), interface@)
                &&& crate::text::holds(e.text_spec(), func@)
                &&& crate::text::holds(e.text_spec(), id@)
                &&& crate::text::holds(e.text_spec(), reason@)
            },
            ServeGuestError::Link(LinkError::Pending(id)) => {
                &&& crate::text::holds(e.text_spec(), id@)
            },
            ServeGuestError::Link(LinkError::Live(id)) => {
                &&& crate::text::holds(e.text_spec(), id@)
            },
        },
{
    match e {
        ServeGuestError::Export { interface, func, id, reason } => {
            crate::text::holding_goes_on(interface@);
            crate::text::holding_goes_on(func@);
            crate::text::holding_goes_on(id@);
            crate::text::holding_goes_on(reason@);
        },
        ServeGuestError::Link(LinkError::Pending(id)) => {
            crate::text::holding_goes_on(id@);
        },
        ServeGuestError::Link(LinkError::Live(id)) => {
            crate::text::holding_goes_on(id@);
        },
    }
}

} // verus!
