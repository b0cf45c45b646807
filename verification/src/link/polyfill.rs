//! Which of a component's imports the host satisfies by link dispatch.

use crate::registry::GuestId;
use crate::text::{contains_str, str_eq};
use vstd::prelude::*;
use vstd::string::StringExecFns;

verus! {

/// A member of an interface.
#[derive(Debug, PartialEq, Eq)]
pub struct Member {
    pub name: String,
    /// The type-level asyncness of a function; `None` for anything else.
    pub func: Option<bool>,
}

/// An item that a component imports or exports.
#[derive(Debug, PartialEq, Eq)]
pub struct Extern {
    pub name: String,
    /// The members of an interface; `None` for anything else.
    pub interface: Option<Vec<Member>>,
}

/// A function on the linker: its interface, its name, its type-level
/// asyncness.
#[derive(Debug, PartialEq, Eq)]
pub struct WiredFunc {
    pub interface: String,
    pub func: String,
    pub is_async: bool,
}

/// The functions polyfilled onto a linker: the union across guests at function
/// granularity, since components import only the functions they use. A later
/// guest whose import disagrees on asyncness is rejected.
#[derive(Debug, PartialEq, Eq)]
pub struct WiredLinks {
    funcs: Vec<WiredFunc>,
}

/// A function on the linker, as the contracts speak of it.
pub struct WiredModel {
    pub interface: Seq<char>,
    pub func: Seq<char>,
    pub is_async: bool,
}

impl View for WiredFunc {
    type V = WiredModel;

    open spec fn view(&self) -> WiredModel {
        WiredModel { interface: self.interface@, func: self.func@, is_async: self.is_async }
    }
}

/// The models of functions on the linker.
pub open spec fn wired_models(funcs: Seq<WiredFunc>) -> Seq<WiredModel> {
    funcs.map_values(|f: WiredFunc| f@)
}

impl View for WiredLinks {
    type V = Seq<WiredModel>;

    closed spec fn view(&self) -> Seq<WiredModel> {
        wired_models(self.funcs@)
    }
}

/// The asyncness with which a function is wired, from `i` on, if it is.
pub open spec fn wired_from(
    wired: Seq<WiredModel>,
    interface: Seq<char>,
    func: Seq<char>,
    i: int,
) -> Option<bool>
    decreases wired.len() - i,
{
    if i < 0 || i >= wired.len() {
        None
    } else if wired[i].interface == interface && wired[i].func == func {
        Some(wired[i].is_async)
    } else {
        wired_from(wired, interface, func, i + 1)
    }
}

/// The asyncness with which a function is wired, if it is.
pub open spec fn wired_as(wired: Seq<WiredModel>, interface: Seq<char>, func: Seq<char>) -> Option<
    bool,
> {
    wired_from(wired, interface, func, 0)
}

/// Why an import cannot be polyfilled, as the contracts speak of it.
pub enum PolyfillErrorModel {
    NotInterface { name: Seq<char>, id: Seq<char> },
    Disagree { id: Seq<char>, name: Seq<char>, func: Seq<char>, is_async: bool },
}

/// Why an import cannot be polyfilled.
#[derive(Debug, PartialEq, Eq)]
pub enum PolyfillError {
    /// A link target is not an interface.
    NotInterface { name: String, id: String },
    /// An earlier guest wired the function with the other asyncness.
    Disagree { id: String, name: String, func: String, is_async: bool },
}

impl View for PolyfillError {
    type V = PolyfillErrorModel;

    open spec fn view(&self) -> PolyfillErrorModel {
        match *self {
            PolyfillError::NotInterface { name, id } => PolyfillErrorModel::NotInterface {
                name: name@,
                id: id@,
            },
            PolyfillError::Disagree { id, name, func, is_async } => PolyfillErrorModel::Disagree {
                id: id@,
                name: name@,
                func: func@,
                is_async,
            },
        }
    }
}

/// How a function's asyncness is called.
pub open spec fn described(is_async: bool) -> Seq<char> {
    if is_async {
        "an async func"@
    } else {
        "a plain func"@
    }
}

impl PolyfillError {
    pub open spec fn text_spec(self) -> Seq<char> {
        match self {
            PolyfillError::NotInterface { name, id } => "link target `"@ + name@
                + "` (imported by guest `"@ + id@ + "`) is not an interface"@,
            PolyfillError::Disagree { id, name, func, is_async } => "guest `"@ + id@
                + "` imports `"@ + name@ + "/"@ + func@ + "` as "@ + described(is_async)
                + ", but an earlier guest wired it as "@ + described(!is_async)
                + "; every importer of a host-mediated function must agree on asyncness"@,
        }
    }

    /// The refusal in words.
    pub fn text(&self) -> (text: String)
        ensures
            text@ == self.text_spec(),
    {
        match self {
            PolyfillError::NotInterface { name, id } => String::from_str("link target `").concat(
                name.as_str(),
            ).concat("` (imported by guest `").concat(id.as_str()).concat(
                "`) is not an interface",
            ),
            PolyfillError::Disagree { id, name, func, is_async } => {
                let (mine, earlier) = if *is_async {
                    ("an async func", "a plain func")
                } else {
                    ("a plain func", "an async func")
                };
                String::from_str("guest `").concat(id.as_str()).concat("` imports `").concat(
                    name.as_str(),
                ).concat("/").concat(func.as_str()).concat("` as ").concat(mine).concat(
                    ", but an earlier guest wired it as ",
                ).concat(earlier).concat(
                    "; every importer of a host-mediated function must agree on asyncness",
                )
            },
        }
    }
}

/// The functions among the first `n` members that are not yet wired, or the
/// first that is wired with the other asyncness.
pub open spec fn missing(
    id: Seq<char>,
    name: Seq<char>,
    members: Seq<Member>,
    wired: Seq<WiredModel>,
    n: nat,
) -> Result<Seq<WiredModel>, PolyfillErrorModel>
    decreases n,
{
    if n == 0 || n > members.len() {
        Ok(Seq::empty())
    } else {
        match missing(id, name, members, wired, (n - 1) as nat) {
            Err(e) => Err(e),
            Ok(funcs) => match members[n - 1].func {
                None => Ok(funcs),
                Some(is_async) => match wired_as(wired, name, members[n - 1].name@) {
                    None => Ok(
                        funcs.push(
                            WiredModel { interface: name, func: members[n - 1].name@, is_async },
                        ),
                    ),
                    Some(earlier) => if earlier == is_async {
                        Ok(funcs)
                    } else {
                        Err(
                            PolyfillErrorModel::Disagree {
                                id,
                                name,
                                func: members[n - 1].name@,
                                is_async,
                            },
                        )
                    },
                },
            },
        }
    }
}

/// What the host defines for an import, as the contracts speak of it: nothing
/// for one that is not declared, otherwise the missing functions.
pub open spec fn import_plan(
    id: Seq<char>,
    import: Extern,
    interfaces: Seq<Seq<char>>,
    wired: Seq<WiredModel>,
) -> Result<Option<Seq<WiredModel>>, PolyfillErrorModel> {
    if !interfaces.contains(import.name@) {
        Ok(None)
    } else {
        match import.interface {
            None => Err(PolyfillErrorModel::NotInterface { name: import.name@, id }),
            Some(members) => match missing(
                id,
                import.name@,
                members@,
                wired,
                members@.len(),
            ) {
                Ok(funcs) => Ok(Some(funcs)),
                Err(e) => Err(e),
            },
        }
    }
}

/// What the host defines for the first `n` imports of a component: the
/// interfaces with the functions to define on them, and the functions wired
/// then.
pub open spec fn component_plan(
    id: Seq<char>,
    imports: Seq<Extern>,
    interfaces: Seq<Seq<char>>,
    wired: Seq<WiredModel>,
    n: nat,
) -> Result<(Seq<(Seq<char>, Seq<WiredModel>)>, Seq<WiredModel>), PolyfillErrorModel>
    decreases n,
{
    if n == 0 || n > imports.len() {
        Ok((Seq::empty(), wired))
    } else {
        match component_plan(id, imports, interfaces, wired, (n - 1) as nat) {
            Err(e) => Err(e),
            Ok((plans, now)) => match import_plan(id, imports[n - 1], interfaces, now) {
                Err(e) => Err(e),
                Ok(None) => Ok((plans, now)),
                Ok(Some(funcs)) => Ok(
                    (plans.push((imports[n - 1].name@, funcs)), now + funcs),
                ),
            },
        }
    }
}

/// The functions wired by the first `n` imports of a component, up to the
/// first that cannot be polyfilled.
pub open spec fn wired_by(
    id: Seq<char>,
    imports: Seq<Extern>,
    interfaces: Seq<Seq<char>>,
    wired: Seq<WiredModel>,
    n: nat,
) -> Seq<WiredModel>
    decreases n,
{
    match component_plan(id, imports, interfaces, wired, n) {
        Ok((_, now)) => now,
        Err(_) => if n == 0 {
            wired
        } else {
            wired_by(id, imports, interfaces, wired, (n - 1) as nat)
        },
    }
}

/// An interface to define on the linker, with the functions to define on it. An
/// interface whose functions are all wired is still (re)opened, so that it
/// resolves.
#[derive(Debug, PartialEq, Eq)]
pub struct Polyfill {
    pub interface: String,
    pub funcs: Vec<WiredFunc>,
}

/// The models of interfaces to define.
pub open spec fn polyfill_models(plans: Seq<Polyfill>) -> Seq<(Seq<char>, Seq<WiredModel>)> {
    plans.map_values(|p: Polyfill| (p.interface@, wired_models(p.funcs@)))
}

impl WiredLinks {
    pub fn new() -> (wired: Self)
        ensures
            wired@ == Seq::<WiredModel>::empty(),
    {
        let wired = WiredLinks { funcs: Vec::new() };
        assert(wired@ =~= Seq::empty());
        wired
    }

    /// The same record once more.
    pub fn copy(&self) -> (r: Self)
        ensures
            r@ == self@,
    {
        let mut r = WiredLinks::new();
        r.record(&self.funcs);
        assert(r@ =~= self@);
        r
    }

    /// The asyncness with which a function is wired, if it is.
    pub fn get(&self, interface: &str, func: &str) -> (r: Option<bool>)
        ensures
            r == wired_as(self@, interface@, func@),
    {
        let mut i: usize = 0;
        while i < self.funcs.len()
            invariant
                i <= self.funcs@.len(),
                wired_as(self@, interface@, func@) == wired_from(
                    self@,
                    interface@,
                    func@,
                    i as int,
                ),
            decreases self.funcs@.len() - i,
        {
            let f = &self.funcs[i];
            assert(self@[i as int] == f@);
            if str_eq(f.interface.as_str(), interface) && str_eq(f.func.as_str(), func) {
                return Some(f.is_async);
            }
            i = i + 1;
        }
        None
    }

    /// Record functions as wired.
    pub fn record(&mut self, funcs: &Vec<WiredFunc>)
        ensures
            final(self)@ == old(self)@ + wired_models(funcs@),
    {
        let mut i: usize = 0;
        assert(self@ =~= old(self)@ + wired_models(funcs@).take(0));
        while i < funcs.len()
            invariant
                i <= funcs@.len(),
                self@ == old(self)@ + wired_models(funcs@).take(i as int),
            decreases funcs@.len() - i,
        {
            let ghost before = self@;
            self.funcs.push(
                WiredFunc {
                    interface: funcs[i].interface.clone(),
                    func: funcs[i].func.clone(),
                    is_async: funcs[i].is_async,
                },
            );
            assert(self@ =~= before.push(funcs@[i as int]@));
            assert(wired_models(funcs@).take(i + 1) =~= wired_models(funcs@).take(i as int).push(
                funcs@[i as int]@,
            ));
            assert(self@ =~= old(self)@ + wired_models(funcs@).take(i + 1));
            i = i + 1;
        }
        assert(wired_models(funcs@).take(i as int) =~= wired_models(funcs@));
    }
}

proof fn lemma_missing_fault(
    id: Seq<char>,
    name: Seq<char>,
    members: Seq<Member>,
    wired: Seq<WiredModel>,
    i: nat,
    n: nat,
)
    requires
        i <= n <= members.len(),
        missing(id, name, members, wired, i) is Err,
    ensures
        missing(id, name, members, wired, n) == missing(id, name, members, wired, i),
    decreases n,
{
    if i < n {
        lemma_missing_fault(id, name, members, wired, i, (n - 1) as nat);
    }
}

proof fn lemma_component_fault(
    id: Seq<char>,
    imports: Seq<Extern>,
    interfaces: Seq<Seq<char>>,
    wired: Seq<WiredModel>,
    i: nat,
    n: nat,
)
    requires
        i <= n <= imports.len(),
        component_plan(id, imports, interfaces, wired, i) is Err,
    ensures
        component_plan(id, imports, interfaces, wired, n) == component_plan(
            id,
            imports,
            interfaces,
            wired,
            i,
        ),
        wired_by(id, imports, interfaces, wired, n) == wired_by(
            id,
            imports,
            interfaces,
            wired,
            i,
        ),
    decreases n,
{
    if i < n {
        lemma_component_fault(id, imports, interfaces, wired, i, (n - 1) as nat);
    }
}

/// What the host defines for one import: nothing for one that is not declared,
/// otherwise the functions an earlier guest did not wire.
///
/// # Errors
///
/// Returns an error if a declared import is not an interface, or an earlier
/// guest wired one of its functions with the other asyncness.
pub fn plan_import(
    id: &GuestId,
    import: &Extern,
    interfaces: &Vec<String>,
    wired: &WiredLinks,
) -> (r: Result<Option<Vec<WiredFunc>>, PolyfillError>)
    ensures
        match r {
            Ok(None) => import_plan(id@, *import, crate::text::views(interfaces@), wired@) == Ok::<
                Option<Seq<WiredModel>>,
                PolyfillErrorModel,
            >(None),
            Ok(Some(funcs)) => import_plan(
                id@,
                *import,
                crate::text::views(interfaces@),
                wired@,
            ) == Ok::<Option<Seq<WiredModel>>, PolyfillErrorModel>(Some(wired_models(funcs@))),
            Err(e) => import_plan(id@, *import, crate::text::views(interfaces@), wired@) == Err::<
                Option<Seq<WiredModel>>,
                PolyfillErrorModel,
            >(e@),
        },
{
    let name = import.name.as_str();
    if !contains_str(interfaces, name) {
        return Ok(None);
    }
    let members = match &import.interface {
        Some(members) => members,
        None => {
            return Err(
                PolyfillError::NotInterface {
                    name: String::from_str(name),
                    id: String::from_str(id.as_str()),
                },
            );
        },
    };
    let mut funcs: Vec<WiredFunc> = Vec::new();
    let mut i: usize = 0;
    assert(wired_models(funcs@) =~= Seq::empty());
    while i < members.len()
        invariant
            i <= members@.len(),
            name@ == import.name@,
            crate::text::views(interfaces@).contains(name@),
            import.interface == Some(*members),
            missing(id@, name@, members@, wired@, i as nat) == Ok::<
                Seq<WiredModel>,
                PolyfillErrorModel,
            >(wired_models(funcs@)),
        decreases members@.len() - i,
    {
        if let Some(is_async) = members[i].func {
            match wired.get(name, members[i].name.as_str()) {
                Some(earlier) => {
                    if earlier != is_async {
                        proof {
                            lemma_missing_fault(
                                id@,
                                name@,
                                members@,
                                wired@,
                                (i + 1) as nat,
                                members@.len(),
                            );
                        }
                        return Err(
                            PolyfillError::Disagree {
                                id: String::from_str(id.as_str()),
                                name: String::from_str(name),
                                func: members[i].name.clone(),
                                is_async,
                            },
                        );
                    }
                },
                None => {
                    let ghost before = funcs@;
                    let func = WiredFunc {
                        interface: String::from_str(name),
                        func: members[i].name.clone(),
                        is_async,
                    };
                    let ghost model = func@;
                    funcs.push(func);
                    assert(wired_models(funcs@) =~= wired_models(before).push(model));
                },
            }
        }
        i = i + 1;
    }
    Ok(Some(funcs))
}

/// Polyfill one component's imports of the declared `interfaces` not already
/// in `wired`: the interfaces to define on the linker, each with the functions
/// to define on it.
///
/// Each function is linked exactly once, the per-guest imports being unioned
/// function by function. Imports outside the declared interfaces are never
/// touched here. A function that an earlier guest wired with the other
/// asyncness is a cross-guest interface disagreement, rejected with both views
/// named.
///
/// # Errors
///
/// Returns an error if a named link target is not an interface import, or a
/// function is wired with the other asyncness; what the imports before it wired
/// stays recorded.
pub fn polyfill_component(
    id: &GuestId,
    imports: &Vec<Extern>,
    interfaces: &Vec<String>,
    wired: &mut WiredLinks,
) -> (r: Result<Vec<Polyfill>, PolyfillError>)
    ensures
        match r {
            Ok(plans) => component_plan(
                id@,
                imports@,
                crate::text::views(interfaces@),
                old(wired)@,
                imports@.len(),
            ) == Ok::<(Seq<(Seq<char>, Seq<WiredModel>)>, Seq<WiredModel>), PolyfillErrorModel>(
                (polyfill_models(plans@), final(wired)@),
            ),
            Err(e) => component_plan(
                id@,
                imports@,
                crate::text::views(interfaces@),
                old(wired)@,
                imports@.len(),
            ) == Err::<(Seq<(Seq<char>, Seq<WiredModel>)>, Seq<WiredModel>), PolyfillErrorModel>(
                e@,
            ),
        },
        final(wired)@ == wired_by(
            id@,
            imports@,
            crate::text::views(interfaces@),
            old(wired)@,
            imports@.len(),
        ),
{
    let ghost names = crate::text::views(interfaces@);
    let ghost before = wired@;
    let mut plans: Vec<Polyfill> = Vec::new();
    let mut i: usize = 0;
    assert(polyfill_models(plans@) =~= Seq::empty());
    while i < imports.len()
        invariant
            i <= imports@.len(),
            names == crate::text::views(interfaces@),
            before == old(wired)@,
            component_plan(id@, imports@, names, before, i as nat) == Ok::<
                (Seq<(Seq<char>, Seq<WiredModel>)>, Seq<WiredModel>),
                PolyfillErrorModel,
            >((polyfill_models(plans@), wired@)),
        decreases imports@.len() - i,
    {
        match plan_import(id, &imports[i], interfaces, wired) {
            Err(e) => {
                proof {
                    assert(wired_by(id@, imports@, names, before, i as nat) == wired@);
                    assert(wired_by(id@, imports@, names, before, (i + 1) as nat) == wired@);
                    lemma_component_fault(
                        id@,
                        imports@,
                        names,
                        before,
                        (i + 1) as nat,
                        imports@.len(),
                    );
                }
                return Err(e);
            },
            Ok(None) => {},
            Ok(Some(funcs)) => {
                wired.record(&funcs);
                let ghost done = plans@;
                let plan = Polyfill { interface: imports[i].name.clone(), funcs };
                let ghost model = (plan.interface@, wired_models(plan.funcs@));
                plans.push(plan);
                assert(polyfill_models(plans@) =~= polyfill_models(done).push(model));
            },
        }
        i = i + 1;
    }
    Ok(plans)
}

/// The names of an interface's members are distinct.
pub open spec fn distinct_members(members: Seq<Member>) -> bool {
    forall|i: int, k: int|
        0 <= i < k < members.len() ==> (#[trigger] members[i]).name@ != (
        #[trigger] members[k]).name@
}

/// No function is wired twice.
pub open spec fn wired_once(wired: Seq<WiredModel>) -> bool {
    forall|i: int, k: int|
        0 <= i < k < wired.len() ==> (#[trigger] wired[i]).interface != (
        #[trigger] wired[k]).interface || wired[i].func != wired[k].func
}

proof fn lemma_wired_from(
    wired: Seq<WiredModel>,
    interface: Seq<char>,
    func: Seq<char>,
    i: int,
)
    requires
        0 <= i <= wired.len(),
    ensures
        match wired_from(wired, interface, func, i) {
            Some(is_async) => exists|k: int|
                i <= k < wired.len() && (#[trigger] wired[k]).interface == interface
                    && wired[k].func == func && wired[k].is_async == is_async,
            None => forall|k: int|
                i <= k < wired.len() ==> (#[trigger] wired[k]).interface != interface
                    || wired[k].func != func,
        },
    decreases wired.len() - i,
{
    if i < wired.len() {
        lemma_wired_from(wired, interface, func, i + 1);
        if wired[i].interface != interface || wired[i].func != func {
            if wired_from(wired, interface, func, i + 1) is None {
                assert forall|k: int| i <= k < wired.len() implies (#[trigger] wired[k]).interface
                    != interface || wired[k].func != func by {
                    if k > i {
                        assert(i + 1 <= k < wired.len());
                    }
                }
            }
        } else {
            assert(i <= i < wired.len() && wired[i].interface == interface);
        }
    }
}

proof fn lemma_wired_concat(
    a: Seq<WiredModel>,
    b: Seq<WiredModel>,
    interface: Seq<char>,
    func: Seq<char>,
    i: int,
)
    requires
        0 <= i <= a.len(),
    ensures
        wired_from(a + b, interface, func, i) == (if wired_from(a, interface, func, i) is Some {
            wired_from(a, interface, func, i)
        } else {
            wired_from(b, interface, func, 0)
        }),
    decreases a.len() - i,
{
    if i < a.len() {
        assert((a + b)[i] == a[i]);
        lemma_wired_concat(a, b, interface, func, i + 1);
    } else {
        lemma_wired_tail(a, b, interface, func, 0);
    }
}

proof fn lemma_wired_tail(
    a: Seq<WiredModel>,
    b: Seq<WiredModel>,
    interface: Seq<char>,
    func: Seq<char>,
    i: int,
)
    requires
        0 <= i <= b.len(),
    ensures
        wired_from(a + b, interface, func, a.len() + i) == wired_from(b, interface, func, i),
    decreases b.len() - i,
{
    if i < b.len() {
        assert((a + b)[a.len() + i] == b[i]);
        lemma_wired_tail(a, b, interface, func, i + 1);
    }
}

/// What is missing of an interface: exactly the functions that are not wired
/// yet, each once.
proof fn lemma_missing(
    id: Seq<char>,
    name: Seq<char>,
    members: Seq<Member>,
    wired: Seq<WiredModel>,
    n: nat,
)
    requires
        n <= members.len(),
        distinct_members(members),
        missing(id, name, members, wired, n) is Ok,
    ensures
        ({
            let funcs = missing(id, name, members, wired, n)->Ok_0;
            &&& forall|k: int|
                0 <= k < funcs.len() ==> {
                    &&& (#[trigger] funcs[k]).interface == name
                    &&& wired_as(wired, name, funcs[k].func) is None
                    &&& exists|m: int|
                        0 <= m < n && (#[trigger] members[m]).name@ == funcs[k].func
                            && members[m].func == Some(funcs[k].is_async)
                }
            &&& wired_once(funcs)
            &&& forall|m: int|
                0 <= m < n && (#[trigger] members[m]).func is Some ==> {
                    let known = wired_as(wired, name, members[m].name@);
                    if known is Some {
                        known == members[m].func
                    } else {
                        wired_as(funcs, name, members[m].name@) == members[m].func
                    }
                }
        }),
    decreases n,
{
    if n > 0 {
        let p = (n - 1) as nat;
        lemma_missing(id, name, members, wired, p);
        let before = missing(id, name, members, wired, p)->Ok_0;
        let funcs = missing(id, name, members, wired, n)->Ok_0;
        let last = members[n - 1];
        let added = last.func is Some && wired_as(wired, name, last.name@) is None;
        if added {
            let item = WiredModel { interface: name, func: last.name@, is_async: last.func->0 };
            assert(funcs == before.push(item));
            assert(before.push(item) =~= before + seq![item]);
            assert forall|k: int| 0 <= k < funcs.len() implies {
                &&& (#[trigger] funcs[k]).interface == name
                &&& wired_as(wired, name, funcs[k].func) is None
                &&& exists|m: int|
                    0 <= m < n && (#[trigger] members[m]).name@ == funcs[k].func && members[m].func
                        == Some(funcs[k].is_async)
            } by {
                if k < before.len() {
                    assert(funcs[k] == before[k]);
                    let m = choose|m: int|
                        0 <= m < p && (#[trigger] members[m]).name@ == before[k].func
                            && members[m].func == Some(before[k].is_async);
                    assert(0 <= m < n && members[m].name@ == funcs[k].func);
                } else {
                    assert(members[n - 1].name@ == funcs[k].func);
                }
            }
            assert forall|i: int, k: int| 0 <= i < k < funcs.len() implies (
            #[trigger] funcs[i]).interface != (#[trigger] funcs[k]).interface || funcs[i].func
                != funcs[k].func by {
                assert(funcs[i] == before[i]);
                if k < before.len() {
                    assert(funcs[k] == before[k]);
                } else {
                    let m = choose|m: int|
                        0 <= m < p && (#[trigger] members[m]).name@ == before[i].func
                            && members[m].func == Some(before[i].is_async);
                    assert(members[m].name@ != members[n - 1].name@);
                }
            }
            assert forall|m: int| 0 <= m < n && (#[trigger] members[m]).func is Some implies {
                let known = wired_as(wired, name, members[m].name@);
                if known is Some {
                    known == members[m].func
                } else {
                    wired_as(funcs, name, members[m].name@) == members[m].func
                }
            } by {
                lemma_wired_concat(before, seq![item], name, members[m].name@, 0);
                reveal_with_fuel(wired_from, 3);
                if m == n - 1 {
                    lemma_wired_from(before, name, last.name@, 0);
                    if wired_as(before, name, last.name@) is Some {
                        let k = choose|k: int|
                            0 <= k < before.len() && (#[trigger] before[k]).interface == name
                                && before[k].func == last.name@;
                        let q = choose|q: int|
                            0 <= q < p && (#[trigger] members[q]).name@ == before[k].func
                                && members[q].func == Some(before[k].is_async);
                        assert(members[q].name@ != members[n - 1].name@);
                    }
                }
            }
        } else {
            assert(funcs == before);
            assert forall|k: int| 0 <= k < funcs.len() implies {
                &&& (#[trigger] funcs[k]).interface == name
                &&& wired_as(wired, name, funcs[k].func) is None
                &&& exists|m: int|
                    0 <= m < n && (#[trigger] members[m]).name@ == funcs[k].func && members[m].func
                        == Some(funcs[k].is_async)
            } by {
                let m = choose|m: int|
                    0 <= m < p && (#[trigger] members[m]).name@ == before[k].func
                        && members[m].func == Some(before[k].is_async);
                assert(0 <= m < n && members[m].name@ == funcs[k].func);
            }
        }
    }
}

proof fn lemma_component(
    id: Seq<char>,
    imports: Seq<Extern>,
    interfaces: Seq<Seq<char>>,
    wired: Seq<WiredModel>,
    n: nat,
)
    requires
        n <= imports.len(),
        forall|i: int|
            0 <= i < imports.len() ==> ((#[trigger] imports[i]).interface matches Some(members)
                ==> distinct_members(members@)),
        component_plan(id, imports, interfaces, wired, n) is Ok,
        wired_once(wired),
    ensures
        ({
            let now = component_plan(id, imports, interfaces, wired, n)->Ok_0.1;
            &&& wired_once(now)
            &&& forall|interface: Seq<char>, func: Seq<char>|
                wired_as(wired, interface, func) is Some ==> #[trigger] wired_as(
                    now,
                    interface,
                    func,
                ) == wired_as(wired, interface, func)
            &&& forall|i: int, m: int|
                #![trigger imports[i], imports[i].interface->0@[m]]
                0 <= i < n && interfaces.contains(imports[i].name@)
                    && imports[i].interface is Some && 0 <= m < imports[i].interface->0@.len()
                    && imports[i].interface->0@[m].func is Some ==> wired_as(
                    now,
                    imports[i].name@,
                    imports[i].interface->0@[m].name@,
                ) == imports[i].interface->0@[m].func
        }),
    decreases n,
{
    if n > 0 {
        let p = (n - 1) as nat;
        lemma_component(id, imports, interfaces, wired, p);
        let then = component_plan(id, imports, interfaces, wired, p)->Ok_0.1;
        let now = component_plan(id, imports, interfaces, wired, n)->Ok_0.1;
        let import = imports[n - 1];
        if interfaces.contains(import.name@) {
            let members = import.interface->0@;
            assert(distinct_members(members));
            lemma_missing(id, import.name@, members, then, members.len());
            let funcs = missing(id, import.name@, members, then, members.len())->Ok_0;
            assert(now == then + funcs);
            assert forall|interface: Seq<char>, func: Seq<char>|
                wired_as(then, interface, func) is Some implies #[trigger] wired_as(
                now,
                interface,
                func,
            ) == wired_as(then, interface, func) by {
                lemma_wired_concat(then, funcs, interface, func, 0);
            }
            assert forall|interface: Seq<char>, func: Seq<char>|
                wired_as(wired, interface, func) is Some implies #[trigger] wired_as(
                now,
                interface,
                func,
            ) == wired_as(wired, interface, func) by {
                assert(wired_as(then, interface, func) == wired_as(wired, interface, func));
            }
            assert forall|i: int, k: int| 0 <= i < k < now.len() implies (
            #[trigger] now[i]).interface != (#[trigger] now[k]).interface || now[i].func
                != now[k].func by {
                if k < then.len() {
                    assert(now[i] == then[i] && now[k] == then[k]);
                } else if i >= then.len() {
                    let a = funcs[i - then.len()];
                    let b = funcs[k - then.len()];
                    assert(now[i] == a && now[k] == b);
                } else {
                    let b = funcs[k - then.len()];
                    assert(now[i] == then[i] && now[k] == b);
                    lemma_wired_from(then, import.name@, b.func, 0);
                }
            }
            assert forall|i: int, m: int|
                #![trigger imports[i], imports[i].interface->0@[m]]
                0 <= i < n && interfaces.contains(imports[i].name@)
                    && imports[i].interface is Some && 0 <= m < imports[i].interface->0@.len()
                    && imports[i].interface->0@[m].func is Some implies wired_as(
                now,
                imports[i].name@,
                imports[i].interface->0@[m].name@,
            ) == imports[i].interface->0@[m].func by {
                let name = imports[i].name@;
                let func = imports[i].interface->0@[m].name@;
                if i < p {
                    assert(wired_as(then, name, func) == imports[i].interface->0@[m].func);
                    assert(wired_as(now, name, func) == wired_as(then, name, func));
                } else {
                    assert(members[m].func is Some);
                    lemma_wired_concat(then, funcs, name, func, 0);
                }
            }
        }
    }
}

/// Every importer of a host-mediated function agrees on its asyncness: after a
/// component is polyfilled, each function that it imports of a declared
/// interface is wired exactly once, with the asyncness that it imports it
/// with, and what earlier components wired is wired as before.
pub proof fn importers_agree(
    id: Seq<char>,
    imports: Seq<Extern>,
    interfaces: Seq<Seq<char>>,
    wired: Seq<WiredModel>,
    i: int,
    m: int,
    interface: Seq<char>,
    func: Seq<char>,
)
    requires
        wired_once(wired),
        forall|i: int|
            0 <= i < imports.len() ==> ((#[trigger] imports[i]).interface matches Some(members)
                ==> distinct_members(members@)),
    ensures
        component_plan(id, imports, interfaces, wired, imports.len()) matches Ok((_, now)) ==> {
            &&& wired_once(now)
            &&& wired_as(wired, interface, func) is Some ==> wired_as(now, interface, func)
                == wired_as(wired, interface, func)
            &&& 0 <= i < imports.len() && interfaces.contains(imports[i].name@)
                && imports[i].interface is Some && 0 <= m < imports[i].interface->0@.len()
                && imports[i].interface->0@[m].func is Some ==> wired_as(
                now,
                imports[i].name@,
                imports[i].interface->0@[m].name@,
            ) == imports[i].interface->0@[m].func
        },
{
    if component_plan(id, imports, interfaces, wired, imports.len()) is Ok {
        lemma_component(id, imports, interfaces, wired, imports.len());
    }
}

/// Whether a function is to be defined on the interface that carries its name.
pub open spec fn stands_in(plans: Seq<(Seq<char>, Seq<WiredModel>)>, func: WiredModel) -> bool {
    exists|p: int|
        0 <= p < plans.len() && (#[trigger] plans[p]).0 == func.interface && plans[p].1.contains(
            func,
        )
}

/// The names of the interfaces to define.
pub open spec fn defined_names(plans: Seq<(Seq<char>, Seq<WiredModel>)>) -> Seq<Seq<char>> {
    plans.map_values(|plan: (Seq<char>, Seq<WiredModel>)| plan.0)
}

/// Whether a name is one of the declared interfaces.
pub open spec fn declared(interfaces: Seq<Seq<char>>) -> spec_fn(Seq<char>) -> bool {
    |name: Seq<char>| interfaces.contains(name)
}

/// The names of a component's imports.
pub open spec fn import_names(imports: Seq<Extern>) -> Seq<Seq<char>> {
    imports.map_values(|import: Extern| import.name@)
}

proof fn lemma_missing_names(
    id: Seq<char>,
    name: Seq<char>,
    members: Seq<Member>,
    wired: Seq<WiredModel>,
    n: nat,
)
    requires
        n <= members.len(),
    ensures
        missing(id, name, members, wired, n) matches Ok(funcs) ==> forall|k: int|
            0 <= k < funcs.len() ==> (#[trigger] funcs[k]).interface == name && wired_as(
                wired,
                name,
                funcs[k].func,
            ) is None && exists|m: int|
                0 <= m < n && (#[trigger] members[m]).name@ == funcs[k].func && members[m].func
                    == Some(funcs[k].is_async),
    decreases n,
{
    if n > 0 {
        let p = (n - 1) as nat;
        lemma_missing_names(id, name, members, wired, p);
        if let Ok(funcs) = missing(id, name, members, wired, n) {
            let before = missing(id, name, members, wired, p)->Ok_0;
            assert forall|k: int| 0 <= k < funcs.len() implies (#[trigger] funcs[k]).interface
                == name && wired_as(wired, name, funcs[k].func) is None && exists|m: int|
                0 <= m < n && (#[trigger] members[m]).name@ == funcs[k].func && members[m].func
                    == Some(funcs[k].is_async) by {
                if k < before.len() {
                    assert(funcs[k] == before[k]);
                    let m = choose|m: int|
                        0 <= m < p && (#[trigger] members[m]).name@ == before[k].func
                            && members[m].func == Some(before[k].is_async);
                    assert(0 <= m < n && members[m].name@ == funcs[k].func);
                } else {
                    assert(members[n - 1].name@ == funcs[k].func);
                }
            }
        }
    }
}

proof fn lemma_defined(
    id: Seq<char>,
    imports: Seq<Extern>,
    interfaces: Seq<Seq<char>>,
    wired: Seq<WiredModel>,
    n: nat,
)
    requires
        n <= imports.len(),
    ensures
        component_plan(id, imports, interfaces, wired, n) matches Ok((plans, now)) ==> {
            &&& defined_names(plans) == import_names(imports.take(n as int)).filter(
                declared(interfaces),
            )
            &&& now.len() >= wired.len()
            &&& now.take(wired.len() as int) == wired
            &&& forall|k: int|
                wired.len() <= k < now.len() ==> stands_in(plans, #[trigger] now[k])
            &&& forall|p: int, f: int|
                0 <= p < plans.len() && 0 <= f < plans[p].1.len() ==> {
                    &&& (#[trigger] plans[p].1[f]).interface == plans[p].0
                    &&& now.contains(plans[p].1[f])
                    &&& wired_as(wired, plans[p].0, plans[p].1[f].func) is None
                }
        },
    decreases n,
{
    reveal(Seq::filter);
    let keep = declared(interfaces);
    if n == 0 {
        assert(defined_names(Seq::empty()) =~= import_names(imports.take(0)).filter(keep));
        assert(wired.take(wired.len() as int) =~= wired);
    } else {
        let q = (n - 1) as nat;
        lemma_defined(id, imports, interfaces, wired, q);
        let names = import_names(imports.take(n as int));
        assert(names.drop_last() =~= import_names(imports.take(q as int)));
        assert(names.last() == imports[q as int].name@);
        if let Ok((plans, now)) = component_plan(id, imports, interfaces, wired, n) {
            let (before, then) = component_plan(id, imports, interfaces, wired, q)->Ok_0;
            let import = imports[q as int];
            if interfaces.contains(import.name@) {
                let members = import.interface->0@;
                lemma_missing_names(id, import.name@, members, then, members.len());
                let funcs = missing(id, import.name@, members, then, members.len())->Ok_0;
                assert(plans == before.push((import.name@, funcs)));
                assert(defined_names(plans) =~= defined_names(before).push(import.name@));
                assert(now.take(wired.len() as int) =~= then.take(wired.len() as int));
                assert forall|k: int| wired.len() <= k < now.len() implies stands_in(
                    plans,
                    #[trigger] now[k],
                ) by {
                    if k < then.len() {
                        assert(now[k] == then[k]);
                        assert(stands_in(before, then[k]));
                        let p = choose|p: int|
                            0 <= p < before.len() && (#[trigger] before[p]).0 == then[k].interface
                                && before[p].1.contains(then[k]);
                        assert(plans[p] == before[p]);
                    } else {
                        assert(now[k] == funcs[k - then.len()]);
                        assert(plans[before.len() as int].1 == funcs);
                        assert(funcs.contains(now[k]));
                    }
                }
                assert forall|p: int, f: int|
                    0 <= p < plans.len() && 0 <= f < plans[p].1.len() implies {
                    &&& (#[trigger] plans[p].1[f]).interface == plans[p].0
                    &&& now.contains(plans[p].1[f])
                    &&& wired_as(wired, plans[p].0, plans[p].1[f].func) is None
                } by {
                    if p < before.len() {
                        assert(plans[p] == before[p]);
                        let f0 = before[p].1[f];
                        let k = choose|k: int| 0 <= k < then.len() && then[k] == f0;
                        assert(now[k] == f0);
                    } else {
                        assert(funcs[f].interface == import.name@);
                        assert(now[then.len() + f] == funcs[f]);
                        let rest = then.skip(wired.len() as int);
                        assert(then =~= wired + rest);
                        lemma_wired_concat(wired, rest, import.name@, funcs[f].func, 0);
                    }
                }
            } else {
                assert(plans == before && now == then);
                assert(defined_names(plans) =~= names.filter(keep));
            }
        }
    }
}

/// Every declared import is defined: the interfaces to define on the linker are
/// exactly the imports whose name is declared, in the order of the imports.
/// What was wired stays, in front; every function newly wired is to be defined
/// on the interface that carries its name, and every function to be defined is
/// newly wired.
pub proof fn declared_imports_are_defined(
    id: Seq<char>,
    imports: Seq<Extern>,
    interfaces: Seq<Seq<char>>,
    wired: Seq<WiredModel>,
)
    ensures
        component_plan(id, imports, interfaces, wired, imports.len()) matches Ok((plans, now)) ==> {
            &&& defined_names(plans) == import_names(imports).filter(
                declared(interfaces),
            )
            &&& now.len() >= wired.len()
            &&& now.take(wired.len() as int) == wired
            &&& forall|k: int|
                wired.len() <= k < now.len() ==> stands_in(plans, #[trigger] now[k])
            &&& forall|p: int, f: int|
                0 <= p < plans.len() && 0 <= f < plans[p].1.len() ==> {
                    &&& (#[trigger] plans[p].1[f]).interface == plans[p].0
                    &&& now.contains(plans[p].1[f])
                    &&& wired_as(wired, plans[p].0, plans[p].1[f].func) is None
                }
        },
{
    lemma_defined(id, imports, interfaces, wired, imports.len());
    assert(imports.take(imports.len() as int) =~= imports);
}

proof fn lemma_missing_agrees(
    id: Seq<char>,
    name: Seq<char>,
    members: Seq<Member>,
    wired: Seq<WiredModel>,
    asyncness: spec_fn(Seq<char>, Seq<char>) -> bool,
    n: nat,
)
    requires
        n <= members.len(),
        forall|k: int|
            0 <= k < wired.len() ==> (#[trigger] wired[k]).is_async == asyncness(
                wired[k].interface,
                wired[k].func,
            ),
        forall|m: int|
            0 <= m < members.len() ==> ((#[trigger] members[m]).func matches Some(is_async)
                ==> is_async == asyncness(name, members[m].name@)),
    ensures
        missing(id, name, members, wired, n) matches Ok(funcs) && forall|k: int|
            0 <= k < funcs.len() ==> (#[trigger] funcs[k]).is_async == asyncness(
                funcs[k].interface,
                funcs[k].func,
            ),
    decreases n,
{
    if n > 0 {
        lemma_missing_agrees(id, name, members, wired, asyncness, (n - 1) as nat);
        lemma_wired_from(wired, name, members[n - 1].name@, 0);
    }
}

proof fn lemma_component_agrees(
    id: Seq<char>,
    imports: Seq<Extern>,
    interfaces: Seq<Seq<char>>,
    wired: Seq<WiredModel>,
    asyncness: spec_fn(Seq<char>, Seq<char>) -> bool,
    n: nat,
)
    requires
        n <= imports.len(),
        forall|k: int|
            0 <= k < wired.len() ==> (#[trigger] wired[k]).is_async == asyncness(
                wired[k].interface,
                wired[k].func,
            ),
        forall|i: int|
            0 <= i < imports.len() && interfaces.contains((#[trigger] imports[i]).name@)
                ==> imports[i].interface is Some,
        forall|i: int, m: int|
            #![trigger imports[i], imports[i].interface->0@[m]]
            0 <= i < imports.len() && interfaces.contains(imports[i].name@) && 0 <= m
                < imports[i].interface->0@.len() ==> (imports[i].interface->0@[m].func matches Some(
                is_async,
            ) ==> is_async == asyncness(imports[i].name@, imports[i].interface->0@[m].name@)),
    ensures
        component_plan(id, imports, interfaces, wired, n) matches Ok((_, now)) && forall|k: int|
            0 <= k < now.len() ==> (#[trigger] now[k]).is_async == asyncness(
                now[k].interface,
                now[k].func,
            ),
    decreases n,
{
    if n > 0 {
        let q = (n - 1) as nat;
        lemma_component_agrees(id, imports, interfaces, wired, asyncness, q);
        let then = component_plan(id, imports, interfaces, wired, q)->Ok_0.1;
        let import = imports[q as int];
        if interfaces.contains(import.name@) {
            let members = import.interface->0@;
            assert forall|m: int| 0 <= m < members.len() implies ((
            #[trigger] members[m]).func matches Some(is_async) ==> is_async == asyncness(
                import.name@,
                members[m].name@,
            )) by {
                assert(imports[q as int].interface->0@[m] == members[m]);
            }
            lemma_missing_agrees(id, import.name@, members, then, asyncness, members.len());
        }
    }
}

/// Guests that agree are polyfilled: where every declared import is an
/// interface, and there is an asyncness for each function with which all that
/// is wired and all that is imported of the declared interfaces agree, nothing
/// is refused.
pub proof fn agreeing_imports_are_accepted(
    id: Seq<char>,
    imports: Seq<Extern>,
    interfaces: Seq<Seq<char>>,
    wired: Seq<WiredModel>,
    asyncness: spec_fn(Seq<char>, Seq<char>) -> bool,
)
    requires
        forall|k: int|
            0 <= k < wired.len() ==> (#[trigger] wired[k]).is_async == asyncness(
                wired[k].interface,
                wired[k].func,
            ),
        forall|i: int|
            0 <= i < imports.len() && interfaces.contains((#[trigger] imports[i]).name@)
                ==> imports[i].interface is Some,
        forall|i: int, m: int|
            #![trigger imports[i], imports[i].interface->0@[m]]
            0 <= i < imports.len() && interfaces.contains(imports[i].name@) && 0 <= m
                < imports[i].interface->0@.len() ==> (imports[i].interface->0@[m].func matches Some(
                is_async,
            ) ==> is_async == asyncness(imports[i].name@, imports[i].interface->0@[m].name@)),
    ensures
        component_plan(id, imports, interfaces, wired, imports.len()) is Ok,
{
    lemma_component_agrees(id, imports, interfaces, wired, asyncness, imports.len());
}

/// Whether a refusal names an import at fault: a declared one that is no
/// interface, or a function of a declared one, as it is imported.
pub open spec fn at_fault(
    imports: Seq<Extern>,
    interfaces: Seq<Seq<char>>,
    refusal: PolyfillErrorModel,
    i: int,
) -> bool {
    &&& 0 <= i < imports.len()
    &&& interfaces.contains(imports[i].name@)
    &&& match refusal {
        PolyfillErrorModel::NotInterface { name, .. } => imports[i].name@ == name
            && imports[i].interface is None,
        PolyfillErrorModel::Disagree { name, func, is_async, .. } => imports[i].name@ == name
            && imports[i].interface is Some && exists|m: int|
            0 <= m < imports[i].interface->0@.len() && (
            #[trigger] imports[i].interface->0@[m]).name@ == func
                && imports[i].interface->0@[m].func == Some(is_async),
    }
}

proof fn lemma_missing_refusal(
    id: Seq<char>,
    name: Seq<char>,
    members: Seq<Member>,
    wired: Seq<WiredModel>,
    n: nat,
)
    requires
        n <= members.len(),
    ensures
        missing(id, name, members, wired, n) matches Err(e) ==> (e matches
            PolyfillErrorModel::Disagree { id: guest, name: at, func, is_async } && guest == id && at
            == name && (exists|m: int|
            0 <= m < n && (#[trigger] members[m]).name@ == func && members[m].func == Some(
                is_async,
            )) && wired_as(wired, name, func) == Some(!is_async)),
    decreases n,
{
    if n > 0 {
        lemma_missing_refusal(id, name, members, wired, (n - 1) as nat);
        if let Err(e) = missing(id, name, members, wired, (n - 1) as nat) {
            let func = e->Disagree_func;
            let m = choose|m: int|
                0 <= m < n - 1 && (#[trigger] members[m]).name@ == func && members[m].func == Some(
                    e->Disagree_is_async,
                );
            assert(0 <= m < n && members[m].name@ == func);
        } else {
            assert(members[n - 1].name@ == members[n - 1].name@);
        }
    }
}

/// A refusal names the guest and one of its declared imports that is at fault.
pub proof fn refusals_name_the_fault(
    id: Seq<char>,
    imports: Seq<Extern>,
    interfaces: Seq<Seq<char>>,
    wired: Seq<WiredModel>,
    n: nat,
)
    requires
        n <= imports.len(),
    ensures
        component_plan(id, imports, interfaces, wired, n) matches Err(e) ==> {
            &&& match e {
                PolyfillErrorModel::NotInterface { id: guest, .. } => guest == id,
                PolyfillErrorModel::Disagree { id: guest, .. } => guest == id,
            }
            &&& exists|i: int| #[trigger] at_fault(imports, interfaces, e, i)
        },
    decreases n,
{
    if n > 0 {
        let q = (n - 1) as nat;
        refusals_name_the_fault(id, imports, interfaces, wired, q);
        if let Ok((_, then)) = component_plan(id, imports, interfaces, wired, q) {
            if let Err(e) = component_plan(id, imports, interfaces, wired, n) {
                if let Some(members) = imports[q as int].interface {
                    lemma_missing_refusal(
                        id,
                        imports[q as int].name@,
                        members@,
                        then,
                        members@.len(),
                    );
                }
                assert(at_fault(imports, interfaces, e, q as int));
            }
        }
    }
}

/// A refused polyfill tells the guest and what it imports.
pub proof fn polyfill_refusals_name_the_import(e: PolyfillError)
    ensures
        match e {
            PolyfillError::NotInterface { name, id } => {
                &&& crate::text::holds(e.text_spec(), name@)
                &&& crate::text::holds(e.text_spec(), id@)
            },
            PolyfillError::Disagree { id, name, func, is_async } => {
                &&& crate::text::holds(e.text_spec(), id@)
                &&& crate::text::holds(e.text_spec(), name@)
                &&& crate::text::holds(e.text_spec(), func@)
                &&& crate::text::holds(e.text_spec(), described(is_async))
                &&& crate::text::holds(e.text_spec(), described(!is_async))
            },
        },
{
    match e {
        PolyfillError::NotInterface { name, id } => {
            crate::text::holding_goes_on(name@);
            crate::text::holding_goes_on(id@);
        },
        PolyfillError::Disagree { id, name, func, is_async } => {
            crate::text::holding_goes_on(id@);
            crate::text::holding_goes_on(name@);
            crate::text::holding_goes_on(func@);
            crate::text::holding_goes_on(described(is_async));
            crate::text::holding_goes_on(described(!is_async));
        },
    }
}

/// What is wired stays wired: polyfilling a component only adds functions
/// behind those there were, also where one of its imports is refused; and where
/// none is, what is wired then is what the plan wires.
pub proof fn what_is_wired_stays_wired(
    id: Seq<char>,
    imports: Seq<Extern>,
    interfaces: Seq<Seq<char>>,
    wired: Seq<WiredModel>,
    n: nat,
)
    requires
        n <= imports.len(),
    ensures
        ({
            let now = wired_by(id, imports, interfaces, wired, n);
            &&& now.len() >= wired.len()
            &&& now.subrange(0, wired.len() as int) == wired
            &&& component_plan(id, imports, interfaces, wired, n) matches Ok((_, planned))
                ==> planned == now
        }),
    decreases n,
{
    let now = wired_by(id, imports, interfaces, wired, n);
    if n == 0 {
        assert(now.subrange(0, wired.len() as int) =~= wired);
    } else {
        let p = (n - 1) as nat;
        what_is_wired_stays_wired(id, imports, interfaces, wired, p);
        if component_plan(id, imports, interfaces, wired, n) is Ok {
            let before = component_plan(id, imports, interfaces, wired, p)->Ok_0.1;
            assert(before == wired_by(id, imports, interfaces, wired, p));
            assert(now.subrange(0, wired.len() as int) =~= before.subrange(0, wired.len() as int));
        }
    }
}

} // verus!
