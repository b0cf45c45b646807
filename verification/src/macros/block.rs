//! The `{ key: value, ... }` blocks of the `runtime!` grammar and the entries
//! that they describe.

use crate::macros::cursor::{
    at_word, copy_sources, expected_at, expr_at, exprs_in, group_at, ident_at, source_models,
    step_item, step_punct, Source, SourceModel,
};
use crate::macros::token::{Delim, Fault, FaultModel, Tok};
use crate::text::str_eq;
use vstd::prelude::*;
use vstd::string::StringExecFns;

verus! {

/// The blocks of the grammar.
#[derive(Clone, Copy, Debug, PartialEq, Eq, Structural)]
pub enum Block {
    Guest,
    Link,
    Plugin,
    Location,
    Mount,
    Routes,
}

/// One `locations:` entry, discriminated by the keys present.
#[derive(Debug, PartialEq, Eq)]
pub enum LocationSpec {
    /// `{ name: ..., path: ... }`: one named root the deployment opens at
    /// startup for path loads.
    Path {
        /// The location name path loads resolve against.
        name: Source,
        /// The host directory backing the location.
        path: Source,
    },
    /// `{ registry: ... }`: the deployment's default registry endpoint.
    Registry(Source),
}

/// Per-trigger route pattern lists from a guest entry's `routes: { ... }`
/// block; the containing guest is the implicit target.
#[derive(Debug, PartialEq, Eq)]
pub struct GuestRoutesSpec {
    pub http: Vec<Source>,
    pub messaging: Vec<Source>,
    pub websocket: Vec<Source>,
}

/// One `{ id: ..., source: ..., routes: { ... }, command: true }` guest entry.
#[derive(Debug, PartialEq, Eq)]
pub struct GuestSpec {
    pub id: Source,
    pub source: Source,
    pub routes: GuestRoutesSpec,
    pub command: bool,
    /// Mark of the `command:` key, for cross-key diagnostics.
    pub command_span: Option<usize>,
}

/// One `{ name: ..., path: ..., writable: ... }` mount entry.
#[derive(Debug, PartialEq, Eq)]
pub struct MountSpec {
    pub name: Source,
    pub path: Source,
    pub writable: Option<Source>,
}

/// The `link: { interfaces: [...] }` block: the deployment's host-mediated
/// interface set.
#[derive(Debug, PartialEq, Eq)]
pub struct LinkSpec {
    pub interfaces: Vec<Source>,
}

/// The `plugin: { locations: [...] }` block: the deployment's loader
/// acquisition locations.
#[derive(Debug, PartialEq, Eq)]
pub struct PluginSpec {
    pub locations: Vec<LocationSpec>,
}

/// A location, as the contracts speak of it.
pub enum LocationModel {
    Path { name: SourceModel, path: SourceModel },
    Registry(SourceModel),
}

/// Route patterns, as the contracts speak of them.
pub struct RoutesModel {
    pub http: Seq<SourceModel>,
    pub messaging: Seq<SourceModel>,
    pub websocket: Seq<SourceModel>,
}

/// A guest entry, as the contracts speak of it.
pub struct GuestModel {
    pub id: SourceModel,
    pub source: SourceModel,
    pub routes: RoutesModel,
    pub command: bool,
    pub command_span: Option<usize>,
}

/// A mount entry, as the contracts speak of it.
pub struct MountModel {
    pub name: SourceModel,
    pub path: SourceModel,
    pub writable: Option<SourceModel>,
}

impl View for LocationSpec {
    type V = LocationModel;

    open spec fn view(&self) -> LocationModel {
        match *self {
            LocationSpec::Path { name, path } => LocationModel::Path { name: name@, path: path@ },
            LocationSpec::Registry(endpoint) => LocationModel::Registry(endpoint@),
        }
    }
}

impl View for GuestRoutesSpec {
    type V = RoutesModel;

    open spec fn view(&self) -> RoutesModel {
        RoutesModel {
            http: source_models(self.http@),
            messaging: source_models(self.messaging@),
            websocket: source_models(self.websocket@),
        }
    }
}

impl View for GuestSpec {
    type V = GuestModel;

    open spec fn view(&self) -> GuestModel {
        GuestModel {
            id: self.id@,
            source: self.source@,
            routes: self.routes@,
            command: self.command,
            command_span: self.command_span,
        }
    }
}

impl View for MountSpec {
    type V = MountModel;

    open spec fn view(&self) -> MountModel {
        MountModel {
            name: self.name@,
            path: self.path@,
            writable: crate::macros::cursor::source_model(self.writable),
        }
    }
}

/// The models of a list of locations.
pub open spec fn location_models(list: Seq<LocationSpec>) -> Seq<LocationModel> {
    list.map_values(|l: LocationSpec| l@)
}

/// The models of a list of guests.
pub open spec fn guest_models(list: Seq<GuestSpec>) -> Seq<GuestModel> {
    list.map_values(|g: GuestSpec| g@)
}

/// The models of a list of mounts.
pub open spec fn mount_models(list: Seq<MountSpec>) -> Seq<MountModel> {
    list.map_values(|m: MountSpec| m@)
}

impl LocationSpec {
    fn copy(&self) -> (r: LocationSpec)
        ensures
            r@ == self@,
    {
        match self {
            LocationSpec::Path { name, path } => LocationSpec::Path {
                name: name.copy(),
                path: path.copy(),
            },
            LocationSpec::Registry(endpoint) => LocationSpec::Registry(endpoint.copy()),
        }
    }
}

fn copy_locations(list: &Vec<LocationSpec>) -> (r: Vec<LocationSpec>)
    ensures
        location_models(r@) == location_models(list@),
{
    let mut r: Vec<LocationSpec> = Vec::new();
    let mut i: usize = 0;
    while i < list.len()
        invariant
            i <= list@.len(),
            r@.len() == i,
            forall|j: int| 0 <= j < i ==> #[trigger] r@[j]@ == list@[j]@,
        decreases list@.len() - i,
    {
        r.push(list[i].copy());
        i = i + 1;
    }
    assert(location_models(r@) =~= location_models(list@));
    r
}

/// What stands behind a key.
pub enum ShapeModel {
    Expr,
    Exprs,
    Locations,
    Routes,
    Flag,
    /// No value: the key is refused with this diagnostic.
    Refused(Seq<char>),
}

/// What stands behind a key of a block.
pub open spec fn shape_of(block: Block, key: Seq<char>) -> ShapeModel {
    match block {
        Block::Guest => if key == "id"@ || key == "source"@ {
            ShapeModel::Expr
        } else if key == "routes"@ {
            ShapeModel::Routes
        } else if key == "command"@ {
            ShapeModel::Flag
        } else if key == "link"@ || key == "dispatch"@ || key == "plugins"@ {
            ShapeModel::Refused(
                "host-mediated interfaces are deployment-wide; declare them with the top-level `link: { interfaces: [...] }` block, not on a guest entry"@,
            )
        } else {
            ShapeModel::Refused(
                "unknown guest key `"@ + key
                    + "`; expected `id`, `source`, `routes`, or `command`"@,
            )
        },
        Block::Link => if key == "interfaces"@ {
            ShapeModel::Exprs
        } else if key == "locations"@ {
            ShapeModel::Refused(
                "plugin locations belong in `plugin: { locations: [...] }`, not in `link:`"@,
            )
        } else {
            ShapeModel::Refused("unknown link key `"@ + key + "`; expected `interfaces`"@)
        },
        Block::Plugin => if key == "locations"@ {
            ShapeModel::Locations
        } else if key == "interfaces"@ {
            ShapeModel::Refused(
                "host-mediated interfaces belong in `link: { interfaces: [...] }`, not in `plugin:`"@,
            )
        } else if key == "cache"@ {
            ShapeModel::Refused(
                "the `cache:` key was removed; a declared registry location reads fresh. To cache, assemble the runtime by hand and install `omnia::Plugins` over an `omnia::RegistryClient::cached(store)` from `Wiring::extend`"@,
            )
        } else {
            ShapeModel::Refused("unknown plugin key `"@ + key + "`; expected `locations`"@)
        },
        Block::Location => if key == "name"@ || key == "path"@ || key == "registry"@ {
            ShapeModel::Expr
        } else {
            ShapeModel::Refused(
                "unknown location key `"@ + key
                    + "`; expected `name` and `path`, or `registry`"@,
            )
        },
        Block::Mount => if key == "name"@ || key == "path"@ || key == "writable"@ {
            ShapeModel::Expr
        } else {
            ShapeModel::Refused(
                "unknown mount key `"@ + key + "`; expected `name`, `path`, or `writable`"@,
            )
        },
        Block::Routes => if key == "http"@ || key == "messaging"@ || key == "websocket"@ {
            ShapeModel::Exprs
        } else {
            ShapeModel::Refused(
                "unknown route trigger `"@ + key
                    + "`; expected `http`, `messaging`, or `websocket`"@,
            )
        },
    }
}

enum Shape {
    Expr,
    Exprs,
    Locations,
    Routes,
    Flag,
    Refused(String),
}

spec fn shape_model(shape: Shape) -> ShapeModel {
    match shape {
        Shape::Expr => ShapeModel::Expr,
        Shape::Exprs => ShapeModel::Exprs,
        Shape::Locations => ShapeModel::Locations,
        Shape::Routes => ShapeModel::Routes,
        Shape::Flag => ShapeModel::Flag,
        Shape::Refused(message) => ShapeModel::Refused(message@),
    }
}

fn shape(block: Block, key: &str) -> (r: Shape)
    ensures
        shape_model(r) == shape_of(block, key@),
{
    match block {
        Block::Guest => if str_eq(key, "id") || str_eq(key, "source") {
            Shape::Expr
        } else if str_eq(key, "routes") {
            Shape::Routes
        } else if str_eq(key, "command") {
            Shape::Flag
        } else if str_eq(key, "link") || str_eq(key, "dispatch") || str_eq(key, "plugins") {
            Shape::Refused(
                String::from_str(
                    "host-mediated interfaces are deployment-wide; declare them with the top-level `link: { interfaces: [...] }` block, not on a guest entry",
                ),
            )
        } else {
            Shape::Refused(
                String::from_str("unknown guest key `").concat(key).concat(
                    "`; expected `id`, `source`, `routes`, or `command`",
                ),
            )
        },
        Block::Link => if str_eq(key, "interfaces") {
            Shape::Exprs
        } else if str_eq(key, "locations") {
            Shape::Refused(
                String::from_str(
                    "plugin locations belong in `plugin: { locations: [...] }`, not in `link:`",
                ),
            )
        } else {
            Shape::Refused(
                String::from_str("unknown link key `").concat(key).concat(
                    "`; expected `interfaces`",
                ),
            )
        },
        Block::Plugin => if str_eq(key, "locations") {
            Shape::Locations
        } else if str_eq(key, "interfaces") {
            Shape::Refused(
                String::from_str(
                    "host-mediated interfaces belong in `link: { interfaces: [...] }`, not in `plugin:`",
                ),
            )
        } else if str_eq(key, "cache") {
            Shape::Refused(
                String::from_str(
                    "the `cache:` key was removed; a declared registry location reads fresh. To cache, assemble the runtime by hand and install `omnia::Plugins` over an `omnia::RegistryClient::cached(store)` from `Wiring::extend`",
                ),
            )
        } else {
            Shape::Refused(
                String::from_str("unknown plugin key `").concat(key).concat(
                    "`; expected `locations`",
                ),
            )
        },
        Block::Location => if str_eq(key, "name") || str_eq(key, "path") || str_eq(
            key,
            "registry",
        ) {
            Shape::Expr
        } else {
            Shape::Refused(
                String::from_str("unknown location key `").concat(key).concat(
                    "`; expected `name` and `path`, or `registry`",
                ),
            )
        },
        Block::Mount => if str_eq(key, "name") || str_eq(key, "path") || str_eq(key, "writable") {
            Shape::Expr
        } else {
            Shape::Refused(
                String::from_str("unknown mount key `").concat(key).concat(
                    "`; expected `name`, `path`, or `writable`",
                ),
            )
        },
        Block::Routes => if str_eq(key, "http") || str_eq(key, "messaging") || str_eq(
            key,
            "websocket",
        ) {
            Shape::Exprs
        } else {
            Shape::Refused(
                String::from_str("unknown route trigger `").concat(key).concat(
                    "`; expected `http`, `messaging`, or `websocket`",
                ),
            )
        },
    }
}

/// The value behind a key, as the contracts speak of it.
pub enum ValueModel {
    Expr(SourceModel),
    Exprs(Seq<SourceModel>),
    Locations(Seq<LocationModel>),
    Routes(RoutesModel),
    Flag(bool),
}

/// One `key: value`, as the contracts speak of it.
pub struct EntryModel {
    pub key: Seq<char>,
    pub at: usize,
    pub value: ValueModel,
}

enum Value {
    Expr(Source),
    Exprs(Vec<Source>),
    Locations(Vec<LocationSpec>),
    Routes(GuestRoutesSpec),
    Flag(bool),
}

struct Entry {
    key: String,
    at: usize,
    value: Value,
}

spec fn value_model(value: Value) -> ValueModel {
    match value {
        Value::Expr(s) => ValueModel::Expr(s@),
        Value::Exprs(list) => ValueModel::Exprs(source_models(list@)),
        Value::Locations(list) => ValueModel::Locations(location_models(list@)),
        Value::Routes(routes) => ValueModel::Routes(routes@),
        Value::Flag(b) => ValueModel::Flag(b),
    }
}

spec fn entry_model(entry: Entry) -> EntryModel {
    EntryModel { key: entry.key@, at: entry.at, value: value_model(entry.value) }
}

spec fn entry_models(entries: Seq<Entry>) -> Seq<EntryModel> {
    entries.map_values(|e: Entry| entry_model(e))
}

/// The first entry with the key, from `i` on.
pub open spec fn find_from(entries: Seq<EntryModel>, key: Seq<char>, i: int) -> Option<EntryModel>
    decreases entries.len() - i,
{
    if i < 0 || i >= entries.len() {
        None
    } else if entries[i].key == key {
        Some(entries[i])
    } else {
        find_from(entries, key, i + 1)
    }
}

/// The entry with the key.
pub open spec fn find(entries: Seq<EntryModel>, key: Seq<char>) -> Option<EntryModel> {
    find_from(entries, key, 0)
}

/// The expression behind a key.
pub open spec fn find_expr(entries: Seq<EntryModel>, key: Seq<char>) -> Option<SourceModel> {
    match find(entries, key) {
        Some(entry) => match entry.value {
            ValueModel::Expr(s) => Some(s),
            _ => None,
        },
        None => None,
    }
}

/// The list of expressions behind a key, empty without the key.
pub open spec fn find_exprs(entries: Seq<EntryModel>, key: Seq<char>) -> Seq<SourceModel> {
    match find(entries, key) {
        Some(entry) => match entry.value {
            ValueModel::Exprs(list) => list,
            _ => Seq::empty(),
        },
        None => Seq::empty(),
    }
}

fn find_index(entries: &Vec<Entry>, key: &str) -> (r: Option<usize>)
    ensures
        match r {
            Some(i) => i < entries@.len() && find(entry_models(entries@), key@) == Some(
                entry_model(entries@[i as int]),
            ),
            None => find(entry_models(entries@), key@) is None,
        },
{
    let mut i: usize = 0;
    while i < entries.len()
        invariant
            i <= entries@.len(),
            find(entry_models(entries@), key@) == find_from(
                entry_models(entries@),
                key@,
                i as int,
            ),
        decreases entries@.len() - i,
    {
        if str_eq(entries[i].key.as_str(), key) {
            return Some(i);
        }
        i = i + 1;
    }
    None
}

fn expr_of(entries: &Vec<Entry>, key: &str) -> (r: Option<Source>)
    ensures
        crate::macros::cursor::source_model(r) == find_expr(entry_models(entries@), key@),
{
    match find_index(entries, key) {
        Some(i) => match &entries[i].value {
            Value::Expr(s) => Some(s.copy()),
            _ => None,
        },
        None => None,
    }
}

fn exprs_of(entries: &Vec<Entry>, key: &str) -> (r: Vec<Source>)
    ensures
        source_models(r@) == find_exprs(entry_models(entries@), key@),
{
    if let Some(i) = find_index(entries, key) {
        if let Value::Exprs(list) = &entries[i].value {
            return copy_sources(list);
        }
    }
    let none: Vec<Source> = Vec::new();
    assert(source_models(none@) =~= Seq::empty());
    none
}

/// The route patterns that a `routes:` block's entries declare.
pub open spec fn routes_of(entries: Seq<EntryModel>) -> RoutesModel {
    RoutesModel {
        http: find_exprs(entries, "http"@),
        messaging: find_exprs(entries, "messaging"@),
        websocket: find_exprs(entries, "websocket"@),
    }
}

/// The location that a block's entries declare: a registry alone, or a name
/// and a path.
pub open spec fn location_of(entries: Seq<EntryModel>, at: usize) -> Result<
    LocationModel,
    FaultModel,
> {
    let name = find_expr(entries, "name"@);
    let path = find_expr(entries, "path"@);
    let registry = find_expr(entries, "registry"@);
    match registry {
        Some(endpoint) => if name is None && path is None {
            Ok(LocationModel::Registry(endpoint))
        } else {
            Err(
                FaultModel {
                    at,
                    message: "a `registry` location carries no other keys; declare paths as their own `{ name, path }` entries"@,
                },
            )
        },
        None => if name is Some && path is Some {
            Ok(LocationModel::Path { name: name->0, path: path->0 })
        } else {
            Err(
                FaultModel {
                    at,
                    message: "location entry is missing `"@ + (if name is None {
                        "name"@
                    } else {
                        "path"@
                    }) + "`; a location is `{ name, path }` or `{ registry: ... }`"@,
                },
            )
        },
    }
}

/// The mount that a block's entries declare.
pub open spec fn mount_of(entries: Seq<EntryModel>, at: usize) -> Result<MountModel, FaultModel> {
    match (find_expr(entries, "name"@), find_expr(entries, "path"@)) {
        (Some(name), Some(path)) => Ok(
            MountModel { name, path, writable: find_expr(entries, "writable"@) },
        ),
        (None, _) => Err(FaultModel { at, message: "mount entry is missing `name`"@ }),
        (_, None) => Err(FaultModel { at, message: "mount entry is missing `path`"@ }),
    }
}

/// The guest that a block's entries declare.
pub open spec fn guest_of(entries: Seq<EntryModel>, at: usize) -> Result<GuestModel, FaultModel> {
    let command = find(entries, "command"@);
    let marked = command matches Some(entry) && entry.value == ValueModel::Flag(true);
    match (find_expr(entries, "id"@), find_expr(entries, "source"@)) {
        (Some(id), Some(source)) => Ok(
            GuestModel {
                id,
                source,
                routes: match find(entries, "routes"@) {
                    Some(entry) => match entry.value {
                        ValueModel::Routes(routes) => routes,
                        _ => routes_of(Seq::empty()),
                    },
                    None => routes_of(Seq::empty()),
                },
                command: marked,
                command_span: if marked {
                    Some(command->0.at)
                } else {
                    None
                },
            },
        ),
        (None, _) => Err(FaultModel { at, message: "guest entry is missing `id`"@ }),
        (_, None) => Err(FaultModel { at, message: "guest entry is missing `source`"@ }),
    }
}

/// How deep blocks nest below a block.
pub open spec fn rank(block: Block) -> nat {
    match block {
        Block::Guest | Block::Plugin => 1,
        _ => 0,
    }
}

/// The value behind a key, and the position behind it.
pub open spec fn value(
    block: Block,
    key: SourceModel,
    toks: Seq<Tok>,
    end: usize,
    pos: int,
) -> Result<(ValueModel, int), FaultModel>
    decreases rank(block), 0nat, 0int,
{
    match shape_of(block, key.text) {
        ShapeModel::Refused(message) => Err(FaultModel { at: key.at, message }),
        ShapeModel::Expr => match crate::macros::cursor::expr(toks, end, pos) {
            Ok((s, next)) => Ok((ValueModel::Expr(s), next)),
            Err(f) => Err(f),
        },
        ShapeModel::Flag => if crate::macros::cursor::is_word(toks, pos, "true"@) {
            Ok((ValueModel::Flag(true), pos + 1))
        } else if crate::macros::cursor::is_word(toks, pos, "false"@) {
            Ok((ValueModel::Flag(false), pos + 1))
        } else {
            Err(crate::macros::cursor::expected(toks, end, pos, "expected boolean literal"@))
        },
        ShapeModel::Exprs => if !crate::macros::cursor::is_group(toks, pos, Delim::Bracket) {
            Err(
                crate::macros::cursor::expected(
                    toks,
                    end,
                    pos,
                    crate::macros::cursor::delim_name(Delim::Bracket),
                ),
            )
        } else {
            match crate::macros::cursor::exprs(
                crate::macros::cursor::body(toks, pos),
                toks[pos].close,
                0,
                Seq::empty(),
            ) {
                Ok(list) => Ok((ValueModel::Exprs(list), pos + 1)),
                Err(f) => Err(f),
            }
        },
        ShapeModel::Locations => if !crate::macros::cursor::is_group(toks, pos, Delim::Bracket) {
            Err(
                crate::macros::cursor::expected(
                    toks,
                    end,
                    pos,
                    crate::macros::cursor::delim_name(Delim::Bracket),
                ),
            )
        } else {
            match locations(
                crate::macros::cursor::body(toks, pos),
                toks[pos].close,
                0,
                Seq::empty(),
            ) {
                Ok(list) => Ok((ValueModel::Locations(list), pos + 1)),
                Err(f) => Err(f),
            }
        },
        ShapeModel::Routes => match block_entries(Block::Routes, toks, end, pos) {
            Ok(found) => Ok((ValueModel::Routes(routes_of(found)), pos + 1)),
            Err(f) => Err(f),
        },
    }
}

/// The entries of the block at a position.
pub open spec fn block_entries(block: Block, toks: Seq<Tok>, end: usize, pos: int) -> Result<
    Seq<EntryModel>,
    FaultModel,
>
    decreases rank(block), 2nat, 0int,
{
    if !crate::macros::cursor::is_group(toks, pos, Delim::Brace) {
        Err(
            crate::macros::cursor::expected(
                toks,
                end,
                pos,
                crate::macros::cursor::delim_name(Delim::Brace),
            ),
        )
    } else {
        entries(block, crate::macros::cursor::body(toks, pos), toks[pos].close, 0, Seq::empty())
    }
}

/// The entries of a block from a position on, behind those already read. A
/// repeated key is refused.
pub open spec fn entries(
    block: Block,
    toks: Seq<Tok>,
    end: usize,
    pos: int,
    read: Seq<EntryModel>,
) -> Result<Seq<EntryModel>, FaultModel>
    decreases rank(block), 1nat, toks.len() - pos,
{
    if pos >= toks.len() {
        Ok(read)
    } else {
        match crate::macros::cursor::ident(toks, end, pos) {
            Err(f) => Err(f),
            Ok(key) => if find(read, key.text) is Some {
                Err(
                    FaultModel {
                        at: key.at,
                        message: "duplicate `"@ + key.text + ":` key"@,
                    },
                )
            } else {
                match crate::macros::cursor::behind_punct(toks, end, pos + 1, ':') {
                    Err(f) => Err(f),
                    Ok(p) => match value(block, key, toks, end, p) {
                        Err(f) => Err(f),
                        Ok((v, next)) => match crate::macros::cursor::next_item(toks, end, next) {
                            Err(f) => Err(f),
                            Ok(after) => {
                                let more = read.push(
                                    EntryModel { key: key.text, at: key.at, value: v },
                                );
                                if pos < after <= toks.len() {
                                    entries(block, toks, end, after, more)
                                } else {
                                    Ok(more)
                                }
                            },
                        },
                    },
                }
            },
        }
    }
}

/// The location at a position, and the position behind it.
pub open spec fn location(toks: Seq<Tok>, end: usize, pos: int) -> Result<
    (LocationModel, int),
    FaultModel,
>
    decreases 0nat, 3nat, 0int,
{
    match block_entries(Block::Location, toks, end, pos) {
        Err(f) => Err(f),
        Ok(found) => match location_of(found, toks[pos].at) {
            Ok(l) => Ok((l, pos + 1)),
            Err(f) => Err(f),
        },
    }
}

/// The locations of a comma-separated list from a position on, behind those
/// already read.
pub open spec fn locations(toks: Seq<Tok>, end: usize, pos: int, read: Seq<LocationModel>) -> Result<
    Seq<LocationModel>,
    FaultModel,
>
    decreases 0nat, 4nat, toks.len() - pos,
{
    if pos >= toks.len() {
        Ok(read)
    } else {
        match location(toks, end, pos) {
            Err(f) => Err(f),
            Ok((item, next)) => match crate::macros::cursor::next_item(toks, end, next) {
                Err(f) => Err(f),
                Ok(p) => if pos < p <= toks.len() {
                    locations(toks, end, p, read.push(item))
                } else {
                    Ok(read.push(item))
                },
            },
        }
    }
}

/// The guest entry at a position, and the position behind it.
pub open spec fn guest(toks: Seq<Tok>, end: usize, pos: int) -> Result<
    (GuestModel, int),
    FaultModel,
> {
    match block_entries(Block::Guest, toks, end, pos) {
        Err(f) => Err(f),
        Ok(found) => match guest_of(found, toks[pos].at) {
            Ok(g) => Ok((g, pos + 1)),
            Err(f) => Err(f),
        },
    }
}

/// The mount entry at a position, and the position behind it.
pub open spec fn mount(toks: Seq<Tok>, end: usize, pos: int) -> Result<
    (MountModel, int),
    FaultModel,
> {
    match block_entries(Block::Mount, toks, end, pos) {
        Err(f) => Err(f),
        Ok(found) => match mount_of(found, toks[pos].at) {
            Ok(m) => Ok((m, pos + 1)),
            Err(f) => Err(f),
        },
    }
}

/// The guests of a comma-separated list from a position on, behind those
/// already read.
pub open spec fn guests(toks: Seq<Tok>, end: usize, pos: int, read: Seq<GuestModel>) -> Result<
    Seq<GuestModel>,
    FaultModel,
>
    decreases toks.len() - pos,
{
    if pos >= toks.len() {
        Ok(read)
    } else {
        match guest(toks, end, pos) {
            Err(f) => Err(f),
            Ok((item, next)) => match crate::macros::cursor::next_item(toks, end, next) {
                Err(f) => Err(f),
                Ok(p) => if pos < p <= toks.len() {
                    guests(toks, end, p, read.push(item))
                } else {
                    Ok(read.push(item))
                },
            },
        }
    }
}

/// The mounts of a comma-separated list from a position on, behind those
/// already read.
pub open spec fn mounts(toks: Seq<Tok>, end: usize, pos: int, read: Seq<MountModel>) -> Result<
    Seq<MountModel>,
    FaultModel,
>
    decreases toks.len() - pos,
{
    if pos >= toks.len() {
        Ok(read)
    } else {
        match mount(toks, end, pos) {
            Err(f) => Err(f),
            Ok((item, next)) => match crate::macros::cursor::next_item(toks, end, next) {
                Err(f) => Err(f),
                Ok(p) => if pos < p <= toks.len() {
                    mounts(toks, end, p, read.push(item))
                } else {
                    Ok(read.push(item))
                },
            },
        }
    }
}

fn refusal(at: usize, message: &str) -> (f: Fault)
    ensures
        f@ == (FaultModel { at, message: message@ }),
{
    Fault::new(at, message)
}

fn parse_value(block: Block, key: &Source, toks: &Vec<Tok>, end: usize, pos: usize) -> (r: Result<
    (Value, usize),
    Fault,
>)
    requires
        pos <= toks@.len(),
    ensures
        match r {
            Ok((v, next)) => value(block, key@, toks@, end, pos as int) == Ok::<
                (ValueModel, int),
                FaultModel,
            >((value_model(v), next as int)) && pos <= next <= toks@.len(),
            Err(f) => value(block, key@, toks@, end, pos as int) == Err::<
                (ValueModel, int),
                FaultModel,
            >(f@),
        },
    decreases rank(block), 0nat, 0int,
{
    match shape(block, key.text.as_str()) {
        Shape::Refused(message) => Err(Fault { at: key.at, message }),
        Shape::Expr => match expr_at(toks, end, pos) {
            Ok((s, next)) => Ok((Value::Expr(s), next)),
            Err(f) => Err(f),
        },
        Shape::Flag => if at_word(toks, pos, "true") {
            Ok((Value::Flag(true), pos + 1))
        } else if at_word(toks, pos, "false") {
            Ok((Value::Flag(false), pos + 1))
        } else {
            Err(expected_at(toks, end, pos, "expected boolean literal"))
        },
        Shape::Exprs => match group_at(toks, end, pos, Delim::Bracket) {
            Err(f) => Err(f),
            Ok(inner) => match exprs_in(inner, toks[pos].close) {
                Ok(list) => Ok((Value::Exprs(list), pos + 1)),
                Err(f) => Err(f),
            },
        },
        Shape::Locations => match group_at(toks, end, pos, Delim::Bracket) {
            Err(f) => Err(f),
            Ok(inner) => match parse_locations(inner, toks[pos].close) {
                Ok(list) => Ok((Value::Locations(list), pos + 1)),
                Err(f) => Err(f),
            },
        },
        Shape::Routes => match GuestRoutesSpec::parse(toks, end, pos) {
            Ok((routes, next)) => Ok((Value::Routes(routes), next)),
            Err(f) => Err(f),
        },
    }
}

/// Parse a braced `{ key: value, ... }` block. Repeated keys are refused.
fn parse_kv_block(block: Block, toks: &Vec<Tok>, end: usize, pos: usize) -> (r: Result<
    Vec<Entry>,
    Fault,
>)
    ensures
        match r {
            Ok(found) => block_entries(block, toks@, end, pos as int) == Ok::<
                Seq<EntryModel>,
                FaultModel,
            >(entry_models(found@)) && pos < toks@.len() && pos < usize::MAX,
            Err(f) => block_entries(block, toks@, end, pos as int) == Err::<
                Seq<EntryModel>,
                FaultModel,
            >(f@),
        },
    decreases rank(block), 2nat, 0int,
{
    let content = match group_at(toks, end, pos, Delim::Brace) {
        Ok(inner) => inner,
        Err(f) => {
            return Err(f);
        },
    };
    let close = toks[pos].close;
    let mut found: Vec<Entry> = Vec::new();
    let mut p: usize = 0;
    assert(entry_models(found@) =~= Seq::empty());
    while p < content.len()
        invariant
            p <= content@.len(),
            pos < toks@.len(),
            pos < usize::MAX,
            block_entries(block, toks@, end, pos as int) == entries(
                block,
                content@,
                close,
                0,
                Seq::empty(),
            ),
            entries(block, content@, close, 0, Seq::empty()) == entries(
                block,
                content@,
                close,
                p as int,
                entry_models(found@),
            ),
        decreases content@.len() - p,
    {
        let key = match ident_at(content, close, p) {
            Ok(key) => key,
            Err(f) => {
                return Err(f);
            },
        };
        if let Some(_) = find_index(&found, key.text.as_str()) {
            return Err(
                Fault {
                    at: key.at,
                    message: String::from_str("duplicate `").concat(key.text.as_str()).concat(
                        ":` key",
                    ),
                },
            );
        }
        let value_pos = match step_punct(content, close, p + 1, ':') {
            Ok(next) => next,
            Err(f) => {
                return Err(f);
            },
        };
        let (v, next) = match parse_value(block, &key, content, close, value_pos) {
            Ok(read) => read,
            Err(f) => {
                return Err(f);
            },
        };
        let after = match step_item(content, close, next) {
            Ok(after) => after,
            Err(f) => {
                return Err(f);
            },
        };
        let ghost before = found@;
        let entry = Entry { key: key.text, at: key.at, value: v };
        let ghost model = entry_model(entry);
        found.push(entry);
        assert(entry_models(found@) =~= entry_models(before).push(model));
        p = after;
    }
    Ok(found)
}

impl GuestRoutesSpec {
    /// Parse a `routes: { ... }` block.
    pub fn parse(toks: &Vec<Tok>, end: usize, pos: usize) -> (r: Result<
        (GuestRoutesSpec, usize),
        Fault,
    >)
        ensures
            match r {
                Ok((routes, next)) => (block_entries(
                    Block::Routes,
                    toks@,
                    end,
                    pos as int,
                ) matches Ok(found) && routes@ == routes_of(found)) && next == pos + 1 && next
                    <= toks@.len(),
                Err(f) => block_entries(Block::Routes, toks@, end, pos as int) == Err::<
                    Seq<EntryModel>,
                    FaultModel,
                >(f@),
            },
        decreases 0nat, 3nat, 0int,
    {
        match parse_kv_block(Block::Routes, toks, end, pos) {
            Err(f) => Err(f),
            Ok(found) => Ok(
                (
                    GuestRoutesSpec {
                        http: exprs_of(&found, "http"),
                        messaging: exprs_of(&found, "messaging"),
                        websocket: exprs_of(&found, "websocket"),
                    },
                    pos + 1,
                ),
            ),
        }
    }
}

impl LocationSpec {
    /// Parse one `locations:` entry.
    pub fn parse(toks: &Vec<Tok>, end: usize, pos: usize) -> (r: Result<
        (LocationSpec, usize),
        Fault,
    >)
        ensures
            match r {
                Ok((l, next)) => location(toks@, end, pos as int) == Ok::<
                    (LocationModel, int),
                    FaultModel,
                >((l@, next as int)) && pos < next <= toks@.len(),
                Err(f) => location(toks@, end, pos as int) == Err::<
                    (LocationModel, int),
                    FaultModel,
                >(f@),
            },
        decreases 0nat, 3nat, 0int,
    {
        let found = match parse_kv_block(Block::Location, toks, end, pos) {
            Ok(found) => found,
            Err(f) => {
                return Err(f);
            },
        };
        let at = toks[pos].at;
        let name = expr_of(&found, "name");
        let path = expr_of(&found, "path");
        let registry = expr_of(&found, "registry");
        match (name, path, registry) {
            (None, None, Some(registry)) => Ok((LocationSpec::Registry(registry), pos + 1)),
            (Some(name), Some(path), None) => Ok((LocationSpec::Path { name, path }, pos + 1)),
            (_, _, Some(_)) => Err(
                refusal(
                    at,
                    "a `registry` location carries no other keys; declare paths as their own `{ name, path }` entries",
                ),
            ),
            (name, _, None) => {
                let missing = if name.is_none() {
                    "name"
                } else {
                    "path"
                };
                Err(
                    Fault {
                        at,
                        message: String::from_str("location entry is missing `").concat(
                            missing,
                        ).concat("`; a location is `{ name, path }` or `{ registry: ... }`"),
                    },
                )
            },
        }
    }
}

fn parse_locations(toks: &Vec<Tok>, end: usize) -> (r: Result<Vec<LocationSpec>, Fault>)
    ensures
        match r {
            Ok(list) => locations(toks@, end, 0, Seq::empty()) == Ok::<
                Seq<LocationModel>,
                FaultModel,
            >(location_models(list@)),
            Err(f) => locations(toks@, end, 0, Seq::empty()) == Err::<
                Seq<LocationModel>,
                FaultModel,
            >(f@),
        },
    decreases 0nat, 4nat, 0int,
{
    let mut list: Vec<LocationSpec> = Vec::new();
    let mut pos: usize = 0;
    assert(location_models(list@) =~= Seq::empty());
    while pos < toks.len()
        invariant
            pos <= toks@.len(),
            locations(toks@, end, 0, Seq::empty()) == locations(
                toks@,
                end,
                pos as int,
                location_models(list@),
            ),
        decreases toks@.len() - pos,
    {
        let (item, next) = match LocationSpec::parse(toks, end, pos) {
            Ok(item) => item,
            Err(f) => {
                return Err(f);
            },
        };
        let ghost before = list@;
        let ghost model = item@;
        list.push(item);
        assert(location_models(list@) =~= location_models(before).push(model));
        match step_item(toks, end, next) {
            Ok(p) => {
                pos = p;
            },
            Err(f) => {
                return Err(f);
            },
        }
    }
    Ok(list)
}

impl MountSpec {
    /// Parse one mount entry.
    pub fn parse(toks: &Vec<Tok>, end: usize, pos: usize) -> (r: Result<
        (MountSpec, usize),
        Fault,
    >)
        ensures
            match r {
                Ok((m, next)) => mount(toks@, end, pos as int) == Ok::<
                    (MountModel, int),
                    FaultModel,
                >((m@, next as int)) && pos < next <= toks@.len(),
                Err(f) => mount(toks@, end, pos as int) == Err::<(MountModel, int), FaultModel>(f@),
            },
    {
        let found = match parse_kv_block(Block::Mount, toks, end, pos) {
            Ok(found) => found,
            Err(f) => {
                return Err(f);
            },
        };
        let at = toks[pos].at;
        let name = match expr_of(&found, "name") {
            Some(name) => name,
            None => {
                return Err(refusal(at, "mount entry is missing `name`"));
            },
        };
        let path = match expr_of(&found, "path") {
            Some(path) => path,
            None => {
                return Err(refusal(at, "mount entry is missing `path`"));
            },
        };
        Ok((MountSpec { name, path, writable: expr_of(&found, "writable") }, pos + 1))
    }
}

impl GuestSpec {
    /// Parse one guest entry.
    pub fn parse(toks: &Vec<Tok>, end: usize, pos: usize) -> (r: Result<
        (GuestSpec, usize),
        Fault,
    >)
        ensures
            match r {
                Ok((g, next)) => guest(toks@, end, pos as int) == Ok::<
                    (GuestModel, int),
                    FaultModel,
                >((g@, next as int)) && pos < next <= toks@.len(),
                Err(f) => guest(toks@, end, pos as int) == Err::<(GuestModel, int), FaultModel>(f@),
            },
    {
        let found = match parse_kv_block(Block::Guest, toks, end, pos) {
            Ok(found) => found,
            Err(f) => {
                return Err(f);
            },
        };
        let at = toks[pos].at;
        let id = match expr_of(&found, "id") {
            Some(id) => id,
            None => {
                return Err(refusal(at, "guest entry is missing `id`"));
            },
        };
        let source = match expr_of(&found, "source") {
            Some(source) => source,
            None => {
                return Err(refusal(at, "guest entry is missing `source`"));
            },
        };
        let routes = routes_in(&found);
        let (command, command_span) = match find_index(&found, "command") {
            Some(i) => match &found[i].value {
                Value::Flag(true) => (true, Some(found[i].at)),
                _ => (false, None),
            },
            None => (false, None),
        };
        Ok((GuestSpec { id, source, routes, command, command_span }, pos + 1))
    }
}

fn routes_in(found: &Vec<Entry>) -> (r: GuestRoutesSpec)
    ensures
        r@ == (match find(entry_models(found@), "routes"@) {
            Some(entry) => match entry.value {
                ValueModel::Routes(routes) => routes,
                _ => routes_of(Seq::empty()),
            },
            None => routes_of(Seq::empty()),
        }),
{
    if let Some(i) = find_index(found, "routes") {
        if let Value::Routes(routes) = &found[i].value {
            return GuestRoutesSpec {
                http: copy_sources(&routes.http),
                messaging: copy_sources(&routes.messaging),
                websocket: copy_sources(&routes.websocket),
            };
        }
    }
    let none = GuestRoutesSpec { http: Vec::new(), messaging: Vec::new(), websocket: Vec::new() };
    assert(source_models(none.http@) =~= Seq::empty());
    assert(source_models(none.messaging@) =~= Seq::empty());
    assert(source_models(none.websocket@) =~= Seq::empty());
    none
}

/// Parse the guest entries of a comma-separated list.
pub fn parse_guests(toks: &Vec<Tok>, end: usize) -> (r: Result<Vec<GuestSpec>, Fault>)
    ensures
        match r {
            Ok(list) => guests(toks@, end, 0, Seq::empty()) == Ok::<Seq<GuestModel>, FaultModel>(
                guest_models(list@),
            ),
            Err(f) => guests(toks@, end, 0, Seq::empty()) == Err::<Seq<GuestModel>, FaultModel>(f@),
        },
{
    let mut list: Vec<GuestSpec> = Vec::new();
    let mut pos: usize = 0;
    assert(guest_models(list@) =~= Seq::empty());
    while pos < toks.len()
        invariant
            pos <= toks@.len(),
            guests(toks@, end, 0, Seq::empty()) == guests(
                toks@,
                end,
                pos as int,
                guest_models(list@),
            ),
        decreases toks@.len() - pos,
    {
        let (item, next) = match GuestSpec::parse(toks, end, pos) {
            Ok(item) => item,
            Err(f) => {
                return Err(f);
            },
        };
        let ghost before = list@;
        let ghost model = item@;
        list.push(item);
        assert(guest_models(list@) =~= guest_models(before).push(model));
        match step_item(toks, end, next) {
            Ok(p) => {
                pos = p;
            },
            Err(f) => {
                return Err(f);
            },
        }
    }
    Ok(list)
}

/// Parse the mount entries of a comma-separated list.
pub fn parse_mounts(toks: &Vec<Tok>, end: usize) -> (r: Result<Vec<MountSpec>, Fault>)
    ensures
        match r {
            Ok(list) => mounts(toks@, end, 0, Seq::empty()) == Ok::<Seq<MountModel>, FaultModel>(
                mount_models(list@),
            ),
            Err(f) => mounts(toks@, end, 0, Seq::empty()) == Err::<Seq<MountModel>, FaultModel>(f@),
        },
{
    let mut list: Vec<MountSpec> = Vec::new();
    let mut pos: usize = 0;
    assert(mount_models(list@) =~= Seq::empty());
    while pos < toks.len()
        invariant
            pos <= toks@.len(),
            mounts(toks@, end, 0, Seq::empty()) == mounts(
                toks@,
                end,
                pos as int,
                mount_models(list@),
            ),
        decreases toks@.len() - pos,
    {
        let (item, next) = match MountSpec::parse(toks, end, pos) {
            Ok(item) => item,
            Err(f) => {
                return Err(f);
            },
        };
        let ghost before = list@;
        let ghost model = item@;
        list.push(item);
        assert(mount_models(list@) =~= mount_models(before).push(model));
        match step_item(toks, end, next) {
            Ok(p) => {
                pos = p;
            },
            Err(f) => {
                return Err(f);
            },
        }
    }
    Ok(list)
}

/// The interfaces of the `link:` block at a position.
pub open spec fn link(toks: Seq<Tok>, end: usize, pos: int) -> Result<
    (Seq<SourceModel>, int),
    FaultModel,
> {
    match block_entries(Block::Link, toks, end, pos) {
        Err(f) => Err(f),
        Ok(found) => Ok((find_exprs(found, "interfaces"@), pos + 1)),
    }
}

impl LinkSpec {
    /// Parse the `link: { ... }` block.
    pub fn parse(toks: &Vec<Tok>, end: usize, pos: usize) -> (r: Result<(LinkSpec, usize), Fault>)
        ensures
            match r {
                Ok((spec, next)) => link(toks@, end, pos as int) == Ok::<
                    (Seq<SourceModel>, int),
                    FaultModel,
                >((source_models(spec.interfaces@), next as int)) && pos < next <= toks@.len(),
                Err(f) => link(toks@, end, pos as int) == Err::<
                    (Seq<SourceModel>, int),
                    FaultModel,
                >(f@),
            },
    {
        match parse_kv_block(Block::Link, toks, end, pos) {
            Err(f) => Err(f),
            Ok(found) => Ok((LinkSpec { interfaces: exprs_of(&found, "interfaces") }, pos + 1)),
        }
    }
}

/// The endpoints of the registries among locations, in order.
pub open spec fn registries(list: Seq<LocationModel>) -> Seq<SourceModel>
    decreases list.len(),
{
    if list.len() == 0 {
        Seq::empty()
    } else {
        match list.last() {
            LocationModel::Registry(endpoint) => registries(list.drop_last()).push(endpoint),
            LocationModel::Path { .. } => registries(list.drop_last()),
        }
    }
}

/// What a `plugin:` block's locations are refused for, if for anything: an
/// empty `locations:` list, or a second registry.
pub open spec fn plugin_refusal(
    list: Seq<LocationModel>,
    locations_span: Option<usize>,
) -> Option<FaultModel> {
    if list.len() == 0 && locations_span is Some {
        Some(
            FaultModel {
                at: locations_span->0,
                message: "`locations:` is empty; declare at least one `{ name, path }` or `{ registry: ... }` entry"@,
            },
        )
    } else if registries(list).len() > 1 {
        Some(
            FaultModel {
                at: registries(list)[1].at,
                message: "more than one `registry` location; a deployment declares one default registry (a load's own location may still override the endpoint)"@,
            },
        )
    } else {
        None
    }
}

/// The locations that a `plugin:` block's entries declare.
pub open spec fn plugin_of(found: Seq<EntryModel>) -> Result<Seq<LocationModel>, FaultModel> {
    let declared = find(found, "locations"@);
    let list = match declared {
        Some(entry) => match entry.value {
            ValueModel::Locations(list) => list,
            _ => Seq::empty(),
        },
        None => Seq::empty(),
    };
    match plugin_refusal(
        list,
        match declared {
            Some(entry) => Some(entry.at),
            None => None,
        },
    ) {
        Some(f) => Err(f),
        None => Ok(list),
    }
}

/// The locations of the `plugin:` block at a position.
pub open spec fn plugin(toks: Seq<Tok>, end: usize, pos: int) -> Result<
    (Seq<LocationModel>, int),
    FaultModel,
> {
    match block_entries(Block::Plugin, toks, end, pos) {
        Err(f) => Err(f),
        Ok(found) => match plugin_of(found) {
            Ok(list) => Ok((list, pos + 1)),
            Err(f) => Err(f),
        },
    }
}

/// The registries among the first locations come first among all of them.
proof fn lemma_registries_prefix(list: Seq<LocationModel>, n: int)
    requires
        0 <= n <= list.len(),
    ensures
        registries(list.take(n)).len() <= registries(list).len(),
        forall|i: int|
            0 <= i < registries(list.take(n)).len() ==> #[trigger] registries(list)[i]
                == registries(list.take(n))[i],
    decreases list.len(),
{
    if n == list.len() {
        assert(list.take(n) =~= list);
    } else {
        lemma_registries_prefix(list.drop_last(), n);
        assert(list.drop_last().take(n) =~= list.take(n));
    }
}

impl PluginSpec {
    /// The block's cross-key refusals, pointed at the offending key.
    pub fn validate(&self, locations_span: Option<usize>) -> (r: Result<(), Fault>)
        ensures
            match r {
                Ok(()) => plugin_refusal(location_models(self.locations@), locations_span) is None,
                Err(f) => plugin_refusal(location_models(self.locations@), locations_span) == Some(
                    f@,
                ),
            },
    {
        let ghost models = location_models(self.locations@);
        if let Some(span) = locations_span {
            if self.locations.len() == 0 {
                return Err(
                    refusal(
                        span,
                        "`locations:` is empty; declare at least one `{ name, path }` or `{ registry: ... }` entry",
                    ),
                );
            }
        }
        let mut one = false;
        let mut i: usize = 0;
        assert(registries(models.take(0)) =~= Seq::empty());
        while i < self.locations.len()
            invariant
                i <= self.locations@.len(),
                models == location_models(self.locations@),
                models.len() == 0 ==> locations_span is None,
                registries(models.take(i as int)).len() == (if one {
                    1int
                } else {
                    0
                }),
            decreases self.locations@.len() - i,
        {
            proof {
                assert(models.take(i + 1).drop_last() =~= models.take(i as int));
                assert(models.take(i + 1).last() == self.locations@[i as int]@);
            }
            if let LocationSpec::Registry(endpoint) = &self.locations[i] {
                if one {
                    proof {
                        lemma_registries_prefix(models, i + 1);
                        assert(registries(models.take(i + 1))[1] == endpoint@);
                    }
                    return Err(
                        refusal(
                            endpoint.at,
                            "more than one `registry` location; a deployment declares one default registry (a load's own location may still override the endpoint)",
                        ),
                    );
                }
                one = true;
            }
            i = i + 1;
        }
        assert(models.take(i as int) =~= models);
        Ok(())
    }

    /// Parse the `plugin: { ... }` block.
    pub fn parse(toks: &Vec<Tok>, end: usize, pos: usize) -> (r: Result<
        (PluginSpec, usize),
        Fault,
    >)
        ensures
            match r {
                Ok((spec, next)) => plugin(toks@, end, pos as int) == Ok::<
                    (Seq<LocationModel>, int),
                    FaultModel,
                >((location_models(spec.locations@), next as int)) && pos < next <= toks@.len(),
                Err(f) => plugin(toks@, end, pos as int) == Err::<
                    (Seq<LocationModel>, int),
                    FaultModel,
                >(f@),
            },
    {
        let found = match parse_kv_block(Block::Plugin, toks, end, pos) {
            Ok(found) => found,
            Err(f) => {
                return Err(f);
            },
        };
        let mut spec = PluginSpec { locations: Vec::new() };
        let mut locations_span: Option<usize> = None;
        assert(location_models(spec.locations@) =~= Seq::empty());
        if let Some(i) = find_index(&found, "locations") {
            locations_span = Some(found[i].at);
            if let Value::Locations(list) = &found[i].value {
                spec = PluginSpec { locations: copy_locations(list) };
            }
        }
        match spec.validate(locations_span) {
            Ok(()) => Ok((spec, pos + 1)),
            Err(f) => Err(f),
        }
    }
}

proof fn lemma_find(entries: Seq<EntryModel>, key: Seq<char>, i: int)
    requires
        0 <= i <= entries.len(),
    ensures
        match find_from(entries, key, i) {
            Some(entry) => exists|k: int|
                i <= k < entries.len() && #[trigger] entries[k] == entry && entry.key == key,
            None => forall|k: int|
                i <= k < entries.len() ==> (#[trigger] entries[k]).key != key,
        },
    decreases entries.len() - i,
{
    if i < entries.len() {
        lemma_find(entries, key, i + 1);
        if entries[i].key == key {
            assert(i <= i < entries.len() && entries[i] == entries[i]);
        } else if let Some(entry) = find_from(entries, key, i + 1) {
            let k = choose|k: int|
                i + 1 <= k < entries.len() && #[trigger] entries[k] == entry && entry.key == key;
            assert(i <= k < entries.len() && entries[k] == entry);
        } else {
            assert forall|k: int| i <= k < entries.len() implies (#[trigger] entries[k]).key
                != key by {
                if k > i {
                    assert(i + 1 <= k);
                }
            }
        }
    }
}

/// Whether no key of a block occurs twice.
pub open spec fn entry_keys_once(entries: Seq<EntryModel>) -> bool {
    forall|i: int, k: int|
        0 <= i < k < entries.len() ==> (#[trigger] entries[i]).key != (#[trigger] entries[k]).key
}

proof fn lemma_find_entry(entries: Seq<EntryModel>, i: int)
    requires
        entry_keys_once(entries),
        0 <= i < entries.len(),
    ensures
        find(entries, entries[i].key) == Some(entries[i]),
{
    let key = entries[i].key;
    lemma_find(entries, key, 0);
    let entry = find(entries, key)->0;
    let k = choose|k: int|
        0 <= k < entries.len() && #[trigger] entries[k] == entry && entry.key == key;
    if k < i {
        assert(entries[k].key != entries[i].key);
    } else if i < k {
        assert(entries[i].key != entries[k].key);
    }
}

/// A guest is what its block says: what stands behind a key is what the guest
/// has for it, and it is the command guest exactly where it is marked.
pub proof fn guests_are_what_their_blocks_say(entries: Seq<EntryModel>, at: usize, i: int)
    requires
        entry_keys_once(entries),
        0 <= i < entries.len(),
    ensures
        guest_of(entries, at) matches Ok(guest) ==> match entries[i].value {
            ValueModel::Expr(s) => (entries[i].key == "id"@ ==> guest.id == s) && (entries[i].key
                == "source"@ ==> guest.source == s),
            ValueModel::Routes(routes) => entries[i].key == "routes"@ ==> guest.routes == routes,
            ValueModel::Flag(marked) => entries[i].key == "command"@ ==> guest.command == marked
                && guest.command_span == (if marked {
                Some(entries[i].at)
            } else {
                None
            }),
            _ => true,
        },
{
    lemma_find_entry(entries, i);
}

/// A block that gives an identity and a source gives a guest; without a
/// `command` key it is not the command guest, without a `routes` key it has no
/// routes.
pub proof fn guests_need_an_identity_and_a_source(
    entries: Seq<EntryModel>,
    at: usize,
    i: int,
    k: int,
)
    requires
        entry_keys_once(entries),
    ensures
        0 <= i < entries.len() && 0 <= k < entries.len() && entries[i].key == "id"@
            && entries[i].value is Expr && entries[k].key == "source"@ && entries[k].value is Expr
            ==> guest_of(entries, at) is Ok,
        (forall|j: int| 0 <= j < entries.len() ==> (#[trigger] entries[j]).key != "id"@)
            ==> guest_of(entries, at) is Err,
        (forall|j: int| 0 <= j < entries.len() ==> (#[trigger] entries[j]).key != "source"@)
            ==> guest_of(entries, at) is Err,
        guest_of(entries, at) matches Ok(guest) ==> {
            &&& guest.command <==> guest.command_span is Some
            &&& (forall|j: int|
                0 <= j < entries.len() ==> (#[trigger] entries[j]).key != "command"@)
                ==> !guest.command
            &&& (forall|j: int|
                0 <= j < entries.len() ==> (#[trigger] entries[j]).key != "routes"@)
                ==> guest.routes.http.len() == 0 && guest.routes.messaging.len() == 0
                && guest.routes.websocket.len() == 0
        },
{
    lemma_find(entries, "id"@, 0);
    lemma_find(entries, "source"@, 0);
    lemma_find(entries, "command"@, 0);
    lemma_find(entries, "routes"@, 0);
    lemma_find(Seq::empty(), "http"@, 0);
    if 0 <= i < entries.len() && entries[i].key == "id"@ {
        lemma_find_entry(entries, i);
    }
    if 0 <= k < entries.len() && entries[k].key == "source"@ {
        lemma_find_entry(entries, k);
    }
}

/// A mount is what its block says, and is read-only or writable only as a
/// `writable` key says.
pub proof fn mounts_are_what_their_blocks_say(entries: Seq<EntryModel>, at: usize, i: int)
    requires
        entry_keys_once(entries),
    ensures
        mount_of(entries, at) matches Ok(mount) ==> {
            &&& 0 <= i < entries.len() && entries[i].value is Expr ==> {
                &&& entries[i].key == "name"@ ==> mount.name == entries[i].value->Expr_0
                &&& entries[i].key == "path"@ ==> mount.path == entries[i].value->Expr_0
                &&& entries[i].key == "writable"@ ==> mount.writable == Some(
                    entries[i].value->Expr_0,
                )
            }
            &&& (forall|j: int|
                0 <= j < entries.len() ==> (#[trigger] entries[j]).key != "writable"@)
                ==> mount.writable is None
        },
        (forall|j: int| 0 <= j < entries.len() ==> (#[trigger] entries[j]).key != "name"@)
            ==> mount_of(entries, at) is Err,
        (forall|j: int| 0 <= j < entries.len() ==> (#[trigger] entries[j]).key != "path"@)
            ==> mount_of(entries, at) is Err,
{
    lemma_find(entries, "name"@, 0);
    lemma_find(entries, "path"@, 0);
    lemma_find(entries, "writable"@, 0);
    if 0 <= i < entries.len() {
        lemma_find_entry(entries, i);
    }
}

/// A location is what its block says: the registry that it names, and then
/// nothing else, or a name with a path.
pub proof fn locations_are_what_their_blocks_say(entries: Seq<EntryModel>, at: usize, i: int)
    requires
        entry_keys_once(entries),
        0 <= i < entries.len(),
        entries[i].value is Expr,
    ensures
        location_of(entries, at) matches Ok(location) ==> {
            let s = entries[i].value->Expr_0;
            &&& entries[i].key == "registry"@ ==> location == LocationModel::Registry(s)
            &&& entries[i].key == "name"@ ==> (location matches LocationModel::Path { name, .. }
                && name == s)
            &&& entries[i].key == "path"@ ==> (location matches LocationModel::Path { path, .. }
                && path == s)
        },
{
    lemma_find_entry(entries, i);
}

/// Routes are what their block says: each list of patterns goes to the trigger
/// that it stands behind.
pub proof fn routes_are_what_their_blocks_say(entries: Seq<EntryModel>, i: int)
    requires
        entry_keys_once(entries),
        0 <= i < entries.len(),
        entries[i].value is Exprs,
    ensures
        entries[i].key == "http"@ ==> routes_of(entries).http == entries[i].value->Exprs_0,
        entries[i].key == "messaging"@ ==> routes_of(entries).messaging
            == entries[i].value->Exprs_0,
        entries[i].key == "websocket"@ ==> routes_of(entries).websocket
            == entries[i].value->Exprs_0,
{
    lemma_find_entry(entries, i);
}

/// Whether the location at `pos` is the given one, and the next begins at `next`.
pub open spec fn location_at(
    toks: Seq<Tok>,
    end: usize,
    pos: int,
    next: int,
    item: LocationModel,
) -> bool {
    location(toks, end, pos) matches Ok((read, behind)) && read == item && crate::macros::cursor::next_item(
        toks,
        end,
        behind,
    ) == Ok::<int, FaultModel>(next)
}

/// A list of locations gives, behind those read before, the location at each
/// place, one after the other, to the end.
pub proof fn locations_are_read_in_order(
    toks: Seq<Tok>,
    end: usize,
    pos: int,
    read: Seq<LocationModel>,
    list: Seq<LocationModel>,
) -> (starts: Seq<int>)
    requires
        0 <= pos <= toks.len(),
        locations(toks, end, pos, read) == Ok::<Seq<LocationModel>, FaultModel>(list),
    ensures
        list.len() >= read.len(),
        list.subrange(0, read.len() as int) == read,
        starts.len() == list.len() - read.len() + 1,
        starts[0] == pos,
        starts.last() == toks.len(),
        forall|k: int|
            #![trigger list[read.len() + k]]
            0 <= k < list.len() - read.len() ==> location_at(
                toks,
                end,
                starts[k],
                starts[k + 1],
                list[read.len() + k],
            ),
    decreases toks.len() - pos,
{
    if pos >= toks.len() {
        assert(list.subrange(0, read.len() as int) =~= read);
        seq![pos]
    } else {
        let (item, next) = location(toks, end, pos)->Ok_0;
        let p = crate::macros::cursor::next_item(toks, end, next)->Ok_0;
        if pos < p <= toks.len() {
            let rest = locations_are_read_in_order(toks, end, p, read.push(item), list);
            let starts = seq![pos] + rest;
            assert(list.subrange(0, read.len() as int) =~= list.subrange(
                0,
                read.len() as int + 1,
            ).drop_last());
            assert(read.push(item).drop_last() =~= read);
            assert(list[read.len() as int] == list.subrange(
                0,
                read.len() as int + 1,
            )[read.len() as int]);
            assert forall|k: int|
                #![trigger list[read.len() + k]]
                0 <= k < list.len() - read.len() implies location_at(
                toks,
                end,
                starts[k],
                starts[k + 1],
                list[read.len() + k],
            ) by {
                if k > 0 {
                    assert(starts[k] == rest[k - 1] && starts[k + 1] == rest[k]);
                    assert(list[read.push(item).len() + (k - 1)] == list[read.len() + k]);
                } else {
                    assert(starts[0] == pos && starts[1] == p);
                }
            }
            starts
        } else {
            assert(list.subrange(0, read.len() as int) =~= read);
            seq![pos, p]
        }
    }
}

/// Whether the guest at `pos` is the given one, and the next begins at `next`.
pub open spec fn guest_at(
    toks: Seq<Tok>,
    end: usize,
    pos: int,
    next: int,
    item: GuestModel,
) -> bool {
    guest(toks, end, pos) matches Ok((read, behind)) && read == item && crate::macros::cursor::next_item(
        toks,
        end,
        behind,
    ) == Ok::<int, FaultModel>(next)
}

/// A list of guests gives, behind those read before, the guest at each place,
/// one after the other, to the end.
pub proof fn guests_are_read_in_order(
    toks: Seq<Tok>,
    end: usize,
    pos: int,
    read: Seq<GuestModel>,
    list: Seq<GuestModel>,
) -> (starts: Seq<int>)
    requires
        0 <= pos <= toks.len(),
        guests(toks, end, pos, read) == Ok::<Seq<GuestModel>, FaultModel>(list),
    ensures
        list.len() >= read.len(),
        list.subrange(0, read.len() as int) == read,
        starts.len() == list.len() - read.len() + 1,
        starts[0] == pos,
        starts.last() == toks.len(),
        forall|k: int|
            #![trigger list[read.len() + k]]
            0 <= k < list.len() - read.len() ==> guest_at(
                toks,
                end,
                starts[k],
                starts[k + 1],
                list[read.len() + k],
            ),
    decreases toks.len() - pos,
{
    if pos >= toks.len() {
        assert(list.subrange(0, read.len() as int) =~= read);
        seq![pos]
    } else {
        let (item, next) = guest(toks, end, pos)->Ok_0;
        let p = crate::macros::cursor::next_item(toks, end, next)->Ok_0;
        if pos < p <= toks.len() {
            let rest = guests_are_read_in_order(toks, end, p, read.push(item), list);
            let starts = seq![pos] + rest;
            assert(list.subrange(0, read.len() as int) =~= list.subrange(
                0,
                read.len() as int + 1,
            ).drop_last());
            assert(read.push(item).drop_last() =~= read);
            assert(list[read.len() as int] == list.subrange(
                0,
                read.len() as int + 1,
            )[read.len() as int]);
            assert forall|k: int|
                #![trigger list[read.len() + k]]
                0 <= k < list.len() - read.len() implies guest_at(
                toks,
                end,
                starts[k],
                starts[k + 1],
                list[read.len() + k],
            ) by {
                if k > 0 {
                    assert(starts[k] == rest[k - 1] && starts[k + 1] == rest[k]);
                    assert(list[read.push(item).len() + (k - 1)] == list[read.len() + k]);
                } else {
                    assert(starts[0] == pos && starts[1] == p);
                }
            }
            starts
        } else {
            assert(list.subrange(0, read.len() as int) =~= read);
            seq![pos, p]
        }
    }
}

/// Whether the mount at `pos` is the given one, and the next begins at `next`.
pub open spec fn mount_at(
    toks: Seq<Tok>,
    end: usize,
    pos: int,
    next: int,
    item: MountModel,
) -> bool {
    mount(toks, end, pos) matches Ok((read, behind)) && read == item && crate::macros::cursor::next_item(
        toks,
        end,
        behind,
    ) == Ok::<int, FaultModel>(next)
}

/// A list of mounts gives, behind those read before, the mount at each place,
/// one after the other, to the end.
pub proof fn mounts_are_read_in_order(
    toks: Seq<Tok>,
    end: usize,
    pos: int,
    read: Seq<MountModel>,
    list: Seq<MountModel>,
) -> (starts: Seq<int>)
    requires
        0 <= pos <= toks.len(),
        mounts(toks, end, pos, read) == Ok::<Seq<MountModel>, FaultModel>(list),
    ensures
        list.len() >= read.len(),
        list.subrange(0, read.len() as int) == read,
        starts.len() == list.len() - read.len() + 1,
        starts[0] == pos,
        starts.last() == toks.len(),
        forall|k: int|
            #![trigger list[read.len() + k]]
            0 <= k < list.len() - read.len() ==> mount_at(
                toks,
                end,
                starts[k],
                starts[k + 1],
                list[read.len() + k],
            ),
    decreases toks.len() - pos,
{
    if pos >= toks.len() {
        assert(list.subrange(0, read.len() as int) =~= read);
        seq![pos]
    } else {
        let (item, next) = mount(toks, end, pos)->Ok_0;
        let p = crate::macros::cursor::next_item(toks, end, next)->Ok_0;
        if pos < p <= toks.len() {
            let rest = mounts_are_read_in_order(toks, end, p, read.push(item), list);
            let starts = seq![pos] + rest;
            assert(list.subrange(0, read.len() as int) =~= list.subrange(
                0,
                read.len() as int + 1,
            ).drop_last());
            assert(read.push(item).drop_last() =~= read);
            assert(list[read.len() as int] == list.subrange(
                0,
                read.len() as int + 1,
            )[read.len() as int]);
            assert forall|k: int|
                #![trigger list[read.len() + k]]
                0 <= k < list.len() - read.len() implies mount_at(
                toks,
                end,
                starts[k],
                starts[k + 1],
                list[read.len() + k],
            ) by {
                if k > 0 {
                    assert(starts[k] == rest[k - 1] && starts[k + 1] == rest[k]);
                    assert(list[read.push(item).len() + (k - 1)] == list[read.len() + k]);
                } else {
                    assert(starts[0] == pos && starts[1] == p);
                }
            }
            starts
        } else {
            assert(list.subrange(0, read.len() as int) =~= read);
            seq![pos, p]
        }
    }
}

/// Whether the entry of a block at `pos` is the given one, and the next begins
/// at `next`: its key, a colon and its value.
pub open spec fn entry_at(
    block: Block,
    toks: Seq<Tok>,
    end: usize,
    pos: int,
    next: int,
    entry: EntryModel,
) -> bool {
    let key = SourceModel { text: entry.key, at: entry.at };
    &&& crate::macros::cursor::ident(toks, end, pos) == Ok::<SourceModel, FaultModel>(key)
    &&& crate::macros::cursor::is_punct(toks, pos + 1, ':')
    &&& value(block, key, toks, end, pos + 2) matches Ok((v, behind)) && v == entry.value
        && crate::macros::cursor::next_item(toks, end, behind) == Ok::<int, FaultModel>(next)
}

/// A block gives, behind the entries read before, the entry at each place, one
/// after the other, to the end, and no key twice.
#[verifier::rlimit(60)]
#[verifier::spinoff_prover]
pub proof fn entries_are_read_in_order(
    block: Block,
    toks: Seq<Tok>,
    end: usize,
    pos: int,
    read: Seq<EntryModel>,
    list: Seq<EntryModel>,
) -> (starts: Seq<int>)
    requires
        0 <= pos,
        entry_keys_once(read),
        entries(block, toks, end, pos, read) == Ok::<Seq<EntryModel>, FaultModel>(list),
    ensures
        list.len() >= read.len(),
        list.subrange(0, read.len() as int) == read,
        entry_keys_once(list),
        starts.len() == list.len() - read.len() + 1,
        starts[0] == pos,
        starts.last() >= toks.len() || (starts.len() > 1 && starts.last()
            <= starts[starts.len() - 2]),
        forall|k: int|
            #![trigger list[read.len() + k]]
            0 <= k < list.len() - read.len() ==> entry_at(
                block,
                toks,
                end,
                starts[k],
                starts[k + 1],
                list[read.len() + k],
            ),
    decreases toks.len() - pos,
{
    if pos >= toks.len() {
        assert(list.subrange(0, read.len() as int) =~= read);
        seq![pos]
    } else {
        let key = crate::macros::cursor::ident(toks, end, pos)->Ok_0;
        let (v, next) = value(block, key, toks, end, pos + 2)->Ok_0;
        let p = crate::macros::cursor::next_item(toks, end, next)->Ok_0;
        let item = EntryModel { key: key.text, at: key.at, value: v };
        let more = read.push(item);
        lemma_find(read, key.text, 0);
        assert(entry_keys_once(more)) by {
            assert forall|i: int, k: int| 0 <= i < k < more.len() implies (
            #[trigger] more[i]).key != (#[trigger] more[k]).key by {
                assert(more[i] == read[i]);
                if k < read.len() {
                    assert(more[k] == read[k]);
                }
            }
        }
        assert(entry_at(block, toks, end, pos, p, item));
        if pos < p <= toks.len() {
            let rest = entries_are_read_in_order(block, toks, end, p, more, list);
            let starts = seq![pos] + rest;
            assert(starts.last() == rest.last());
            if rest.len() > 1 {
                assert(starts[starts.len() - 2] == rest[rest.len() - 2]);
            }
            assert(list.subrange(0, read.len() as int) =~= list.subrange(
                0,
                read.len() as int + 1,
            ).drop_last());
            assert(more.drop_last() =~= read);
            assert(list[read.len() as int] == list.subrange(
                0,
                read.len() as int + 1,
            )[read.len() as int]);
            assert forall|k: int|
                #![trigger list[read.len() + k]]
                0 <= k < list.len() - read.len() implies entry_at(
                block,
                toks,
                end,
                starts[k],
                starts[k + 1],
                list[read.len() + k],
            ) by {
                if k > 0 {
                    assert(starts[k] == rest[k - 1] && starts[k + 1] == rest[k]);
                    assert(list[more.len() + (k - 1)] == list[read.len() + k]);
                } else {
                    assert(starts[0] == pos && starts[1] == p);
                }
            }
            starts
        } else {
            assert(list.subrange(0, read.len() as int) =~= read);
            seq![pos, p]
        }
    }
}

proof fn lemma_registry_counted(list: Seq<LocationModel>)
    ensures
        registries(list).len() > 0 <==> exists|i: int|
            0 <= i < list.len() && (#[trigger] list[i]) is Registry,
        registries(list).len() > 1 <==> exists|i: int, k: int|
            0 <= i < k < list.len() && (#[trigger] list[i]) is Registry && (#[trigger] list[k])
                is Registry,
    decreases list.len(),
{
    if list.len() > 0 {
        let before = list.drop_last();
        let last = list.len() - 1;
        lemma_registry_counted(before);
        assert(forall|i: int| 0 <= i < last ==> before[i] == list[i]);
        if registries(before).len() > 0 {
            let i = choose|i: int| 0 <= i < before.len() && (#[trigger] before[i]) is Registry;
            assert(list[i] is Registry);
            if list[last] is Registry {
                assert(0 <= i < last && list[i] is Registry && list[last] is Registry);
            }
        }
        if registries(before).len() > 1 {
            let (i, k) = choose|i: int, k: int|
                0 <= i < k < before.len() && (#[trigger] before[i]) is Registry && (
                #[trigger] before[k]) is Registry;
            assert(list[i] is Registry && list[k] is Registry);
        }
        if list[last] is Registry {
            assert(0 <= last < list.len() && list[last] is Registry);
        }
        if exists|i: int| 0 <= i < list.len() && (#[trigger] list[i]) is Registry {
            let i = choose|i: int| 0 <= i < list.len() && (#[trigger] list[i]) is Registry;
            if i < last {
                assert(before[i] is Registry);
            }
        }
        if exists|i: int, k: int|
            0 <= i < k < list.len() && (#[trigger] list[i]) is Registry && (#[trigger] list[k])
                is Registry {
            let (i, k) = choose|i: int, k: int|
                0 <= i < k < list.len() && (#[trigger] list[i]) is Registry && (#[trigger] list[k])
                    is Registry;
            assert(before[i] is Registry);
            if k < last {
                assert(before[k] is Registry);
            }
        }
    }
}

/// A `plugin:` block's locations are accepted exactly where a declared list of
/// them is not empty and no two are registries.
pub proof fn one_registry_at_most(list: Seq<LocationModel>, locations_span: Option<usize>)
    ensures
        plugin_refusal(list, locations_span) is None <==> (list.len() > 0 || locations_span
            is None) && forall|i: int, k: int|
            0 <= i < k < list.len() ==> !((#[trigger] list[i]) is Registry && (#[trigger] list[k])
                is Registry),
{
    lemma_registry_counted(list);
    if registries(list).len() > 1 {
        let (i, k) = choose|i: int, k: int|
            0 <= i < k < list.len() && (#[trigger] list[i]) is Registry && (#[trigger] list[k])
                is Registry;
        assert(!(forall|i: int, k: int|
            0 <= i < k < list.len() ==> !((#[trigger] list[i]) is Registry && (#[trigger] list[k])
                is Registry)));
    }
}

/// A flag is the boolean that is spelled out, and an expression is taken as it
/// stands; a key that a block does not take is refused where it stands.
pub proof fn values_have_their_shape(
    block: Block,
    key: SourceModel,
    toks: Seq<Tok>,
    end: usize,
    pos: int,
)
    ensures
        shape_of(block, key.text) is Flag ==> match value(block, key, toks, end, pos) {
            Ok((ValueModel::Flag(flag), next)) => next == pos + 1 && (flag
                <==> crate::macros::cursor::is_word(toks, pos, "true"@)) && (!flag
                <==> crate::macros::cursor::is_word(toks, pos, "false"@)),
            Ok(_) => false,
            Err(_) => !crate::macros::cursor::is_word(toks, pos, "true"@)
                && !crate::macros::cursor::is_word(toks, pos, "false"@),
        },
        shape_of(block, key.text) is Expr ==> match value(block, key, toks, end, pos) {
            Ok((ValueModel::Expr(e), next)) => crate::macros::cursor::expr(toks, end, pos) == Ok::<
                (SourceModel, int),
                FaultModel,
            >((e, next)),
            Ok(_) => false,
            Err(f) => crate::macros::cursor::expr(toks, end, pos) == Err::<
                (SourceModel, int),
                FaultModel,
            >(f),
        },
        shape_of(block, key.text) is Refused ==> (value(block, key, toks, end, pos) matches Err(f)
            && f.at == key.at),
{
    reveal_strlit("true");
    reveal_strlit("false");
    assert("true"@.len() == 4 && "false"@.len() == 5);
}

/// Each block takes its own keys and no others.
pub proof fn blocks_take_their_keys(key: Seq<char>)
    ensures
        shape_of(Block::Guest, key) is Expr <==> key == "id"@ || key == "source"@,
        shape_of(Block::Guest, key) is Routes || shape_of(Block::Guest, key) is Flag ==> key
            == "routes"@ || key == "command"@,
        shape_of(Block::Guest, key) is Refused <==> !seq![
            "id"@,
            "source"@,
            "routes"@,
            "command"@,
        ].contains(key),
        shape_of(Block::Mount, key) is Expr <==> seq!["name"@, "path"@, "writable"@].contains(key),
        shape_of(Block::Mount, key) is Expr || shape_of(Block::Mount, key) is Refused,
        shape_of(Block::Location, key) is Expr <==> seq!["name"@, "path"@, "registry"@].contains(
            key,
        ),
        shape_of(Block::Location, key) is Expr || shape_of(Block::Location, key) is Refused,
        shape_of(Block::Routes, key) is Exprs <==> seq![
            "http"@,
            "messaging"@,
            "websocket"@,
        ].contains(key),
        shape_of(Block::Routes, key) is Exprs || shape_of(Block::Routes, key) is Refused,
        shape_of(Block::Link, key) is Exprs <==> key == "interfaces"@,
        shape_of(Block::Link, key) is Exprs || shape_of(Block::Link, key) is Refused,
        shape_of(Block::Plugin, key) is Locations <==> key == "locations"@,
        shape_of(Block::Plugin, key) is Locations || shape_of(Block::Plugin, key) is Refused,
{
    let guest = seq!["id"@, "source"@, "routes"@, "command"@];
    assert(guest[0] == "id"@ && guest[1] == "source"@ && guest[2] == "routes"@ && guest[3]
        == "command"@);
    let mount = seq!["name"@, "path"@, "writable"@];
    assert(mount[0] == "name"@ && mount[1] == "path"@ && mount[2] == "writable"@);
    let location = seq!["name"@, "path"@, "registry"@];
    assert(location[0] == "name"@ && location[1] == "path"@ && location[2] == "registry"@);
    let routes = seq!["http"@, "messaging"@, "websocket"@];
    assert(routes[0] == "http"@ && routes[1] == "messaging"@ && routes[2] == "websocket"@);
}

} // verus!
