//! The settings of a `runtime!({ ... })` invocation and the rules across them.

use crate::macros::block::{
    guest_models, location_models, mount_models, parse_guests, parse_mounts, GuestModel, GuestSpec,
    LinkSpec, LocationModel, LocationSpec, MountModel, MountSpec, PluginSpec,
};
use crate::macros::cursor::{
    at_group, at_punct, at_word, expected_at, expr_at, group_at, ident_at, path_at, source_model,
    source_models, step_item, step_punct, Source, SourceModel,
};
use crate::macros::token::{Delim, Fault, FaultModel, Tok, TokKind};
use crate::text::str_eq;
use vstd::prelude::*;
use vstd::string::StringExecFns;

verus! {

/// Deployment drive mode parsed from `runtime!({ ... })`.
#[derive(Clone, Copy, Debug, PartialEq, Eq, Structural)]
pub enum Mode {
    Server,
    Command,
}

impl Default for Mode {
    fn default() -> (mode: Mode)
        ensures
            mode == Mode::Server,
    {
        Mode::Server
    }
}

/// One `Host: Backend` wiring from the `hosts: { ... }` block, optionally
/// carrying compiled-in connect options: `Host: Backend(options)` lowers to
/// `Backend::connect_with(options)` instead of the env-sourced
/// `Backend::connect()`.
#[derive(Debug, PartialEq, Eq)]
pub struct HostEntry {
    pub host: Source,
    pub backend: Source,
    pub options: Option<Source>,
}

/// Inline manifest keys (`link` interfaces, `plugin` locations, `guests`,
/// `mounts`).
#[derive(Debug, PartialEq, Eq)]
pub struct ManifestSpec {
    pub interfaces: Vec<Source>,
    pub locations: Vec<LocationSpec>,
    pub guests: Vec<GuestSpec>,
    pub mounts: Vec<MountSpec>,
}

/// Configuration for the runtime macro.
#[derive(Debug, PartialEq, Eq)]
pub struct Config {
    pub mode: Mode,
    pub host_entries: Vec<HostEntry>,
    pub config_file: Option<Source>,
    pub manifest: ManifestSpec,
    /// Whether the deployment declares plugin locations: inline through the
    /// `plugin:` block's `locations:` list, or in the config file when a bare
    /// `plugin:` block accompanies `config:`.
    pub link_loader: bool,
}

/// A hosts row, as the contracts speak of it.
pub struct HostEntryModel {
    pub host: SourceModel,
    pub backend: SourceModel,
    pub options: Option<SourceModel>,
}

/// The inline manifest keys, as the contracts speak of them.
pub struct ManifestModel {
    pub interfaces: Seq<SourceModel>,
    pub locations: Seq<LocationModel>,
    pub guests: Seq<GuestModel>,
    pub mounts: Seq<MountModel>,
}

/// A configuration, as the contracts speak of it.
pub struct ConfigModel {
    pub mode: Mode,
    pub host_entries: Seq<HostEntryModel>,
    pub config_file: Option<SourceModel>,
    pub manifest: ManifestModel,
    pub link_loader: bool,
}

impl View for HostEntry {
    type V = HostEntryModel;

    open spec fn view(&self) -> HostEntryModel {
        HostEntryModel {
            host: self.host@,
            backend: self.backend@,
            options: source_model(self.options),
        }
    }
}

/// The models of hosts rows.
pub open spec fn host_models(list: Seq<HostEntry>) -> Seq<HostEntryModel> {
    list.map_values(|h: HostEntry| h@)
}

impl View for ManifestSpec {
    type V = ManifestModel;

    open spec fn view(&self) -> ManifestModel {
        ManifestModel {
            interfaces: source_models(self.interfaces@),
            locations: location_models(self.locations@),
            guests: guest_models(self.guests@),
            mounts: mount_models(self.mounts@),
        }
    }
}

impl View for Config {
    type V = ConfigModel;

    open spec fn view(&self) -> ConfigModel {
        ConfigModel {
            mode: self.mode,
            host_entries: host_models(self.host_entries@),
            config_file: source_model(self.config_file),
            manifest: self.manifest@,
            link_loader: self.link_loader,
        }
    }
}

impl ManifestModel {
    /// Nothing is declared inline.
    pub open spec fn is_empty(self) -> bool {
        self.interfaces.len() == 0 && self.locations.len() == 0 && self.guests.len() == 0
            && self.mounts.len() == 0
    }
}

impl ManifestSpec {
    pub fn is_empty(&self) -> (r: bool)
        ensures
            r == self@.is_empty(),
    {
        self.interfaces.len() == 0 && self.locations.len() == 0 && self.guests.len() == 0
            && self.mounts.len() == 0
    }
}

/// The hosts row at a position, and the position behind it.
pub open spec fn host_entry(toks: Seq<Tok>, end: usize, pos: int) -> Result<
    (HostEntryModel, int),
    FaultModel,
> {
    match crate::macros::cursor::path(toks, end, pos) {
        Err(f) => Err(f),
        Ok((host, p)) => match crate::macros::cursor::behind_punct(toks, end, p, ':') {
            Err(f) => Err(f),
            Ok(p) => match crate::macros::cursor::path(toks, end, p) {
                Err(f) => Err(f),
                Ok((backend, p)) => if !crate::macros::cursor::is_group(toks, p, Delim::Paren) {
                    Ok((HostEntryModel { host, backend, options: None }, p))
                } else {
                    match options(crate::macros::cursor::body(toks, p), toks[p].at, toks[p].close) {
                        Err(f) => Err(f),
                        Ok(e) => Ok((HostEntryModel { host, backend, options: Some(e) }, p + 1)),
                    }
                },
            },
        },
    }
}

/// The one expression that connect options are.
pub open spec fn options(args: Seq<Tok>, at: usize, close: usize) -> Result<
    SourceModel,
    FaultModel,
> {
    if args.len() == 0 {
        Err(
            FaultModel {
                at,
                message: "empty connect options; drop the `()` to connect from the environment"@,
            },
        )
    } else {
        match crate::macros::cursor::expr(args, close, 0) {
            Err(f) => Err(f),
            Ok((e, next)) => if next < args.len() {
                Err(
                    crate::macros::cursor::expected(
                        args,
                        close,
                        next,
                        "expected a single connect-options expression"@,
                    ),
                )
            } else {
                Ok(e)
            },
        }
    }
}

impl HostEntry {
    /// Parse one hosts row.
    pub fn parse(toks: &Vec<Tok>, end: usize, pos: usize) -> (r: Result<
        (HostEntry, usize),
        Fault,
    >)
        requires
            pos <= toks@.len(),
        ensures
            match r {
                Ok((h, next)) => host_entry(toks@, end, pos as int) == Ok::<
                    (HostEntryModel, int),
                    FaultModel,
                >((h@, next as int)) && pos < next <= toks@.len(),
                Err(f) => host_entry(toks@, end, pos as int) == Err::<
                    (HostEntryModel, int),
                    FaultModel,
                >(f@),
            },
    {
        let (host, p) = match path_at(toks, end, pos) {
            Ok(read) => read,
            Err(f) => {
                return Err(f);
            },
        };
        let p = match step_punct(toks, end, p, ':') {
            Ok(next) => next,
            Err(f) => {
                return Err(f);
            },
        };
        let (backend, p) = match path_at(toks, end, p) {
            Ok(read) => read,
            Err(f) => {
                return Err(f);
            },
        };
        if !at_group(toks, p, Delim::Paren) {
            return Ok((HostEntry { host, backend, options: None }, p));
        }
        let args = match group_at(toks, end, p, Delim::Paren) {
            Ok(args) => args,
            Err(f) => {
                return Err(f);
            },
        };
        let (at, close) = (toks[p].at, toks[p].close);
        if args.len() == 0 {
            return Err(
                Fault::new(
                    at,
                    "empty connect options; drop the `()` to connect from the environment",
                ),
            );
        }
        let (e, next) = match expr_at(args, close, 0) {
            Ok(read) => read,
            Err(f) => {
                return Err(f);
            },
        };
        if next < args.len() {
            return Err(
                expected_at(args, close, next, "expected a single connect-options expression"),
            );
        }
        Ok((HostEntry { host, backend, options: Some(e) }, p + 1))
    }
}

/// The hosts rows of a comma-separated list from a position on, behind those
/// already read.
pub open spec fn host_list(toks: Seq<Tok>, end: usize, pos: int, read: Seq<HostEntryModel>) -> Result<
    Seq<HostEntryModel>,
    FaultModel,
>
    decreases toks.len() - pos,
{
    if pos >= toks.len() {
        Ok(read)
    } else {
        match host_entry(toks, end, pos) {
            Err(f) => Err(f),
            Ok((item, next)) => match crate::macros::cursor::next_item(toks, end, next) {
                Err(f) => Err(f),
                Ok(p) => if pos < p <= toks.len() {
                    host_list(toks, end, p, read.push(item))
                } else {
                    Ok(read.push(item))
                },
            },
        }
    }
}

/// Parse the rows of the `hosts: { ... }` block.
pub fn parse_host_entries(toks: &Vec<Tok>, end: usize) -> (r: Result<Vec<HostEntry>, Fault>)
    ensures
        match r {
            Ok(list) => host_list(toks@, end, 0, Seq::empty()) == Ok::<
                Seq<HostEntryModel>,
                FaultModel,
            >(host_models(list@)),
            Err(f) => host_list(toks@, end, 0, Seq::empty()) == Err::<
                Seq<HostEntryModel>,
                FaultModel,
            >(f@),
        },
{
    let mut list: Vec<HostEntry> = Vec::new();
    let mut pos: usize = 0;
    assert(host_models(list@) =~= Seq::empty());
    while pos < toks.len()
        invariant
            pos <= toks@.len(),
            host_list(toks@, end, 0, Seq::empty()) == host_list(
                toks@,
                end,
                pos as int,
                host_models(list@),
            ),
        decreases toks@.len() - pos,
    {
        let (item, next) = match HostEntry::parse(toks, end, pos) {
            Ok(item) => item,
            Err(f) => {
                return Err(f);
            },
        };
        let ghost before = list@;
        let ghost model = item@;
        list.push(item);
        assert(host_models(list@) =~= host_models(before).push(model));
        match step_item(toks, end, next) {
            Ok(p) => {
                pos = p;
            },
            Err(f) => {
                return Err(f);
            },
        }
    }
    Ok(list)
}

/// The value of a setting.
#[derive(Debug, PartialEq, Eq)]
pub enum OptValue {
    Mode(Mode),
    Hosts(Vec<HostEntry>),
    Config(Source),
    Link(LinkSpec),
    Plugin(PluginSpec),
    Guests(Vec<GuestSpec>),
    Mounts(Vec<MountSpec>),
}

/// One `key: value` setting, with the mark of its key.
#[derive(Debug, PartialEq, Eq)]
pub struct Opt {
    pub span: usize,
    pub value: OptValue,
}

/// The value of a setting, as the contracts speak of it.
pub enum OptValueModel {
    Mode(Mode),
    Hosts(Seq<HostEntryModel>),
    Config(SourceModel),
    Link(Seq<SourceModel>),
    Plugin(Seq<LocationModel>),
    Guests(Seq<GuestModel>),
    Mounts(Seq<MountModel>),
}

/// A setting, as the contracts speak of it.
pub struct OptModel {
    pub span: usize,
    pub value: OptValueModel,
}

impl View for OptValue {
    type V = OptValueModel;

    open spec fn view(&self) -> OptValueModel {
        match *self {
            OptValue::Mode(mode) => OptValueModel::Mode(mode),
            OptValue::Hosts(list) => OptValueModel::Hosts(host_models(list@)),
            OptValue::Config(file) => OptValueModel::Config(file@),
            OptValue::Link(spec) => OptValueModel::Link(source_models(spec.interfaces@)),
            OptValue::Plugin(spec) => OptValueModel::Plugin(location_models(spec.locations@)),
            OptValue::Guests(list) => OptValueModel::Guests(guest_models(list@)),
            OptValue::Mounts(list) => OptValueModel::Mounts(mount_models(list@)),
        }
    }
}

impl View for Opt {
    type V = OptModel;

    open spec fn view(&self) -> OptModel {
        OptModel { span: self.span, value: self.value@ }
    }
}

/// The models of settings.
pub open spec fn opt_models(list: Seq<Opt>) -> Seq<OptModel> {
    list.map_values(|o: Opt| o@)
}

impl OptModel {
    /// The key of the setting.
    pub open spec fn name(self) -> Seq<char> {
        match self.value {
            OptValueModel::Mode(_) => "mode"@,
            OptValueModel::Hosts(_) => "hosts"@,
            OptValueModel::Config(_) => "config"@,
            OptValueModel::Link(_) => "link"@,
            OptValueModel::Plugin(_) => "plugin"@,
            OptValueModel::Guests(_) => "guests"@,
            OptValueModel::Mounts(_) => "mounts"@,
        }
    }
}

/// The mode word at a position.
pub open spec fn mode_word(toks: Seq<Tok>, end: usize, pos: int) -> Result<Mode, FaultModel> {
    match crate::macros::cursor::ident(toks, end, pos) {
        Err(f) => Err(f),
        Ok(word) => if word.text == "server"@ {
            Ok(Mode::Server)
        } else if word.text == "command"@ {
            Ok(Mode::Command)
        } else {
            Err(
                FaultModel {
                    at: word.at,
                    message: "expected `server` or `command`, got `"@ + word.text + "`"@,
                },
            )
        },
    }
}

/// Parse the mode word.
pub fn parse_mode(toks: &Vec<Tok>, end: usize, pos: usize) -> (r: Result<Mode, Fault>)
    ensures
        match r {
            Ok(mode) => mode_word(toks@, end, pos as int) == Ok::<Mode, FaultModel>(mode) && pos
                < toks@.len() && pos < usize::MAX,
            Err(f) => mode_word(toks@, end, pos as int) == Err::<Mode, FaultModel>(f@),
        },
{
    match ident_at(toks, end, pos) {
        Err(f) => Err(f),
        Ok(word) => if str_eq(word.text.as_str(), "server") {
            Ok(Mode::Server)
        } else if str_eq(word.text.as_str(), "command") {
            Ok(Mode::Command)
        } else {
            Err(
                Fault {
                    at: word.at,
                    message: String::from_str("expected `server` or `command`, got `").concat(
                        word.text.as_str(),
                    ).concat("`"),
                },
            )
        },
    }
}

/// The setting whose value stands at a position, behind the key `key` and a
/// colon, and the position behind it.
pub open spec fn opt_value(
    key: Seq<char>,
    at: usize,
    toks: Seq<Tok>,
    end: usize,
    pos: int,
) -> Result<(OptValueModel, int), FaultModel> {
    if key == "mode"@ {
        match mode_word(toks, end, pos) {
            Ok(mode) => Ok((OptValueModel::Mode(mode), pos + 1)),
            Err(f) => Err(f),
        }
    } else if key == "hosts"@ {
        if !crate::macros::cursor::is_group(toks, pos, Delim::Brace) {
            Err(
                crate::macros::cursor::expected(
                    toks,
                    end,
                    pos,
                    crate::macros::cursor::delim_name(Delim::Brace),
                ),
            )
        } else {
            match host_list(
                crate::macros::cursor::body(toks, pos),
                toks[pos].close,
                0,
                Seq::empty(),
            ) {
                Ok(list) => Ok((OptValueModel::Hosts(list), pos + 1)),
                Err(f) => Err(f),
            }
        }
    } else if key == "config"@ {
        match crate::macros::cursor::expr(toks, end, pos) {
            Ok((file, next)) => Ok((OptValueModel::Config(file), next)),
            Err(f) => Err(f),
        }
    } else if key == "link"@ {
        if crate::macros::cursor::is_group(toks, pos, Delim::Bracket) {
            Err(
                FaultModel {
                    at,
                    message: "the `link:` key takes a block: `link: { interfaces: [\"ns:pkg/iface\"] }`"@,
                },
            )
        } else {
            match crate::macros::block::link(toks, end, pos) {
                Ok((list, next)) => Ok((OptValueModel::Link(list), next)),
                Err(f) => Err(f),
            }
        }
    } else if key == "plugin"@ {
        if crate::macros::cursor::is_group(toks, pos, Delim::Bracket) {
            Err(
                FaultModel {
                    at,
                    message: "the `plugin:` key takes a block: `plugin: { locations: [...] }`"@,
                },
            )
        } else {
            match crate::macros::block::plugin(toks, end, pos) {
                Ok((list, next)) => Ok((OptValueModel::Plugin(list), next)),
                Err(f) => Err(f),
            }
        }
    } else {
        // `guests` or `mounts`
        if !crate::macros::cursor::is_group(toks, pos, Delim::Bracket) {
            Err(
                crate::macros::cursor::expected(
                    toks,
                    end,
                    pos,
                    crate::macros::cursor::delim_name(Delim::Bracket),
                ),
            )
        } else if key == "guests"@ {
            match crate::macros::block::guests(
                crate::macros::cursor::body(toks, pos),
                toks[pos].close,
                0,
                Seq::empty(),
            ) {
                Ok(list) => Ok((OptValueModel::Guests(list), pos + 1)),
                Err(f) => Err(f),
            }
        } else {
            match crate::macros::block::mounts(
                crate::macros::cursor::body(toks, pos),
                toks[pos].close,
                0,
                Seq::empty(),
            ) {
                Ok(list) => Ok((OptValueModel::Mounts(list), pos + 1)),
                Err(f) => Err(f),
            }
        }
    }
}

/// Whether a word is a setting's key.
pub open spec fn is_key(word: Seq<char>) -> bool {
    word == "mode"@ || word == "hosts"@ || word == "config"@ || word == "link"@ || word
        == "plugin"@ || word == "guests"@ || word == "mounts"@
}

/// What a key that was removed from the grammar is refused with.
pub open spec fn removed_key(word: Seq<char>) -> Option<Seq<char>> {
    if word == "routes"@ {
        Some(
            "the top-level `routes:` key was removed; declare routes on each guest entry (`guests: [{ id: ..., source: ..., routes: { http: [...] } }]`)"@,
        )
    } else if word == "plugins"@ {
        Some(
            "the `plugins:` key was split; declare host-mediated interfaces with `link: { interfaces: [...] }` and plugin locations with `plugin: { locations: [...] }`"@,
        )
    } else if word == "dispatch"@ {
        Some(
            "the `dispatch:` key was renamed; declare host-mediated interfaces with the top-level `link: { interfaces: [...] }` block"@,
        )
    } else {
        None
    }
}

/// Whether the words among tokens are all `locations`.
pub open spec fn names_locations(toks: Seq<Tok>) -> bool {
    forall|i: int|
        0 <= i < toks.len() && (#[trigger] toks[i]).kind is Ident
            ==> toks[i].kind->Ident_0@ == "locations"@
}

/// Whether the key at a position has a block that declares locations and
/// nothing else, or nothing at all.
pub open spec fn locations_block(toks: Seq<Tok>, pos: int) -> bool {
    &&& crate::macros::cursor::is_punct(toks, pos + 1, ':')
    &&& crate::macros::cursor::is_group(toks, pos + 2, Delim::Brace)
    &&& names_locations(crate::macros::cursor::body(toks, pos + 2))
}

/// The key that the word at a position stands for: `plugins` stands for
/// `plugin` before a block that declares locations alone, any other word for
/// itself.
pub open spec fn key_word(toks: Seq<Tok>, pos: int) -> Seq<char> {
    let word = toks[pos].kind->Ident_0@;
    if word == "plugins"@ && locations_block(toks, pos) {
        "plugin"@
    } else {
        word
    }
}

/// The setting at a position, and the position behind it.
pub open spec fn opt(toks: Seq<Tok>, end: usize, pos: int) -> Result<(OptModel, int), FaultModel> {
    if 0 <= pos < toks.len() && toks[pos].kind is Ident {
        let word = toks[pos].kind->Ident_0@;
        let key = key_word(toks, pos);
        if is_key(key) {
            match crate::macros::cursor::behind_punct(toks, end, pos + 1, ':') {
                Err(f) => Err(f),
                Ok(p) => match opt_value(key, toks[pos].at, toks, end, p) {
                    Ok((v, next)) => Ok((OptModel { span: toks[pos].at, value: v }, next)),
                    Err(f) => Err(f),
                },
            }
        } else {
            match removed_key(word) {
                Some(message) => Err(FaultModel { at: toks[pos].at, message }),
                None => Err(crate::macros::cursor::expected(toks, end, pos, expected_keys())),
            }
        }
    } else {
        Err(crate::macros::cursor::expected(toks, end, pos, expected_keys()))
    }
}

/// What is said where no key stands.
pub open spec fn expected_keys() -> Seq<char> {
    "expected one of: `mode`, `hosts`, `config`, `link`, `plugin`, `guests`, `mounts`"@
}

impl Opt {
    fn parse_value(key: &str, at: usize, toks: &Vec<Tok>, end: usize, pos: usize) -> (r: Result<
        (OptValue, usize),
        Fault,
    >)
        requires
            pos <= toks@.len(),
            is_key(key@),
        ensures
            match r {
                Ok((v, next)) => opt_value(key@, at, toks@, end, pos as int) == Ok::<
                    (OptValueModel, int),
                    FaultModel,
                >((v@, next as int)) && pos <= next <= toks@.len(),
                Err(f) => opt_value(key@, at, toks@, end, pos as int) == Err::<
                    (OptValueModel, int),
                    FaultModel,
                >(f@),
            },
    {
        if str_eq(key, "mode") {
            match parse_mode(toks, end, pos) {
                Ok(mode) => Ok((OptValue::Mode(mode), pos + 1)),
                Err(f) => Err(f),
            }
        } else if str_eq(key, "hosts") {
            match group_at(toks, end, pos, Delim::Brace) {
                Err(f) => Err(f),
                Ok(inner) => match parse_host_entries(inner, toks[pos].close) {
                    Ok(list) => Ok((OptValue::Hosts(list), pos + 1)),
                    Err(f) => Err(f),
                },
            }
        } else if str_eq(key, "config") {
            match expr_at(toks, end, pos) {
                Ok((file, next)) => Ok((OptValue::Config(file), next)),
                Err(f) => Err(f),
            }
        } else if str_eq(key, "link") {
            if at_group(toks, pos, Delim::Bracket) {
                return Err(
                    Fault::new(
                        at,
                        "the `link:` key takes a block: `link: { interfaces: [\"ns:pkg/iface\"] }`",
                    ),
                );
            }
            match LinkSpec::parse(toks, end, pos) {
                Ok((spec, next)) => Ok((OptValue::Link(spec), next)),
                Err(f) => Err(f),
            }
        } else if str_eq(key, "plugin") {
            if at_group(toks, pos, Delim::Bracket) {
                return Err(
                    Fault::new(
                        at,
                        "the `plugin:` key takes a block: `plugin: { locations: [...] }`",
                    ),
                );
            }
            match PluginSpec::parse(toks, end, pos) {
                Ok((spec, next)) => Ok((OptValue::Plugin(spec), next)),
                Err(f) => Err(f),
            }
        } else {
            match group_at(toks, end, pos, Delim::Bracket) {
                Err(f) => Err(f),
                Ok(inner) => if str_eq(key, "guests") {
                    match parse_guests(inner, toks[pos].close) {
                        Ok(list) => Ok((OptValue::Guests(list), pos + 1)),
                        Err(f) => Err(f),
                    }
                } else {
                    match parse_mounts(inner, toks[pos].close) {
                        Ok(list) => Ok((OptValue::Mounts(list), pos + 1)),
                        Err(f) => Err(f),
                    }
                },
            }
        }
    }

    /// Whether the key at a position has a block of locations alone.
    fn at_locations(toks: &Vec<Tok>, pos: usize) -> (r: bool)
        requires
            pos < toks@.len(),
        ensures
            r == locations_block(toks@, pos as int),
    {
        if toks.len() - pos < 3 || !at_punct(toks, pos + 1, ':') {
            return false;
        }
        let body = match &toks[pos + 2].kind {
            TokKind::Group(Delim::Brace, body) => body,
            _ => {
                return false;
            },
        };
        let mut i: usize = 0;
        while i < body.len()
            invariant
                i <= body@.len(),
                crate::macros::cursor::body(toks@, pos + 2) == body@,
                forall|k: int|
                    0 <= k < i && (#[trigger] body@[k]).kind is Ident
                        ==> body@[k].kind->Ident_0@ == "locations"@,
            decreases body@.len() - i,
        {
            if let TokKind::Ident(word) = &body[i].kind {
                if !str_eq(word.as_str(), "locations") {
                    assert(body@[i as int].kind->Ident_0@ != "locations"@);
                    return false;
                }
            }
            i = i + 1;
        }
        true
    }

    /// The key at a position, if one stands there.
    fn key_at(toks: &Vec<Tok>, pos: usize) -> (r: Option<&'static str>)
        ensures
            match r {
                Some(key) => is_key(key@) && pos < toks@.len() && toks@[pos as int].kind is Ident
                    && key_word(toks@, pos as int) == key@ && pos < usize::MAX,
                None => !(0 <= pos < toks@.len() && toks@[pos as int].kind is Ident && is_key(
                    key_word(toks@, pos as int),
                )),
            },
    {
        proof {
            reveal_strlit("mode");
            reveal_strlit("hosts");
            reveal_strlit("config");
            reveal_strlit("link");
            reveal_strlit("plugin");
            reveal_strlit("guests");
            reveal_strlit("mounts");
            reveal_strlit("plugins");
        }
        if at_word(toks, pos, "mode") {
            Some("mode")
        } else if at_word(toks, pos, "hosts") {
            Some("hosts")
        } else if at_word(toks, pos, "config") {
            Some("config")
        } else if at_word(toks, pos, "link") {
            Some("link")
        } else if at_word(toks, pos, "plugin") {
            Some("plugin")
        } else if at_word(toks, pos, "guests") {
            Some("guests")
        } else if at_word(toks, pos, "mounts") {
            Some("mounts")
        } else if at_word(toks, pos, "plugins") && Self::at_locations(toks, pos) {
            Some("plugin")
        } else {
            None
        }
    }

    /// Parse one setting.
    pub fn parse(toks: &Vec<Tok>, end: usize, pos: usize) -> (r: Result<(Opt, usize), Fault>)
        ensures
            match r {
                Ok((o, next)) => opt(toks@, end, pos as int) == Ok::<(OptModel, int), FaultModel>(
                    (o@, next as int),
                ) && pos < next <= toks@.len(),
                Err(f) => opt(toks@, end, pos as int) == Err::<(OptModel, int), FaultModel>(f@),
            },
    {
        let key = match Self::key_at(toks, pos) {
            Some(key) => key,
            None => {
                return Err(
                    if at_word(toks, pos, "routes") {
                        Fault::new(
                            toks[pos].at,
                            "the top-level `routes:` key was removed; declare routes on each guest entry (`guests: [{ id: ..., source: ..., routes: { http: [...] } }]`)",
                        )
                    } else if at_word(toks, pos, "plugins") {
                        Fault::new(
                            toks[pos].at,
                            "the `plugins:` key was split; declare host-mediated interfaces with `link: { interfaces: [...] }` and plugin locations with `plugin: { locations: [...] }`",
                        )
                    } else if at_word(toks, pos, "dispatch") {
                        Fault::new(
                            toks[pos].at,
                            "the `dispatch:` key was renamed; declare host-mediated interfaces with the top-level `link: { interfaces: [...] }` block",
                        )
                    } else {
                        expected_at(
                            toks,
                            end,
                            pos,
                            "expected one of: `mode`, `hosts`, `config`, `link`, `plugin`, `guests`, `mounts`",
                        )
                    },
                );
            },
        };
        let span = toks[pos].at;
        let p = match step_punct(toks, end, pos + 1, ':') {
            Ok(p) => p,
            Err(f) => {
                return Err(f);
            },
        };
        match Self::parse_value(key, span, toks, end, p) {
            Ok((value, next)) => Ok((Opt { span, value }, next)),
            Err(f) => Err(f),
        }
    }
}

/// The settings of a comma-separated list from a position on, behind those
/// already read.
pub open spec fn settings(toks: Seq<Tok>, end: usize, pos: int, read: Seq<OptModel>) -> Result<
    Seq<OptModel>,
    FaultModel,
>
    decreases toks.len() - pos,
{
    if pos >= toks.len() {
        Ok(read)
    } else {
        match opt(toks, end, pos) {
            Err(f) => Err(f),
            Ok((item, next)) => match crate::macros::cursor::next_item(toks, end, next) {
                Err(f) => Err(f),
                Ok(p) => if pos < p <= toks.len() {
                    settings(toks, end, p, read.push(item))
                } else {
                    Ok(read.push(item))
                },
            },
        }
    }
}

fn parse_settings(toks: &Vec<Tok>, end: usize) -> (r: Result<Vec<Opt>, Fault>)
    ensures
        match r {
            Ok(list) => settings(toks@, end, 0, Seq::empty()) == Ok::<Seq<OptModel>, FaultModel>(
                opt_models(list@),
            ),
            Err(f) => settings(toks@, end, 0, Seq::empty()) == Err::<Seq<OptModel>, FaultModel>(f@),
        },
{
    let mut list: Vec<Opt> = Vec::new();
    let mut pos: usize = 0;
    assert(opt_models(list@) =~= Seq::empty());
    while pos < toks.len()
        invariant
            pos <= toks@.len(),
            settings(toks@, end, 0, Seq::empty()) == settings(
                toks@,
                end,
                pos as int,
                opt_models(list@),
            ),
        decreases toks@.len() - pos,
    {
        let (item, next) = match Opt::parse(toks, end, pos) {
            Ok(item) => item,
            Err(f) => {
                return Err(f);
            },
        };
        let ghost before = list@;
        let ghost model = item@;
        list.push(item);
        assert(opt_models(list@) =~= opt_models(before).push(model));
        match step_item(toks, end, next) {
            Ok(p) => {
                pos = p;
            },
            Err(f) => {
                return Err(f);
            },
        }
    }
    Ok(list)
}

/// The last setting with the key.
pub open spec fn setting(opts: Seq<OptModel>, key: Seq<char>) -> Option<OptModel>
    decreases opts.len(),
{
    if opts.len() == 0 {
        None
    } else if opts.last().name() == key {
        Some(opts.last())
    } else {
        setting(opts.drop_last(), key)
    }
}

/// The diagnostic on the first setting whose key occurred before, if any.
pub open spec fn duplicate(opts: Seq<OptModel>) -> Option<FaultModel>
    decreases opts.len(),
{
    if opts.len() == 0 {
        None
    } else if duplicate(opts.drop_last()) is Some {
        duplicate(opts.drop_last())
    } else if setting(opts.drop_last(), opts.last().name()) is Some {
        Some(
            FaultModel {
                at: opts.last().span,
                message: "duplicate `"@ + opts.last().name() + ":` key"@,
            },
        )
    } else {
        None
    }
}

/// Whether a setting declares manifest data inline.
pub open spec fn is_inline(o: OptModel) -> bool {
    match o.value {
        OptValueModel::Link(interfaces) => interfaces.len() > 0,
        OptValueModel::Plugin(locations) => locations.len() > 0,
        OptValueModel::Guests(_) | OptValueModel::Mounts(_) => true,
        _ => false,
    }
}

/// The mark of the first setting that declares manifest data inline.
pub open spec fn inline_span(opts: Seq<OptModel>) -> Option<usize>
    decreases opts.len(),
{
    if opts.len() == 0 {
        None
    } else if inline_span(opts.drop_last()) is Some {
        inline_span(opts.drop_last())
    } else if is_inline(opts.last()) {
        Some(opts.last().span)
    } else {
        None
    }
}

/// The mark of the setting with the key.
pub open spec fn span_of(opts: Seq<OptModel>, key: Seq<char>) -> Option<usize> {
    match setting(opts, key) {
        Some(o) => Some(o.span),
        None => None,
    }
}

/// What settings declare, their keys being distinct.
pub open spec fn declared(opts: Seq<OptModel>) -> ConfigModel {
    let config_file = match setting(opts, "config"@) {
        Some(o) => match o.value {
            OptValueModel::Config(file) => Some(file),
            _ => None,
        },
        None => None,
    };
    let manifest = ManifestModel {
        interfaces: match setting(opts, "link"@) {
            Some(o) => match o.value {
                OptValueModel::Link(list) => list,
                _ => Seq::empty(),
            },
            None => Seq::empty(),
        },
        locations: match setting(opts, "plugin"@) {
            Some(o) => match o.value {
                OptValueModel::Plugin(list) => list,
                _ => Seq::empty(),
            },
            None => Seq::empty(),
        },
        guests: match setting(opts, "guests"@) {
            Some(o) => match o.value {
                OptValueModel::Guests(list) => list,
                _ => Seq::empty(),
            },
            None => Seq::empty(),
        },
        mounts: match setting(opts, "mounts"@) {
            Some(o) => match o.value {
                OptValueModel::Mounts(list) => list,
                _ => Seq::empty(),
            },
            None => Seq::empty(),
        },
    };
    ConfigModel {
        mode: match setting(opts, "mode"@) {
            Some(o) => match o.value {
                OptValueModel::Mode(mode) => mode,
                _ => Mode::Server,
            },
            None => Mode::Server,
        },
        host_entries: match setting(opts, "hosts"@) {
            Some(o) => match o.value {
                OptValueModel::Hosts(list) => list,
                _ => Seq::empty(),
            },
            None => Seq::empty(),
        },
        config_file,
        manifest,
        link_loader: manifest.locations.len() > 0 || (setting(opts, "plugin"@) is Some
            && config_file is Some),
    }
}

/// The text of connect options, if there are any.
pub open spec fn options_text(entry: HostEntryModel) -> Option<Seq<char>> {
    match entry.options {
        Some(e) => Some(e.text),
        None => None,
    }
}

/// The first row with the backend.
pub open spec fn first_row(rows: Seq<HostEntryModel>, backend: Seq<char>, i: int) -> int
    decreases rows.len() - i,
{
    if i < 0 || i >= rows.len() || rows[i].backend.text == backend {
        i
    } else {
        first_row(rows, backend, i + 1)
    }
}

/// The diagnostic on the first row whose connect options differ from those of
/// the first row with the same backend, if any.
pub open spec fn options_conflict(rows: Seq<HostEntryModel>, i: int) -> Option<FaultModel>
    decreases rows.len() - i,
{
    if i < 0 || i >= rows.len() {
        None
    } else if options_text(rows[i]) != options_text(
        rows[first_row(rows, rows[i].backend.text, 0)],
    ) {
        Some(
            FaultModel {
                at: match rows[i].options {
                    Some(e) => e.at,
                    None => rows[i].backend.at,
                },
                message: "hosts rows sharing a backend share one connection; their connect options must be identical (or omitted on every row)"@,
            },
        )
    } else {
        options_conflict(rows, i + 1)
    }
}

/// The diagnostic on the first guest from `i` on that may not be marked as
/// the command guest, `marked` saying whether one was already, if any.
pub open spec fn command_conflict(
    mode: Mode,
    guests: Seq<GuestModel>,
    i: int,
    marked: bool,
) -> Option<FaultModel>
    decreases guests.len() - i,
{
    if i < 0 || i >= guests.len() {
        None
    } else {
        match guests[i].command_span {
            None => command_conflict(mode, guests, i + 1, marked),
            Some(at) => if mode != Mode::Command {
                Some(
                    FaultModel {
                        at,
                        message: "`command: true` requires `mode: command` (it only routes command mode)"@,
                    },
                )
            } else if marked {
                Some(
                    FaultModel {
                        at,
                        message: "multiple guests marked `command: true`; at most one guest may be the command guest"@,
                    },
                )
            } else {
                command_conflict(mode, guests, i + 1, true)
            },
        }
    }
}

/// What a configuration is refused for across its keys, if for anything.
pub open spec fn conflict(
    config: ConfigModel,
    config_span: Option<usize>,
    inline: Option<usize>,
) -> Option<FaultModel> {
    if config_span is Some && inline is Some {
        Some(
            FaultModel {
                at: inline->0,
                message: "`config:` and inline manifest keys (`link` interfaces, `plugin` locations, `guests`, `mounts`) are mutually exclusive; declare `[[plugin.location]]` entries in the config file"@,
            },
        )
    } else if options_conflict(config.host_entries, 0) is Some {
        options_conflict(config.host_entries, 0)
    } else {
        command_conflict(config.mode, config.manifest.guests, 0, false)
    }
}

/// The configuration that settings give.
pub open spec fn config_of(opts: Seq<OptModel>) -> Result<ConfigModel, FaultModel> {
    let config = declared(opts);
    if duplicate(opts) is Some {
        Err(duplicate(opts)->0)
    } else if span_of(opts, "link"@) is Some && config.manifest.interfaces.len() == 0 {
        Err(
            FaultModel {
                at: span_of(opts, "link"@)->0,
                message: "`link: {}` declares nothing; add `interfaces: [\"ns:pkg/iface\"]`"@,
            },
        )
    } else if span_of(opts, "plugin"@) is Some && config.manifest.locations.len() == 0
        && config.config_file is None {
        Err(
            FaultModel {
                at: span_of(opts, "plugin"@)->0,
                message: "`plugin: {}` declares nothing; add `locations:`, or pair it with `config:` to install the config file's `[[plugin.location]]` entries"@,
            },
        )
    } else {
        match conflict(config, span_of(opts, "config"@), inline_span(opts)) {
            Some(f) => Err(f),
            None => Ok(config),
        }
    }
}

/// The configuration that a `runtime!` invocation gives.
pub open spec fn configuration(toks: Seq<Tok>, end: usize) -> Result<ConfigModel, FaultModel> {
    if !crate::macros::cursor::is_group(toks, 0, Delim::Brace) {
        Err(
            crate::macros::cursor::expected(
                toks,
                end,
                0,
                crate::macros::cursor::delim_name(Delim::Brace),
            ),
        )
    } else {
        match settings(crate::macros::cursor::body(toks, 0), toks[0].close, 0, Seq::empty()) {
            Err(f) => Err(f),
            Ok(opts) => match config_of(opts) {
                Err(f) => Err(f),
                Ok(config) => if toks.len() > 1 {
                    Err(FaultModel { at: toks[1].at, message: "unexpected token"@ })
                } else {
                    Ok(config)
                },
            },
        }
    }
}

proof fn lemma_duplicate_stays(opts: Seq<OptModel>, n: int)
    requires
        0 <= n <= opts.len(),
        duplicate(opts.take(n)) is Some,
    ensures
        duplicate(opts) == duplicate(opts.take(n)),
    decreases opts.len(),
{
    if n == opts.len() {
        assert(opts.take(n) =~= opts);
    } else {
        assert(opts.drop_last().take(n) =~= opts.take(n));
        lemma_duplicate_stays(opts.drop_last(), n);
    }
}

/// No two keys are the same word.
proof fn lemma_keys_distinct()
    ensures
        "mode"@.len() == 4 && "mode"@[0] == 'm',
        "hosts"@.len() == 5 && "hosts"@[0] == 'h',
        "config"@.len() == 6 && "config"@[0] == 'c',
        "link"@.len() == 4 && "link"@[0] == 'l',
        "plugin"@.len() == 6 && "plugin"@[0] == 'p',
        "guests"@.len() == 6 && "guests"@[0] == 'g',
        "mounts"@.len() == 6 && "mounts"@[0] == 'm',
{
    reveal_strlit("mode");
    reveal_strlit("hosts");
    reveal_strlit("config");
    reveal_strlit("link");
    reveal_strlit("plugin");
    reveal_strlit("guests");
    reveal_strlit("mounts");
}

/// Marks of the keys that take part in cross-key validation.
pub struct KeySpans {
    pub config: Option<usize>,
    pub inline: Option<usize>,
}

impl Config {
    /// The rules across keys.
    pub fn validate(&self, spans: &KeySpans) -> (r: Result<(), Fault>)
        ensures
            match r {
                Ok(()) => conflict(self@, spans.config, spans.inline) is None,
                Err(f) => conflict(self@, spans.config, spans.inline) == Some(f@),
            },
    {
        if let (Some(_), Some(inline)) = (spans.config, spans.inline) {
            return Err(
                Fault::new(
                    inline,
                    "`config:` and inline manifest keys (`link` interfaces, `plugin` locations, `guests`, `mounts`) are mutually exclusive; declare `[[plugin.location]]` entries in the config file",
                ),
            );
        }
        let ghost rows = host_models(self.host_entries@);
        let mut i: usize = 0;
        while i < self.host_entries.len()
            invariant
                i <= self.host_entries@.len(),
                rows == host_models(self.host_entries@),
                self@.host_entries == rows,
                !(spans.config is Some && spans.inline is Some),
                options_conflict(rows, 0) == options_conflict(rows, i as int),
            decreases self.host_entries@.len() - i,
        {
            let entry = &self.host_entries[i];
            let first = first_with_backend(&self.host_entries, entry.backend.text.as_str(), i);
            if !same_options(&self.host_entries[first].options, &entry.options) {
                let at = match &entry.options {
                    Some(e) => e.at,
                    None => entry.backend.at,
                };
                return Err(
                    Fault::new(
                        at,
                        "hosts rows sharing a backend share one connection; their connect options must be identical (or omitted on every row)",
                    ),
                );
            }
            i = i + 1;
        }
        let ghost guests = guest_models(self.manifest.guests@);
        let mut marked = false;
        let mut i: usize = 0;
        while i < self.manifest.guests.len()
            invariant
                i <= self.manifest.guests@.len(),
                guests == guest_models(self.manifest.guests@),
                self@.manifest.guests == guests,
                !(spans.config is Some && spans.inline is Some),
                options_conflict(self@.host_entries, 0) is None,
                command_conflict(self.mode, guests, 0, false) == command_conflict(
                    self.mode,
                    guests,
                    i as int,
                    marked,
                ),
            decreases self.manifest.guests@.len() - i,
        {
            if let Some(span) = self.manifest.guests[i].command_span {
                if self.mode != Mode::Command {
                    return Err(
                        Fault::new(
                            span,
                            "`command: true` requires `mode: command` (it only routes command mode)",
                        ),
                    );
                }
                if marked {
                    return Err(
                        Fault::new(
                            span,
                            "multiple guests marked `command: true`; at most one guest may be the command guest",
                        ),
                    );
                }
                marked = true;
            }
            i = i + 1;
        }
        Ok(())
    }

    /// Fold the settings into a configuration.
    fn from_settings(settings: Vec<Opt>) -> (r: Result<Config, Fault>)
        ensures
            match r {
                Ok(config) => config_of(opt_models(settings@)) == Ok::<ConfigModel, FaultModel>(
                    config@,
                ),
                Err(f) => config_of(opt_models(settings@)) == Err::<ConfigModel, FaultModel>(f@),
            },
    {
        let ghost all = opt_models(settings@);
        let mut mode = Mode::Server;
        let mut host_entries: Vec<HostEntry> = Vec::new();
        let mut config_file: Option<Source> = None;
        let mut interfaces: Vec<Source> = Vec::new();
        let mut locations: Vec<LocationSpec> = Vec::new();
        let mut guests: Vec<GuestSpec> = Vec::new();
        let mut mounts: Vec<MountSpec> = Vec::new();
        let mut seen = Seen::new();
        let mut inline: Option<usize> = None;
        proof {
            assert(all.take(0) =~= Seq::empty());
            assert(host_models(host_entries@) =~= Seq::empty());
            assert(source_models(interfaces@) =~= Seq::empty());
            assert(location_models(locations@) =~= Seq::empty());
            assert(guest_models(guests@) =~= Seq::empty());
            assert(mount_models(mounts@) =~= Seq::empty());
        }
        for o in it: settings
            invariant
                all == opt_models(settings@),
                it.seq().len() == all.len(),
                forall|k: int| 0 <= k < all.len() ==> (#[trigger] it.seq()[k])@ == all[k],
                duplicate(all.take(it.index())) is None,
                seen.agrees(all.take(it.index())),
                inline == inline_span(all.take(it.index())),
                ({
                    let so_far = declared(all.take(it.index()));
                    &&& mode == so_far.mode
                    &&& host_models(host_entries@) == so_far.host_entries
                    &&& source_model(config_file) == so_far.config_file
                    &&& source_models(interfaces@) == so_far.manifest.interfaces
                    &&& location_models(locations@) == so_far.manifest.locations
                    &&& guest_models(guests@) == so_far.manifest.guests
                    &&& mount_models(mounts@) == so_far.manifest.mounts
                }),
        {
            let ghost n = it.index();
            let ghost done = all.take(n);
            let ghost next = all.take(n + 1);
            let ghost model = o@;
            proof {
                assert(it.seq()[n]@ == all[n]);
                assert(next.drop_last() =~= done);
                assert(next.last() == model);
                lemma_keys_distinct();
            }
            let span = o.span;
            if seen.has(&o.value) {
                proof {
                    lemma_duplicate_stays(all, n + 1);
                }
                return Err(
                    Fault {
                        at: span,
                        message: String::from_str("duplicate `").concat(o.value.name()).concat(
                            ":` key",
                        ),
                    },
                );
            }
            seen.note(&o.value, span);
            match o.value {
                OptValue::Mode(m) => {
                    mode = m;
                },
                OptValue::Hosts(h) => {
                    host_entries = h;
                },
                OptValue::Config(c) => {
                    config_file = Some(c);
                },
                OptValue::Link(p) => {
                    if p.interfaces.len() > 0 && inline.is_none() {
                        inline = Some(span);
                    }
                    interfaces = p.interfaces;
                },
                OptValue::Plugin(p) => {
                    if p.locations.len() > 0 && inline.is_none() {
                        inline = Some(span);
                    }
                    locations = p.locations;
                },
                OptValue::Guests(g) => {
                    guests = g;
                    if inline.is_none() {
                        inline = Some(span);
                    }
                },
                OptValue::Mounts(m) => {
                    mounts = m;
                    if inline.is_none() {
                        inline = Some(span);
                    }
                },
            }
        }
        assert(all.take(all.len() as int) =~= all);
        if let Some(span) = seen.link {
            if interfaces.len() == 0 {
                return Err(
                    Fault::new(
                        span,
                        "`link: {}` declares nothing; add `interfaces: [\"ns:pkg/iface\"]`",
                    ),
                );
            }
        }
        if let Some(span) = seen.plugin {
            if locations.len() == 0 && config_file.is_none() {
                return Err(
                    Fault::new(
                        span,
                        "`plugin: {}` declares nothing; add `locations:`, or pair it with `config:` to install the config file's `[[plugin.location]]` entries",
                    ),
                );
            }
        }
        let link_loader = locations.len() > 0 || (seen.plugin.is_some() && config_file.is_some());
        let config = Config {
            mode,
            host_entries,
            config_file,
            manifest: ManifestSpec { interfaces, locations, guests, mounts },
            link_loader,
        };
        match config.validate(&KeySpans { config: seen.config, inline }) {
            Ok(()) => Ok(config),
            Err(f) => Err(f),
        }
    }

    /// Parse the tokens of a `runtime!` invocation.
    pub fn parse(toks: &Vec<Tok>, end: usize) -> (r: Result<Config, Fault>)
        ensures
            match r {
                Ok(config) => configuration(toks@, end) == Ok::<ConfigModel, FaultModel>(config@),
                Err(f) => configuration(toks@, end) == Err::<ConfigModel, FaultModel>(f@),
            },
    {
        let inner = match group_at(toks, end, 0, Delim::Brace) {
            Ok(inner) => inner,
            Err(f) => {
                return Err(f);
            },
        };
        let opts = match parse_settings(inner, toks[0].close) {
            Ok(opts) => opts,
            Err(f) => {
                return Err(f);
            },
        };
        let config = match Self::from_settings(opts) {
            Ok(config) => config,
            Err(f) => {
                return Err(f);
            },
        };
        if toks.len() > 1 {
            return Err(Fault::new(toks[1].at, "unexpected token"));
        }
        Ok(config)
    }
}

impl OptValue {
    /// The key of a setting with this value.
    pub fn name(&self) -> (name: &'static str)
        ensures
            name@ == (OptModel { span: 0, value: self@ }).name(),
    {
        match self {
            OptValue::Mode(_) => "mode",
            OptValue::Hosts(_) => "hosts",
            OptValue::Config(_) => "config",
            OptValue::Link(_) => "link",
            OptValue::Plugin(_) => "plugin",
            OptValue::Guests(_) => "guests",
            OptValue::Mounts(_) => "mounts",
        }
    }
}

/// The marks of the keys seen so far.
struct Seen {
    mode: Option<usize>,
    hosts: Option<usize>,
    config: Option<usize>,
    link: Option<usize>,
    plugin: Option<usize>,
    guests: Option<usize>,
    mounts: Option<usize>,
}

impl Seen {
    spec fn agrees(&self, opts: Seq<OptModel>) -> bool {
        &&& self.mode == span_of(opts, "mode"@)
        &&& self.hosts == span_of(opts, "hosts"@)
        &&& self.config == span_of(opts, "config"@)
        &&& self.link == span_of(opts, "link"@)
        &&& self.plugin == span_of(opts, "plugin"@)
        &&& self.guests == span_of(opts, "guests"@)
        &&& self.mounts == span_of(opts, "mounts"@)
    }

    spec fn slot(&self, value: OptValueModel) -> Option<usize> {
        match value {
            OptValueModel::Mode(_) => self.mode,
            OptValueModel::Hosts(_) => self.hosts,
            OptValueModel::Config(_) => self.config,
            OptValueModel::Link(_) => self.link,
            OptValueModel::Plugin(_) => self.plugin,
            OptValueModel::Guests(_) => self.guests,
            OptValueModel::Mounts(_) => self.mounts,
        }
    }

    fn new() -> (seen: Seen)
        ensures
            seen.agrees(Seq::empty()),
    {
        Seen {
            mode: None,
            hosts: None,
            config: None,
            link: None,
            plugin: None,
            guests: None,
            mounts: None,
        }
    }

    fn has(&self, value: &OptValue) -> (r: bool)
        ensures
            r == (self.slot(value@) is Some),
    {
        match value {
            OptValue::Mode(_) => self.mode.is_some(),
            OptValue::Hosts(_) => self.hosts.is_some(),
            OptValue::Config(_) => self.config.is_some(),
            OptValue::Link(_) => self.link.is_some(),
            OptValue::Plugin(_) => self.plugin.is_some(),
            OptValue::Guests(_) => self.guests.is_some(),
            OptValue::Mounts(_) => self.mounts.is_some(),
        }
    }

    fn note(&mut self, value: &OptValue, span: usize)
        ensures
            final(self).mode == (if value@ is Mode { Some(span) } else { old(self).mode }),
            final(self).hosts == (if value@ is Hosts { Some(span) } else { old(self).hosts }),
            final(self).config == (if value@ is Config { Some(span) } else { old(self).config }),
            final(self).link == (if value@ is Link { Some(span) } else { old(self).link }),
            final(self).plugin == (if value@ is Plugin { Some(span) } else { old(self).plugin }),
            final(self).guests == (if value@ is Guests { Some(span) } else { old(self).guests }),
            final(self).mounts == (if value@ is Mounts { Some(span) } else { old(self).mounts }),
    {
        match value {
            OptValue::Mode(_) => {
                self.mode = Some(span);
            },
            OptValue::Hosts(_) => {
                self.hosts = Some(span);
            },
            OptValue::Config(_) => {
                self.config = Some(span);
            },
            OptValue::Link(_) => {
                self.link = Some(span);
            },
            OptValue::Plugin(_) => {
                self.plugin = Some(span);
            },
            OptValue::Guests(_) => {
                self.guests = Some(span);
            },
            OptValue::Mounts(_) => {
                self.mounts = Some(span);
            },
        }
    }
}

fn first_with_backend(rows: &Vec<HostEntry>, backend: &str, bound: usize) -> (r: usize)
    requires
        bound < rows@.len(),
        rows@[bound as int].backend.text@ == backend@,
    ensures
        r <= bound,
        r == first_row(host_models(rows@), backend@, 0),
{
    let mut i: usize = 0;
    while !str_eq(rows[i].backend.text.as_str(), backend)
        invariant
            i <= bound < rows@.len(),
            rows@[bound as int].backend.text@ == backend@,
            first_row(host_models(rows@), backend@, 0) == first_row(
                host_models(rows@),
                backend@,
                i as int,
            ),
        decreases bound - i,
    {
        i = i + 1;
    }
    i
}

fn same_options(a: &Option<Source>, b: &Option<Source>) -> (r: bool)
    ensures
        r == match (*a, *b) {
            (Some(x), Some(y)) => x.text@ == y.text@,
            (None, None) => true,
            _ => false,
        },
{
    match (a, b) {
        (Some(x), Some(y)) => str_eq(x.text.as_str(), y.text.as_str()),
        (None, None) => true,
        _ => false,
    }
}

proof fn lemma_setting(opts: Seq<OptModel>, key: Seq<char>)
    ensures
        setting(opts, key) matches Some(o) ==> o.name() == key,
        setting(opts, key) matches Some(o) ==> inline_span(opts) is None ==> !is_inline(o),
    decreases opts.len(),
{
    if opts.len() > 0 {
        lemma_setting(opts.drop_last(), key);
    }
}

/// A config file and inline manifest data exclude each other: a configuration
/// that names a config file declares no interfaces, locations, guests or
/// mounts of its own.
pub proof fn config_file_excludes_inline_keys(toks: Seq<Tok>, end: usize)
    ensures
        configuration(toks, end) matches Ok(config) ==> config.config_file is Some
            ==> config.manifest.is_empty(),
{
    if let Ok(config) = configuration(toks, end) {
        let opts = settings(
            crate::macros::cursor::body(toks, 0),
            toks[0].close,
            0,
            Seq::empty(),
        )->Ok_0;
        lemma_keys_distinct();
        lemma_setting(opts, "config"@);
        lemma_setting(opts, "link"@);
        lemma_setting(opts, "plugin"@);
        lemma_setting(opts, "guests"@);
        lemma_setting(opts, "mounts"@);
    }
}

proof fn lemma_options_agree(rows: Seq<HostEntryModel>, i: int, k: int)
    requires
        0 <= i <= k < rows.len(),
        options_conflict(rows, i) is None,
    ensures
        options_text(rows[k]) == options_text(rows[first_row(rows, rows[k].backend.text, 0)]),
    decreases k - i,
{
    if i < k {
        lemma_options_agree(rows, i + 1, k);
    }
}

/// Hosts rows that share a backend agree on its connect options, so the one
/// connection that they share is the one each of them asks for.
pub proof fn shared_backends_agree(toks: Seq<Tok>, end: usize, i: int, k: int)
    ensures
        configuration(toks, end) matches Ok(config) ==> 0 <= i < config.host_entries.len() && 0
            <= k < config.host_entries.len() && config.host_entries[i].backend.text
            == config.host_entries[k].backend.text ==> options_text(config.host_entries[i])
            == options_text(config.host_entries[k]),
{
    if let Ok(config) = configuration(toks, end) {
        if 0 <= i < config.host_entries.len() && 0 <= k < config.host_entries.len() {
            lemma_options_agree(config.host_entries, 0, i);
            lemma_options_agree(config.host_entries, 0, k);
        }
    }
}

proof fn lemma_command_unique(mode: Mode, guests: Seq<GuestModel>, i: int, marked: bool)
    requires
        0 <= i,
        command_conflict(mode, guests, i, marked) is None,
    ensures
        forall|k: int|
            i <= k < guests.len() && (#[trigger] guests[k]).command_span is Some ==> mode
                == Mode::Command && !marked,
        forall|j: int, k: int|
            i <= j < k < guests.len() && (#[trigger] guests[j]).command_span is Some ==> (
            #[trigger] guests[k]).command_span is None,
    decreases guests.len() - i,
{
    if i < guests.len() {
        lemma_command_unique(mode, guests, i + 1, marked || guests[i].command_span is Some);
    }
}

/// At most one guest is marked as the command guest, and only where the
/// deployment runs in command mode.
pub proof fn command_guest_is_unique(toks: Seq<Tok>, end: usize, j: int, k: int)
    ensures
        configuration(toks, end) matches Ok(config) ==> 0 <= j < config.manifest.guests.len()
            && config.manifest.guests[j].command_span is Some ==> config.mode == Mode::Command && (0
            <= k < config.manifest.guests.len() && k != j
            ==> config.manifest.guests[k].command_span is None),
{
    if let Ok(config) = configuration(toks, end) {
        lemma_command_unique(config.mode, config.manifest.guests, 0, false);
    }
}

/// A setting is found by its key where there is one, and where keys occur once
/// it is the one.
proof fn lemma_found(opts: Seq<OptModel>, key: Seq<char>)
    ensures
        setting(opts, key) matches Some(o) ==> exists|i: int|
            0 <= i < opts.len() && #[trigger] opts[i] == o && o.name() == key,
        setting(opts, key) is None ==> forall|i: int|
            0 <= i < opts.len() ==> (#[trigger] opts[i]).name() != key,
    decreases opts.len(),
{
    if opts.len() > 0 {
        let before = opts.drop_last();
        lemma_found(before, key);
        if opts.last().name() == key {
            assert(opts[opts.len() - 1] == opts.last());
        } else {
            if let Some(o) = setting(before, key) {
                let i = choose|i: int|
                    0 <= i < before.len() && #[trigger] before[i] == o && o.name() == key;
                assert(opts[i] == o);
            }
            if setting(before, key) is None {
                assert forall|i: int| 0 <= i < opts.len() implies (#[trigger] opts[i]).name()
                    != key by {
                    if i < before.len() {
                        assert(before[i] == opts[i]);
                    }
                }
            }
        }
    }
}

/// Whether no key occurs twice.
pub open spec fn keys_once(opts: Seq<OptModel>) -> bool {
    forall|i: int, k: int|
        0 <= i < k < opts.len() ==> (#[trigger] opts[i]).name() != (#[trigger] opts[k]).name()
}

proof fn lemma_keys_once(opts: Seq<OptModel>)
    ensures
        duplicate(opts) is None <==> keys_once(opts),
    decreases opts.len(),
{
    if opts.len() > 0 {
        let before = opts.drop_last();
        lemma_keys_once(before);
        lemma_found(before, opts.last().name());
        if keys_once(opts) {
            assert forall|i: int, k: int| 0 <= i < k < before.len() implies (
            #[trigger] before[i]).name() != (#[trigger] before[k]).name() by {
                assert(opts[i] == before[i] && opts[k] == before[k]);
            }
            if let Some(o) = setting(before, opts.last().name()) {
                let i = choose|i: int|
                    0 <= i < before.len() && #[trigger] before[i] == o && o.name()
                        == opts.last().name();
                assert(opts[i].name() != opts[opts.len() - 1].name());
            }
        }
        if duplicate(opts) is None {
            assert forall|i: int, k: int| 0 <= i < k < opts.len() implies (
            #[trigger] opts[i]).name() != (#[trigger] opts[k]).name() by {
                assert(before[i] == opts[i]);
                if k < before.len() {
                    assert(before[k] == opts[k]);
                }
            }
        }
    }
}

proof fn lemma_is_setting(opts: Seq<OptModel>, i: int)
    requires
        keys_once(opts),
        0 <= i < opts.len(),
    ensures
        setting(opts, opts[i].name()) == Some(opts[i]),
{
    lemma_found(opts, opts[i].name());
    let o = setting(opts, opts[i].name())->0;
    let k = choose|k: int|
        0 <= k < opts.len() && #[trigger] opts[k] == o && o.name() == opts[i].name();
    if k < i {
        assert(opts[k].name() != opts[i].name());
    } else if i < k {
        assert(opts[i].name() != opts[k].name());
    }
}

/// A configuration is what its settings say: each key occurs once, and what it
/// is set to is what the configuration has for it.
pub proof fn configurations_hold_their_settings(opts: Seq<OptModel>, i: int)
    requires
        0 <= i < opts.len(),
    ensures
        config_of(opts) matches Ok(config) ==> {
            &&& keys_once(opts)
            &&& match opts[i].value {
                OptValueModel::Mode(mode) => config.mode == mode,
                OptValueModel::Hosts(rows) => config.host_entries == rows,
                OptValueModel::Config(file) => config.config_file == Some(file),
                OptValueModel::Link(list) => config.manifest.interfaces == list && list.len() > 0,
                OptValueModel::Plugin(list) => config.manifest.locations == list && (list.len() > 0
                    || config.config_file is Some) && config.link_loader,
                OptValueModel::Guests(list) => config.manifest.guests == list,
                OptValueModel::Mounts(list) => config.manifest.mounts == list,
            }
        },
{
    if config_of(opts) is Ok {
        lemma_keys_once(opts);
        lemma_keys_distinct();
        lemma_is_setting(opts, i);
    }
}

/// What is not set stays out of a configuration: it runs as a server without a
/// mode, and has no hosts, no config file, no interfaces, no loader, no
/// guests and no mounts without the keys for them.
pub proof fn configurations_hold_no_more(opts: Seq<OptModel>)
    ensures
        config_of(opts) matches Ok(config) ==> {
            &&& (forall|i: int| 0 <= i < opts.len() ==> !((#[trigger] opts[i]).value is Mode))
                ==> config.mode == Mode::Server
            &&& (forall|i: int| 0 <= i < opts.len() ==> !((#[trigger] opts[i]).value is Hosts))
                ==> config.host_entries.len() == 0
            &&& (forall|i: int| 0 <= i < opts.len() ==> !((#[trigger] opts[i]).value is Config))
                ==> config.config_file is None
            &&& (forall|i: int| 0 <= i < opts.len() ==> !((#[trigger] opts[i]).value is Link))
                ==> config.manifest.interfaces.len() == 0
            &&& (forall|i: int| 0 <= i < opts.len() ==> !((#[trigger] opts[i]).value is Plugin))
                ==> config.manifest.locations.len() == 0 && !config.link_loader
            &&& (forall|i: int| 0 <= i < opts.len() ==> !((#[trigger] opts[i]).value is Guests))
                ==> config.manifest.guests.len() == 0
            &&& (forall|i: int| 0 <= i < opts.len() ==> !((#[trigger] opts[i]).value is Mounts))
                ==> config.manifest.mounts.len() == 0
        },
{
    lemma_found(opts, "mode"@);
    lemma_found(opts, "hosts"@);
    lemma_found(opts, "config"@);
    lemma_found(opts, "link"@);
    lemma_found(opts, "plugin"@);
    lemma_found(opts, "guests"@);
    lemma_found(opts, "mounts"@);
    lemma_keys_distinct();
}

proof fn lemma_first_row(rows: Seq<HostEntryModel>, backend: Seq<char>, i: int)
    requires
        0 <= i <= rows.len(),
    ensures
        i <= first_row(rows, backend, i) <= rows.len(),
        first_row(rows, backend, i) < rows.len() ==> rows[first_row(
            rows,
            backend,
            i,
        )].backend.text == backend,
        forall|k: int|
            i <= k < first_row(rows, backend, i) ==> (#[trigger] rows[k]).backend.text != backend,
    decreases rows.len() - i,
{
    if i < rows.len() && rows[i].backend.text != backend {
        lemma_first_row(rows, backend, i + 1);
        assert forall|k: int| i <= k < first_row(rows, backend, i) implies (
        #[trigger] rows[k]).backend.text != backend by {
            if k > i {
                assert(i + 1 <= k);
            }
        }
    }
}

/// Whether rows that share a backend have the same connect options.
pub open spec fn rows_agree(rows: Seq<HostEntryModel>) -> bool {
    forall|i: int, k: int|
        0 <= i < rows.len() && 0 <= k < rows.len() && (#[trigger] rows[i]).backend.text == (
        #[trigger] rows[k]).backend.text ==> options_text(rows[i]) == options_text(rows[k])
}

proof fn lemma_rows_accepted(rows: Seq<HostEntryModel>, i: int)
    requires
        0 <= i <= rows.len(),
        rows_agree(rows),
    ensures
        options_conflict(rows, i) is None,
    decreases rows.len() - i,
{
    if i < rows.len() {
        lemma_first_row(rows, rows[i].backend.text, 0);
        lemma_rows_accepted(rows, i + 1);
        let k = first_row(rows, rows[i].backend.text, 0);
        if k > i {
            assert(rows[i].backend.text != rows[i].backend.text);
        }
        assert(rows[k].backend.text == rows[i].backend.text);
    }
}

/// Whether at most one guest is marked as the command guest, and none outside
/// command mode.
pub open spec fn marks_agree(mode: Mode, guests: Seq<GuestModel>) -> bool {
    &&& forall|i: int|
        0 <= i < guests.len() && (#[trigger] guests[i]).command_span is Some ==> mode
            == Mode::Command
    &&& forall|i: int, k: int|
        0 <= i < k < guests.len() && (#[trigger] guests[i]).command_span is Some ==> (
        #[trigger] guests[k]).command_span is None
}

proof fn lemma_marks_accepted(mode: Mode, guests: Seq<GuestModel>, i: int, marked: bool)
    requires
        0 <= i <= guests.len(),
        marks_agree(mode, guests),
        marked ==> exists|j: int| 0 <= j < i && (#[trigger] guests[j]).command_span is Some,
    ensures
        command_conflict(mode, guests, i, marked) is None,
    decreases guests.len() - i,
{
    if i < guests.len() {
        if guests[i].command_span is Some {
            if marked {
                let j = choose|j: int| 0 <= j < i && (#[trigger] guests[j]).command_span is Some;
                assert(guests[i].command_span is None);
            }
            lemma_marks_accepted(mode, guests, i + 1, true);
        } else {
            if marked {
                let j = choose|j: int| 0 <= j < i && (#[trigger] guests[j]).command_span is Some;
                assert(0 <= j < i + 1);
            }
            lemma_marks_accepted(mode, guests, i + 1, marked);
        }
    }
}

proof fn lemma_inline(opts: Seq<OptModel>)
    ensures
        inline_span(opts) is None <==> forall|i: int|
            0 <= i < opts.len() ==> !is_inline(#[trigger] opts[i]),
    decreases opts.len(),
{
    if opts.len() > 0 {
        let before = opts.drop_last();
        lemma_inline(before);
        if forall|i: int| 0 <= i < opts.len() ==> !is_inline(#[trigger] opts[i]) {
            assert forall|i: int| 0 <= i < before.len() implies !is_inline(#[trigger] before[i]) by {
                assert(before[i] == opts[i]);
            }
            assert(!is_inline(opts[opts.len() - 1]));
        }
        if inline_span(opts) is None {
            assert forall|i: int| 0 <= i < opts.len() implies !is_inline(#[trigger] opts[i]) by {
                if i < before.len() {
                    assert(before[i] == opts[i]);
                }
            }
        }
    }
}

/// Settings that agree are accepted: each key once, a `link:` that declares
/// interfaces, a `plugin:` that declares locations or stands beside a config
/// file, no config file beside inline data, one set of connect options for each
/// backend, and at most one command guest, in command mode.
pub proof fn agreeing_settings_are_accepted(opts: Seq<OptModel>)
    requires
        keys_once(opts),
        forall|i: int|
            0 <= i < opts.len() ==> ((#[trigger] opts[i]).value matches OptValueModel::Link(list)
                ==> list.len() > 0),
        forall|i: int|
            0 <= i < opts.len() ==> ((#[trigger] opts[i]).value matches OptValueModel::Plugin(list)
                ==> list.len() > 0 || exists|k: int|
                0 <= k < opts.len() && (#[trigger] opts[k]).value is Config),
        forall|i: int, k: int|
            0 <= i < opts.len() && 0 <= k < opts.len() && (#[trigger] opts[i]).value is Config
                ==> match (#[trigger] opts[k]).value {
                OptValueModel::Link(list) => list.len() == 0,
                OptValueModel::Plugin(list) => list.len() == 0,
                OptValueModel::Guests(_) | OptValueModel::Mounts(_) => false,
                _ => true,
            },
        forall|i: int|
            0 <= i < opts.len() ==> ((#[trigger] opts[i]).value matches OptValueModel::Hosts(rows)
                ==> rows_agree(rows)),
        forall|i: int|
            0 <= i < opts.len() ==> ((#[trigger] opts[i]).value matches OptValueModel::Guests(
                guests,
            ) ==> forall|k: int|
                0 <= k < opts.len() && (#[trigger] opts[k]).value is Mode ==> marks_agree(
                    opts[k].value->Mode_0,
                    guests,
                )),
        forall|i: int|
            0 <= i < opts.len() ==> ((#[trigger] opts[i]).value matches OptValueModel::Guests(
                guests,
            ) ==> (exists|k: int| 0 <= k < opts.len() && (#[trigger] opts[k]).value is Mode)
                || marks_agree(Mode::Server, guests)),
    ensures
        config_of(opts) is Ok,
{
    lemma_keys_once(opts);
    lemma_keys_distinct();
    lemma_inline(opts);
    lemma_found(opts, "mode"@);
    lemma_found(opts, "hosts"@);
    lemma_found(opts, "config"@);
    lemma_found(opts, "link"@);
    lemma_found(opts, "plugin"@);
    lemma_found(opts, "guests"@);
    lemma_found(opts, "mounts"@);
    let config = declared(opts);
    if span_of(opts, "plugin"@) is Some && config.manifest.locations.len() == 0 {
        let k = choose|k: int| 0 <= k < opts.len() && (#[trigger] opts[k]).value is Config;
        lemma_is_setting(opts, k);
    }
    if span_of(opts, "config"@) is Some && inline_span(opts) is Some {
        let o = setting(opts, "config"@)->0;
        let i = choose|i: int|
            0 <= i < opts.len() && #[trigger] opts[i] == o && o.name() == "config"@;
        assert(opts[i].value is Config);
        let k = choose|k: int| 0 <= k < opts.len() && is_inline(#[trigger] opts[k]);
        assert(false);
    }
    assert(rows_agree(config.host_entries));
    lemma_rows_accepted(config.host_entries, 0);
    if setting(opts, "guests"@) is Some {
        let o = setting(opts, "guests"@)->0;
        let i = choose|i: int|
            0 <= i < opts.len() && #[trigger] opts[i] == o && o.name() == "guests"@;
        if setting(opts, "mode"@) is Some {
            let m = setting(opts, "mode"@)->0;
            let k = choose|k: int|
                0 <= k < opts.len() && #[trigger] opts[k] == m && m.name() == "mode"@;
            assert(opts[k].value is Mode);
        } else if exists|k: int| 0 <= k < opts.len() && (#[trigger] opts[k]).value is Mode {
            let k = choose|k: int| 0 <= k < opts.len() && (#[trigger] opts[k]).value is Mode;
            lemma_is_setting(opts, k);
        }
    }
    assert(marks_agree(config.mode, config.manifest.guests));
    lemma_marks_accepted(config.mode, config.manifest.guests, 0, false);
}

/// Whether the hosts row at `pos` is the given one, and the next begins at
/// `next`.
pub open spec fn row_at(
    toks: Seq<Tok>,
    end: usize,
    pos: int,
    next: int,
    item: HostEntryModel,
) -> bool {
    host_entry(toks, end, pos) matches Ok((read, behind)) && read == item && crate::macros::cursor::next_item(
        toks,
        end,
        behind,
    ) == Ok::<int, FaultModel>(next)
}

/// A list of hosts rows gives, behind those read before, the row at each place,
/// one after the other, to the end.
pub proof fn rows_are_read_in_order(
    toks: Seq<Tok>,
    end: usize,
    pos: int,
    read: Seq<HostEntryModel>,
    list: Seq<HostEntryModel>,
) -> (starts: Seq<int>)
    requires
        0 <= pos,
        host_list(toks, end, pos, read) == Ok::<Seq<HostEntryModel>, FaultModel>(list),
    ensures
        list.len() >= read.len(),
        list.subrange(0, read.len() as int) == read,
        starts.len() == list.len() - read.len() + 1,
        starts[0] == pos,
        starts.last() >= toks.len() || (starts.len() > 1 && starts.last()
            <= starts[starts.len() - 2]),
        forall|k: int|
            #![trigger list[read.len() + k]]
            0 <= k < list.len() - read.len() ==> row_at(
                toks,
                end,
                starts[k],
                starts[k + 1],
                list[read.len() + k],
            ),
    decreases toks.len() - pos,
{
    if pos >= toks.len() {
        assert(list.subrange(0, read.len() as int) =~= read);
        seq![pos]
    } else {
        let (item, next) = host_entry(toks, end, pos)->Ok_0;
        let p = crate::macros::cursor::next_item(toks, end, next)->Ok_0;
        if pos < p <= toks.len() {
            let rest = rows_are_read_in_order(toks, end, p, read.push(item), list);
            let starts = seq![pos] + rest;
            assert(starts.last() == rest.last());
            if rest.len() > 1 {
                assert(starts[starts.len() - 2] == rest[rest.len() - 2]);
            }
            assert(list.subrange(0, read.len() as int) =~= list.subrange(
                0,
                read.len() as int + 1,
            ).drop_last());
            assert(read.push(item).drop_last() =~= read);
            assert(list[read.len() as int] == list.subrange(
                0,
                read.len() as int + 1,
            )[read.len() as int]);
            assert forall|k: int|
                #![trigger list[read.len() + k]]
                0 <= k < list.len() - read.len() implies row_at(
                toks,
                end,
                starts[k],
                starts[k + 1],
                list[read.len() + k],
            ) by {
                if k > 0 {
                    assert(starts[k] == rest[k - 1] && starts[k + 1] == rest[k]);
                    assert(list[read.push(item).len() + (k - 1)] == list[read.len() + k]);
                } else {
                    assert(starts[0] == pos && starts[1] == p);
                }
            }
            starts
        } else {
            assert(list.subrange(0, read.len() as int) =~= read);
            seq![pos, p]
        }
    }
}

/// Whether the setting at `pos` is the given one, and the next begins at `next`.
pub open spec fn setting_at(
    toks: Seq<Tok>,
    end: usize,
    pos: int,
    next: int,
    item: OptModel,
) -> bool {
    opt(toks, end, pos) matches Ok((read, behind)) && read == item && crate::macros::cursor::next_item(
        toks,
        end,
        behind,
    ) == Ok::<int, FaultModel>(next)
}

/// A list of settings gives, behind those read before, the setting at each
/// place, one after the other, to the end.
#[verifier::rlimit(60)]
#[verifier::spinoff_prover]
pub proof fn settings_are_read_in_order(
    toks: Seq<Tok>,
    end: usize,
    pos: int,
    read: Seq<OptModel>,
    list: Seq<OptModel>,
) -> (starts: Seq<int>)
    requires
        0 <= pos,
        settings(toks, end, pos, read) == Ok::<Seq<OptModel>, FaultModel>(list),
    ensures
        list.len() >= read.len(),
        list.subrange(0, read.len() as int) == read,
        starts.len() == list.len() - read.len() + 1,
        starts[0] == pos,
        starts.last() >= toks.len() || (starts.len() > 1 && starts.last()
            <= starts[starts.len() - 2]),
        forall|k: int|
            #![trigger list[read.len() + k]]
            0 <= k < list.len() - read.len() ==> setting_at(
                toks,
                end,
                starts[k],
                starts[k + 1],
                list[read.len() + k],
            ),
    decreases toks.len() - pos,
{
    if pos >= toks.len() {
        assert(list.subrange(0, read.len() as int) =~= read);
        seq![pos]
    } else {
        let (item, next) = opt(toks, end, pos)->Ok_0;
        let p = crate::macros::cursor::next_item(toks, end, next)->Ok_0;
        if pos < p <= toks.len() {
            let rest = settings_are_read_in_order(toks, end, p, read.push(item), list);
            let starts = seq![pos] + rest;
            assert(starts.last() == rest.last());
            if rest.len() > 1 {
                assert(starts[starts.len() - 2] == rest[rest.len() - 2]);
            }
            assert(list.subrange(0, read.len() as int) =~= list.subrange(
                0,
                read.len() as int + 1,
            ).drop_last());
            assert(read.push(item).drop_last() =~= read);
            assert(list[read.len() as int] == list.subrange(
                0,
                read.len() as int + 1,
            )[read.len() as int]);
            assert forall|k: int|
                #![trigger list[read.len() + k]]
                0 <= k < list.len() - read.len() implies setting_at(
                toks,
                end,
                starts[k],
                starts[k + 1],
                list[read.len() + k],
            ) by {
                if k > 0 {
                    assert(starts[k] == rest[k - 1] && starts[k + 1] == rest[k]);
                    assert(list[read.push(item).len() + (k - 1)] == list[read.len() + k]);
                } else {
                    assert(starts[0] == pos && starts[1] == p);
                }
            }
            starts
        } else {
            assert(list.subrange(0, read.len() as int) =~= read);
            seq![pos, p]
        }
    }
}

/// A setting is that of the word which stands at its place, before a colon, and
/// is marked there; only `plugins` stands for another word.
#[verifier::rlimit(60)]
#[verifier::spinoff_prover]
pub proof fn settings_are_of_their_key(toks: Seq<Tok>, end: usize, pos: int)
    ensures
        opt(toks, end, pos) matches Ok((read, next)) ==> {
            &&& 0 <= pos < toks.len()
            &&& toks[pos].kind is Ident
            &&& read.span == toks[pos].at
            &&& crate::macros::cursor::is_punct(toks, pos + 1, ':')
            &&& read.name() == toks[pos].kind->Ident_0@ || (read.name() == "plugin"@
                && toks[pos].kind->Ident_0@ == "plugins"@)
        },
{
    reveal_strlit("mode");
    reveal_strlit("hosts");
    reveal_strlit("config");
    reveal_strlit("link");
    reveal_strlit("plugin");
    reveal_strlit("guests");
    reveal_strlit("mounts");
    if opt(toks, end, pos) is Ok {
        let key = key_word(toks, pos);
        assert(is_key(key));
        let p = crate::macros::cursor::behind_punct(toks, end, pos + 1, ':')->Ok_0;
        let v = opt_value(key, toks[pos].at, toks, end, p)->Ok_0.0;
        let read = opt(toks, end, pos)->Ok_0.0;
        assert(read.value == v);
    }
}

/// The mode is the one that is spelled out, and no other word is a mode.
pub proof fn modes_are_spelled_out(toks: Seq<Tok>, end: usize, pos: int)
    ensures
        mode_word(toks, end, pos) matches Ok(mode) ==> (mode == Mode::Server
            <==> crate::macros::cursor::is_word(toks, pos, "server"@)) && (mode == Mode::Command
            <==> crate::macros::cursor::is_word(toks, pos, "command"@)),
        crate::macros::cursor::ident(toks, end, pos) is Ok && (crate::macros::cursor::is_word(
            toks,
            pos,
            "server"@,
        ) || crate::macros::cursor::is_word(toks, pos, "command"@)) ==> mode_word(toks, end, pos)
            is Ok,
{
    reveal_strlit("server");
    reveal_strlit("command");
    assert("server"@.len() == 6 && "command"@.len() == 7);
}

/// A row names its host, a colon and its backend, and has options exactly where
/// parentheses follow, which hold one expression and nothing else.
pub proof fn rows_are_what_stands_there(toks: Seq<Tok>, end: usize, pos: int)
    ensures
        host_entry(toks, end, pos) matches Ok((row, next)) ==> {
            let host = crate::macros::cursor::path(toks, end, pos);
            let colon = host->Ok_0.1;
            let backend = crate::macros::cursor::path(toks, end, colon + 1);
            let behind = backend->Ok_0.1;
            &&& host is Ok && row.host == host->Ok_0.0
            &&& crate::macros::cursor::is_punct(toks, colon, ':')
            &&& backend is Ok && row.backend == backend->Ok_0.0
            &&& row.options is Some <==> crate::macros::cursor::is_group(
                toks,
                behind,
                Delim::Paren,
            )
            &&& row.options is None ==> next == behind
            &&& row.options matches Some(e) ==> next == behind + 1 && ({
                let args = crate::macros::cursor::body(toks, behind);
                &&& args.len() > 0
                &&& crate::macros::cursor::expr(args, toks[behind].close, 0) matches Ok((only, n))
                    && only == e && n >= args.len()
            })
        },
{
}

proof fn lemma_setting_there(opts: Seq<OptModel>, key: Seq<char>)
    ensures
        setting(opts, key) is Some <==> exists|i: int|
            0 <= i < opts.len() && (#[trigger] opts[i]).name() == key,
    decreases opts.len(),
{
    if opts.len() > 0 {
        let before = opts.drop_last();
        lemma_setting_there(before, key);
        if exists|i: int| 0 <= i < opts.len() && (#[trigger] opts[i]).name() == key {
            let i = choose|i: int| 0 <= i < opts.len() && (#[trigger] opts[i]).name() == key;
            if i < before.len() {
                assert(before[i].name() == key);
            }
        }
        if exists|i: int| 0 <= i < before.len() && (#[trigger] before[i]).name() == key {
            let i = choose|i: int| 0 <= i < before.len() && (#[trigger] before[i]).name() == key;
            assert(opts[i].name() == key);
        }
        if opts.last().name() == key {
            assert(opts[opts.len() - 1].name() == key);
        }
    }
}

/// Whether the setting at `k` repeats the key of one before it.
pub open spec fn repeats(opts: Seq<OptModel>, k: int) -> bool {
    0 <= k < opts.len() && exists|i: int|
        0 <= i < k && (#[trigger] opts[i]).name() == opts[k].name()
}

/// A repeated key is refused where it is first repeated, and by its name; and
/// nothing is refused as repeated that is not.
pub proof fn repeated_keys_are_refused(opts: Seq<OptModel>)
    ensures
        match duplicate(opts) {
            None => forall|k: int| !#[trigger] repeats(opts, k),
            Some(f) => exists|k: int|
                #[trigger] repeats(opts, k) && f.at == opts[k].span && crate::text::holds(
                    f.message,
                    opts[k].name(),
                ) && forall|j: int| j < k ==> !#[trigger] repeats(opts, j),
        },
    decreases opts.len(),
{
    if opts.len() > 0 {
        let before = opts.drop_last();
        let last = opts.len() - 1;
        repeated_keys_are_refused(before);
        assert forall|k: int| k < last implies repeats(before, k) == #[trigger] repeats(
            opts,
            k,
        ) by {
            if repeats(opts, k) {
                let i = choose|i: int| 0 <= i < k && (#[trigger] opts[i]).name() == opts[k].name();
                assert(before[i].name() == before[k].name());
            }
            if repeats(before, k) {
                let i = choose|i: int|
                    0 <= i < k && (#[trigger] before[i]).name() == before[k].name();
                assert(opts[i].name() == opts[k].name());
            }
        }
        lemma_setting_there(before, opts[last].name());
        crate::text::holding_goes_on(opts[last].name());
        match duplicate(before) {
            Some(f) => {
                let k = choose|k: int|
                    #[trigger] repeats(before, k) && f.at == before[k].span && crate::text::holds(
                        f.message,
                        before[k].name(),
                    ) && forall|j: int| j < k ==> !#[trigger] repeats(before, j);
                assert(repeats(opts, k));
                assert forall|j: int| j < k implies !#[trigger] repeats(opts, j) by {
                    assert(!repeats(before, j));
                }
            },
            None => {
                assert forall|j: int| j < last implies !#[trigger] repeats(opts, j) by {
                    assert(!repeats(before, j));
                }
                if setting(before, opts[last].name()) is Some {
                    let i = choose|i: int|
                        0 <= i < before.len() && (#[trigger] before[i]).name() == opts[last].name();
                    assert(opts[i].name() == opts[last].name());
                    assert(repeats(opts, last));
                } else {
                    assert(!repeats(opts, last)) by {
                        if repeats(opts, last) {
                            let i = choose|i: int|
                                0 <= i < last && (#[trigger] opts[i]).name() == opts[last].name();
                            assert(before[i].name() == opts[last].name());
                        }
                    }
                    assert forall|j: int| !#[trigger] repeats(opts, j) by {
                        if j < last {
                            assert(!repeats(before, j));
                        }
                    }
                }
            },
        }
    }
}

/// The mark of inline manifest data is that of the first setting which declares
/// any, and there is none exactly where none does.
pub proof fn inline_data_is_marked_where_it_begins(opts: Seq<OptModel>)
    ensures
        match inline_span(opts) {
            None => forall|i: int| 0 <= i < opts.len() ==> !is_inline(#[trigger] opts[i]),
            Some(at) => exists|i: int|
                0 <= i < opts.len() && is_inline(#[trigger] opts[i]) && at == opts[i].span
                    && forall|j: int| 0 <= j < i ==> !is_inline(#[trigger] opts[j]),
        },
    decreases opts.len(),
{
    if opts.len() > 0 {
        let before = opts.drop_last();
        let last = opts.len() - 1;
        inline_data_is_marked_where_it_begins(before);
        assert(forall|i: int| 0 <= i < last ==> before[i] == opts[i]);
        match inline_span(before) {
            Some(at) => {
                let i = choose|i: int|
                    0 <= i < before.len() && is_inline(#[trigger] before[i]) && at
                        == before[i].span && forall|j: int|
                        0 <= j < i ==> !is_inline(#[trigger] before[j]);
                assert(is_inline(opts[i]) && at == opts[i].span);
                assert forall|j: int| 0 <= j < i implies !is_inline(#[trigger] opts[j]) by {
                    assert(!is_inline(before[j]));
                }
            },
            None => {
                assert forall|j: int| 0 <= j < last implies !is_inline(#[trigger] opts[j]) by {
                    assert(!is_inline(before[j]));
                }
                if is_inline(opts[last]) {
                    assert(opts[last].span == inline_span(opts)->0);
                }
            },
        }
    }
}

/// Options that disagree are refused where a row has them, or at the backend of
/// a row that has none: a row that differs from the first with its backend.
pub proof fn options_are_refused_where_they_differ(rows: Seq<HostEntryModel>, i: int)
    requires
        0 <= i <= rows.len(),
    ensures
        options_conflict(rows, i) matches Some(f) ==> exists|k: int|
            #![trigger rows[k]]
            i <= k < rows.len() && options_text(rows[k]) != options_text(
                rows[first_row(rows, rows[k].backend.text, 0)],
            ) && f.at == (match rows[k].options {
                Some(e) => e.at,
                None => rows[k].backend.at,
            }),
    decreases rows.len() - i,
{
    if i < rows.len() {
        options_are_refused_where_they_differ(rows, i + 1);
        if options_text(rows[i]) == options_text(
            rows[first_row(rows, rows[i].backend.text, 0)],
        ) {
            if options_conflict(rows, i) is Some {
                let f = options_conflict(rows, i)->0;
                let k = choose|k: int|
                    #![trigger rows[k]]
                    i + 1 <= k < rows.len() && options_text(rows[k]) != options_text(
                        rows[first_row(rows, rows[k].backend.text, 0)],
                    ) && f.at == (match rows[k].options {
                        Some(e) => e.at,
                        None => rows[k].backend.at,
                    });
                assert(i <= k < rows.len());
            }
        }
    }
}

/// A mark as the command guest is refused where it stands.
pub proof fn marks_are_refused_where_they_stand(
    mode: Mode,
    guests: Seq<GuestModel>,
    i: int,
    marked: bool,
)
    requires
        0 <= i <= guests.len(),
    ensures
        command_conflict(mode, guests, i, marked) matches Some(f) ==> exists|k: int|
            i <= k < guests.len() && (#[trigger] guests[k]).command_span == Some(f.at),
    decreases guests.len() - i,
{
    if i < guests.len() {
        marks_are_refused_where_they_stand(mode, guests, i + 1, marked);
        marks_are_refused_where_they_stand(mode, guests, i + 1, true);
        if command_conflict(mode, guests, i, marked) is Some {
            let f = command_conflict(mode, guests, i, marked)->0;
            if guests[i].command_span != Some(f.at) {
                let k = choose|k: int|
                    i + 1 <= k < guests.len() && (#[trigger] guests[k]).command_span == Some(f.at);
                assert(i <= k < guests.len());
            } else {
                assert(guests[i].command_span == Some(f.at));
            }
        }
    }
}

} // verus!
