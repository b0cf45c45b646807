//! The source text that a `runtime!` configuration expands to.

use crate::macros::block::{
    guest_models, location_models, mount_models, GuestModel, GuestSpec, LocationModel,
    LocationSpec, MountModel, MountSpec, RoutesModel,
};
use crate::macros::cursor::{source_models, Source, SourceModel};
use crate::macros::parse::{
    host_models, Config, ConfigModel, HostEntry, HostEntryModel, ManifestModel, ManifestSpec, Mode,
};
use crate::macros::token::path_last_segment;
use crate::text::str_eq;
use vstd::prelude::*;
use vstd::string::StringExecFns;

verus! {

/// Whether a character is uppercase, for `char::is_uppercase`.
pub uninterp spec fn upper(c: char) -> bool;

/// The lowercase of a character, for `char::to_lowercase`.
pub uninterp spec fn lower(c: char) -> Seq<char>;

/// `char::is_uppercase`. Of the ASCII characters, the letters from `A` to `Z`
/// are uppercase; of the others the answer is Unicode's and only named.
#[verifier::external_body]
fn is_upper(c: char) -> (r: bool)
    ensures
        r == upper(c),
        c < '\u{80}' ==> r == ('A' <= c <= 'Z'),
{
    c.is_uppercase()
}

/// `char::to_lowercase`, collected. The letters from `A` to `Z` map to those
/// from `a` to `z`; of the others the answer is Unicode's and only named.
#[verifier::external_body]
fn lowercase(c: char) -> (r: String)
    ensures
        r@ == lower(c),
        'A' <= c <= 'Z' ==> r@ == seq![((c as u32) + 32) as char],
{
    c.to_lowercase().collect()
}

/// The texts that `f` gives of the items, one behind the other.
pub open spec fn each<M>(items: Seq<M>, f: spec_fn(M) -> Seq<char>) -> Seq<char>
    decreases items.len(),
{
    if items.len() == 0 {
        Seq::empty()
    } else {
        each(items.drop_last(), f) + f(items.last())
    }
}

/// Emit the texts of the items, one behind the other.
fn emit_each<M, T: View<V = M>, F: Fn(&T) -> String>(
    items: &Vec<T>,
    f: F,
    g: Ghost<spec_fn(M) -> Seq<char>>,
) -> (text: String)
    requires
        forall|i: int| 0 <= i < items@.len() ==> call_requires(f, (&#[trigger] items@[i],)),
        forall|x: &T, s: String| #[trigger] call_ensures(f, (x,), s) ==> s@ == g@(x@),
    ensures
        text@ == each(items@.map_values(|x: T| x@), g@),
{
    let ghost models = items@.map_values(|x: T| x@);
    let mut text = String::new();
    let mut i: usize = 0;
    assert(text@ =~= each(models.take(0), g@));
    while i < items.len()
        invariant
            i <= items@.len(),
            models == items@.map_values(|x: T| x@),
            forall|k: int| 0 <= k < items@.len() ==> call_requires(f, (&#[trigger] items@[k],)),
            forall|x: &T, s: String| #[trigger] call_ensures(f, (x,), s) ==> s@ == g@(x@),
            text@ == each(models.take(i as int), g@),
        decreases items@.len() - i,
    {
        let piece = f(&items[i]);
        proof {
            assert(models.take(i + 1).drop_last() =~= models.take(i as int));
            assert(models.take(i + 1).last() == items@[i as int]@);
        }
        text.append(piece.as_str());
        i = i + 1;
    }
    assert(models.take(i as int) =~= models);
    text
}

impl Mode {
    pub open spec fn path(self) -> Seq<char> {
        match self {
            Mode::Server => "omnia::Mode::Server"@,
            Mode::Command => "omnia::Mode::Command"@,
        }
    }

    /// The `omnia::Mode` path this mode expands to.
    pub fn tokens(self) -> (path: &'static str)
        ensures
            path@ == self.path(),
    {
        match self {
            Mode::Server => "omnia::Mode::Server",
            Mode::Command => "omnia::Mode::Command",
        }
    }
}

/// The `Provides` key for a `hosts:` row: the host type itself, save that the
/// row of `WasiHttp`, whose view trait is foreign, is keyed by the core-owned
/// carrier `HttpCtx`.
pub open spec fn ctx(host: Seq<char>) -> Seq<char> {
    if crate::macros::token::last_segment(host) == Some("WasiHttp"@) {
        "omnia::HttpCtx"@
    } else {
        host
    }
}

/// The `Provides` key for a `hosts:` row.
pub fn ctx_key(host: &str) -> (key: String)
    ensures
        key@ == ctx(host@),
{
    if let Some(name) = path_last_segment(host) {
        if str_eq(name.as_str(), "WasiHttp") {
            return String::from_str("omnia::HttpCtx");
        }
    }
    String::from_str(host)
}

/// A name in snake case: an underscore before each uppercase character but at
/// the start, every one in lowercase.
pub open spec fn snake(name: Seq<char>) -> Seq<char>
    decreases name.len(),
{
    if name.len() == 0 {
        Seq::empty()
    } else {
        let before = snake(name.drop_last());
        if upper(name.last()) {
            (if before.len() > 0 {
                before.push('_')
            } else {
                before
            }) + lower(name.last())
        } else {
            before.push(name.last())
        }
    }
}

/// The bundle field of a backend: the last segment of its path in snake case.
pub open spec fn field(backend: Seq<char>) -> Seq<char> {
    match crate::macros::token::last_segment(backend) {
        Some(name) => snake(name),
        None => "field"@,
    }
}

/// A name in snake case.
pub fn snake_case(name: &str) -> (r: String)
    ensures
        r@ == snake(name@),
{
    let mut r = String::new();
    let chars = crate::text::chars_of(name);
    let mut i: usize = 0;
    assert(r@ =~= snake(name@.take(0)));
    while i < chars.len()
        invariant
            i <= chars@.len(),
            chars@ == name@,
            r@ == snake(name@.take(i as int)),
        decreases chars@.len() - i,
    {
        let c = chars[i];
        proof {
            assert(name@.take(i + 1).drop_last() =~= name@.take(i as int));
            assert(name@.take(i + 1).last() == c);
        }
        if is_upper(c) {
            if !r.as_str().is_empty() {
                r.push('_');
            }
            r.append(lowercase(c).as_str());
        } else {
            r.push(c);
        }
        i = i + 1;
    }
    assert(name@.take(i as int) =~= name@);
    r
}

/// The bundle field of a backend.
pub fn field_ident(path: &str) -> (r: String)
    ensures
        r@ == field(path@),
{
    match path_last_segment(path) {
        Some(name) => snake_case(name.as_str()),
        None => String::from_str("field"),
    }
}

/// Whether a row has the backend.
pub open spec fn has_backend(rows: Seq<HostEntryModel>, backend: Seq<char>) -> bool {
    exists|i: int| 0 <= i < rows.len() && (#[trigger] rows[i]).backend.text == backend
}

/// The first row of each backend, in order.
pub open spec fn backends(rows: Seq<HostEntryModel>) -> Seq<HostEntryModel>
    decreases rows.len(),
{
    if rows.len() == 0 {
        Seq::empty()
    } else if has_backend(rows.drop_last(), rows.last().backend.text) {
        backends(rows.drop_last())
    } else {
        backends(rows.drop_last()).push(rows.last())
    }
}

fn copy_entry(entry: &HostEntry) -> (r: HostEntry)
    ensures
        r@ == entry@,
{
    HostEntry {
        host: entry.host.copy(),
        backend: entry.backend.copy(),
        options: match &entry.options {
            Some(e) => Some(e.copy()),
            None => None,
        },
    }
}

/// The first row of each backend, in order.
fn distinct_backends(rows: &Vec<HostEntry>) -> (r: Vec<HostEntry>)
    ensures
        host_models(r@) == backends(host_models(rows@)),
{
    let ghost models = host_models(rows@);
    let mut r: Vec<HostEntry> = Vec::new();
    let mut i: usize = 0;
    assert(host_models(r@) =~= backends(models.take(0)));
    while i < rows.len()
        invariant
            i <= rows@.len(),
            models == host_models(rows@),
            host_models(r@) == backends(models.take(i as int)),
        decreases rows@.len() - i,
    {
        proof {
            assert(models.take(i + 1).drop_last() =~= models.take(i as int));
            assert(models.take(i + 1).last() == rows@[i as int]@);
        }
        if !backend_before(rows, i) {
            let ghost before = r@;
            let row = copy_entry(&rows[i]);
            let ghost model = row@;
            r.push(row);
            assert(host_models(r@) =~= host_models(before).push(model));
        }
        i = i + 1;
    }
    assert(models.take(i as int) =~= models);
    r
}

fn backend_before(rows: &Vec<HostEntry>, n: usize) -> (r: bool)
    requires
        n < rows@.len(),
    ensures
        r == has_backend(
            host_models(rows@).take(n as int),
            rows@[n as int].backend.text@,
        ),
{
    let ghost before = host_models(rows@).take(n as int);
    let mut i: usize = 0;
    while i < n
        invariant
            i <= n < rows@.len(),
            before == host_models(rows@).take(n as int),
            forall|k: int|
                0 <= k < i ==> (#[trigger] before[k]).backend.text != rows@[n as int].backend.text@,
        decreases n - i,
    {
        if str_eq(rows[i].backend.text.as_str(), rows[n].backend.text.as_str()) {
            assert(before[i as int].backend.text == rows@[n as int].backend.text@);
            return true;
        }
        i = i + 1;
    }
    false
}

/// A field of the bundle.
pub open spec fn field_line(row: HostEntryModel) -> Seq<char> {
    field(row.backend.text) + ": "@ + row.backend.text + ",\n"@
}

/// A field's name in a list of them.
pub open spec fn field_item(row: HostEntryModel) -> Seq<char> {
    field(row.backend.text) + ", "@
}

/// How a backend connects: with the options compiled in, or from the
/// environment.
pub open spec fn connect_line(row: HostEntryModel) -> Seq<char> {
    match row.options {
        Some(e) => "<"@ + row.backend.text + " as Backend>::connect_with("@ + e.text + "),\n"@,
        None => "<"@ + row.backend.text + " as Backend>::connect(),\n"@,
    }
}

/// The accessor of a hosts row on the bundle.
pub open spec fn host_impl_text(row: HostEntryModel) -> Seq<char> {
    "impl omnia::Provides<"@ + ctx(row.host.text)
        + "> for Backends {\n    fn borrow(&mut self) -> <"@ + ctx(row.host.text)
        + " as omnia::HostCtx>::Borrow<'_> {\n        &mut self."@ + field(row.backend.text)
        + "\n    }\n}\n"@
}

/// The type of the bundle.
pub open spec fn backends_type(rows: Seq<HostEntryModel>) -> Seq<char> {
    if rows.len() == 0 {
        "()"@
    } else {
        "Backends"@
    }
}

/// The definition of the bundle: one field for each backend, connected
/// together, and one accessor for each row.
pub open spec fn backends_text(rows: Seq<HostEntryModel>) -> Seq<char> {
    if rows.len() == 0 {
        Seq::empty()
    } else {
        "use omnia::Backend;\n\n#[derive(Clone)]\nstruct Backends {\n"@ + each(
            backends(rows),
            |r: HostEntryModel| field_line(r),
        )
            + "}\n\nimpl omnia::Backends for Backends {\n    async fn connect() -> Result<Self> {\n        let ("@
            + each(backends(rows), |r: HostEntryModel| field_item(r))
            + ") = tokio::try_join!(\n"@ + each(
            backends(rows),
            |r: HostEntryModel| connect_line(r),
        ) + ")?;\n        Ok(Self { "@ + each(
            backends(rows),
            |r: HostEntryModel| field_item(r),
        ) + "})\n    }\n}\n\n"@ + each(rows, |r: HostEntryModel| host_impl_text(r))
    }
}

/// One uniform bundle-accessor impl per `hosts:` row. The borrow shape rides
/// the carrier's `HostCtx::Borrow`.
pub fn host_impl(host: &str, backend: &str) -> (text: String)
    ensures
        forall|row: HostEntryModel|
            row.host.text == host@ && row.backend.text == backend@ ==> text@
                == #[trigger] host_impl_text(row),
{
    let key = ctx_key(host);
    let name = field_ident(backend);
    let mut text = String::from_str("impl omnia::Provides<");
    text.append(key.as_str());
    text.append("> for Backends {\n    fn borrow(&mut self) -> <");
    text.append(key.as_str());
    text.append(" as omnia::HostCtx>::Borrow<'_> {\n        &mut self.");
    text.append(name.as_str());
    text.append("\n    }\n}\n");
    text
}

fn emit_host_impl(row: &HostEntry) -> (s: String)
    ensures
        s@ == host_impl_text(row@),
{
    host_impl(row.host.text.as_str(), row.backend.text.as_str())
}

fn emit_field(row: &HostEntry) -> (s: String)
    ensures
        s@ == field_line(row@),
{
    let mut s = field_ident(row.backend.text.as_str());
    s.append(": ");
    s.append(row.backend.text.as_str());
    s.append(",\n");
    s
}

fn emit_field_name(row: &HostEntry) -> (s: String)
    ensures
        s@ == field_item(row@),
{
    let mut s = field_ident(row.backend.text.as_str());
    s.append(", ");
    s
}

fn emit_connect(row: &HostEntry) -> (s: String)
    ensures
        s@ == connect_line(row@),
{
    let mut s = String::from_str("<");
    s.append(row.backend.text.as_str());
    match &row.options {
        Some(e) => {
            s.append(" as Backend>::connect_with(");
            s.append(e.text.as_str());
            s.append("),\n");
        },
        None => {
            s.append(" as Backend>::connect(),\n");
        },
    }
    s
}

/// The bundle of backends: its type and its definition.
///
/// A backend shared by several rows, adjacent or not, is one field and one
/// connection; rows sharing a backend agree on its connect options, so the
/// first row's stand for it.
pub fn emit_backends(host_entries: &Vec<HostEntry>) -> (r: (String, String))
    ensures
        r.0@ == backends_type(host_models(host_entries@)),
        r.1@ == backends_text(host_models(host_entries@)),
{
    if host_entries.len() == 0 {
        return (String::from_str("()"), String::new());
    }
    let distinct = distinct_backends(host_entries);
    let fields = emit_each(&distinct, emit_field, Ghost(|r: HostEntryModel| field_line(r)));
    let names = emit_each(&distinct, emit_field_name, Ghost(|r: HostEntryModel| field_item(r)));
    let connects = emit_each(&distinct, emit_connect, Ghost(|r: HostEntryModel| connect_line(r)));
    let impls = emit_each(host_entries, emit_host_impl, Ghost(|r: HostEntryModel| host_impl_text(r)));
    proof {
        assert(distinct@.map_values(|x: HostEntry| x@) =~= host_models(distinct@));
        assert(host_entries@.map_values(|x: HostEntry| x@) =~= host_models(host_entries@));
    }
    let mut text = String::from_str("use omnia::Backend;\n\n#[derive(Clone)]\nstruct Backends {\n");
    text.append(fields.as_str());
    text.append(
        "}\n\nimpl omnia::Backends for Backends {\n    async fn connect() -> Result<Self> {\n        let (",
    );
    text.append(names.as_str());
    text.append(") = tokio::try_join!(\n");
    text.append(connects.as_str());
    text.append(")?;\n        Ok(Self { ");
    text.append(names.as_str());
    text.append("})\n    }\n}\n\n");
    text.append(impls.as_str());
    (String::from_str("Backends"), text)
}

/// The registration of an interface.
pub open spec fn interface_text(interface: SourceModel) -> Seq<char> {
    "\n.link(["@ + interface.text + "])"@
}

/// The registration of a location.
pub open spec fn location_text(location: LocationModel) -> Seq<char> {
    match location {
        LocationModel::Path { name, path } => "\n.locations([omnia::Location::path("@ + name.text
            + ", "@ + path.text + ")])"@,
        LocationModel::Registry(endpoint) => "\n.locations([omnia::Location::registry("@
            + endpoint.text + ")])"@,
    }
}

/// A route pattern for HTTP requests.
pub open spec fn http_text(pattern: SourceModel) -> Seq<char> {
    ".route_http("@ + pattern.text + ")"@
}

/// A route pattern for messages.
pub open spec fn messaging_text(pattern: SourceModel) -> Seq<char> {
    ".route_messaging("@ + pattern.text + ")"@
}

/// A route pattern for websocket events.
pub open spec fn websocket_text(pattern: SourceModel) -> Seq<char> {
    ".route_websocket("@ + pattern.text + ")"@
}

/// The registration of a guest, with its routes.
pub open spec fn guest_text(guest: GuestModel) -> Seq<char> {
    "\n.guest(omnia::GuestEntry::new("@ + guest.id.text + ", "@ + guest.source.text + ")"@ + each(
        guest.routes.http,
        |p: SourceModel| http_text(p),
    ) + each(guest.routes.messaging, |p: SourceModel| messaging_text(p)) + each(
        guest.routes.websocket,
        |p: SourceModel| websocket_text(p),
    ) + (if guest.command {
        ".command()"@
    } else {
        ""@
    }) + ")"@
}

/// The registration of a mount, read-only unless said otherwise.
pub open spec fn mount_text(mount: MountModel) -> Seq<char> {
    "\n.mounts([omnia::Mount { name: ::std::string::String::from("@ + mount.name.text
        + "), path: ::std::path::PathBuf::from("@ + mount.path.text + "), writable: "@ + (
    match mount.writable {
        Some(e) => e.text,
        None => "false"@,
    }) + " }])"@
}

/// The fluent builder chain of the inline keys.
pub open spec fn builder_text(manifest: ManifestModel) -> Seq<char> {
    "omnia::Manifest::new()"@ + each(manifest.interfaces, |i: SourceModel| interface_text(i))
        + each(manifest.locations, |l: LocationModel| location_text(l)) + each(
        manifest.guests,
        |g: GuestModel| guest_text(g),
    ) + each(manifest.mounts, |m: MountModel| mount_text(m))
}

fn emit_interface(interface: &Source) -> (s: String)
    ensures
        s@ == interface_text(interface@),
{
    let mut s = String::from_str("\n.link([");
    s.append(interface.text.as_str());
    s.append("])");
    s
}

fn emit_location(location: &LocationSpec) -> (s: String)
    ensures
        s@ == location_text(location@),
{
    match location {
        LocationSpec::Path { name, path } => {
            let mut s = String::from_str("\n.locations([omnia::Location::path(");
            s.append(name.text.as_str());
            s.append(", ");
            s.append(path.text.as_str());
            s.append(")])");
            s
        },
        LocationSpec::Registry(endpoint) => {
            let mut s = String::from_str("\n.locations([omnia::Location::registry(");
            s.append(endpoint.text.as_str());
            s.append(")])");
            s
        },
    }
}

fn emit_http(pattern: &Source) -> (s: String)
    ensures
        s@ == http_text(pattern@),
{
    let mut s = String::from_str(".route_http(");
    s.append(pattern.text.as_str());
    s.append(")");
    s
}

fn emit_messaging(pattern: &Source) -> (s: String)
    ensures
        s@ == messaging_text(pattern@),
{
    let mut s = String::from_str(".route_messaging(");
    s.append(pattern.text.as_str());
    s.append(")");
    s
}

fn emit_websocket(pattern: &Source) -> (s: String)
    ensures
        s@ == websocket_text(pattern@),
{
    let mut s = String::from_str(".route_websocket(");
    s.append(pattern.text.as_str());
    s.append(")");
    s
}

fn emit_guest(guest: &GuestSpec) -> (s: String)
    ensures
        s@ == guest_text(guest@),
{
    let routes = &guest.routes;
    let http = emit_each(&routes.http, emit_http, Ghost(|p: SourceModel| http_text(p)));
    let messaging = emit_each(
        &routes.messaging,
        emit_messaging,
        Ghost(|p: SourceModel| messaging_text(p)),
    );
    let websocket = emit_each(
        &routes.websocket,
        emit_websocket,
        Ghost(|p: SourceModel| websocket_text(p)),
    );
    proof {
        assert(routes.http@.map_values(|x: Source| x@) =~= source_models(routes.http@));
        assert(routes.messaging@.map_values(|x: Source| x@) =~= source_models(routes.messaging@));
        assert(routes.websocket@.map_values(|x: Source| x@) =~= source_models(routes.websocket@));
    }
    let mut s = String::from_str("\n.guest(omnia::GuestEntry::new(");
    s.append(guest.id.text.as_str());
    s.append(", ");
    s.append(guest.source.text.as_str());
    s.append(")");
    s.append(http.as_str());
    s.append(messaging.as_str());
    s.append(websocket.as_str());
    if guest.command {
        s.append(".command()");
    } else {
        s.append("");
    }
    s.append(")");
    s
}

fn emit_mount(mount: &MountSpec) -> (s: String)
    ensures
        s@ == mount_text(mount@),
{
    let mut s = String::from_str("\n.mounts([omnia::Mount { name: ::std::string::String::from(");
    s.append(mount.name.text.as_str());
    s.append("), path: ::std::path::PathBuf::from(");
    s.append(mount.path.text.as_str());
    s.append("), writable: ");
    match &mount.writable {
        Some(e) => {
            s.append(e.text.as_str());
        },
        None => {
            s.append("false");
        },
    }
    s.append(" }])");
    s
}

/// Emit the fluent `omnia::Manifest` builder chain for the inline keys.
pub fn emit_manifest_builder(manifest: &ManifestSpec) -> (s: String)
    ensures
        s@ == builder_text(manifest@),
{
    let interfaces = emit_each(
        &manifest.interfaces,
        emit_interface,
        Ghost(|i: SourceModel| interface_text(i)),
    );
    let locations = emit_each(
        &manifest.locations,
        emit_location,
        Ghost(|l: LocationModel| location_text(l)),
    );
    let guests = emit_each(&manifest.guests, emit_guest, Ghost(|g: GuestModel| guest_text(g)));
    let mounts = emit_each(&manifest.mounts, emit_mount, Ghost(|m: MountModel| mount_text(m)));
    proof {
        assert(manifest.interfaces@.map_values(|x: Source| x@) =~= source_models(
            manifest.interfaces@,
        ));
        assert(manifest.locations@.map_values(|x: LocationSpec| x@) =~= location_models(
            manifest.locations@,
        ));
        assert(manifest.guests@.map_values(|x: GuestSpec| x@) =~= guest_models(manifest.guests@));
        assert(manifest.mounts@.map_values(|x: MountSpec| x@) =~= mount_models(manifest.mounts@));
    }
    let mut s = String::from_str("omnia::Manifest::new()");
    s.append(interfaces.as_str());
    s.append(locations.as_str());
    s.append(guests.as_str());
    s.append(mounts.as_str());
    s
}

/// The compiled-in deployment manifest: the config file, the inline keys, or
/// nothing when neither is declared.
pub open spec fn manifest_text(config: ConfigModel) -> Option<Seq<char>> {
    match config.config_file {
        Some(file) => Some(
            "omnia::ManifestSource::Path(::std::path::PathBuf::from("@ + file.text + "))"@,
        ),
        None => if config.manifest.is_empty() {
            None
        } else {
            Some("omnia::ManifestSource::Inline("@ + builder_text(config.manifest) + ")"@)
        },
    }
}

/// Emit the `omnia::ManifestSource` for the compiled-in deployment manifest.
pub fn emit_manifest(config: &Config) -> (r: Option<String>)
    ensures
        crate::text::opt_view(r) == manifest_text(config@),
{
    if let Some(file) = &config.config_file {
        let mut s = String::from_str("omnia::ManifestSource::Path(::std::path::PathBuf::from(");
        s.append(file.text.as_str());
        s.append("))");
        return Some(s);
    }
    if config.manifest.is_empty() {
        return None;
    }
    let builder = emit_manifest_builder(&config.manifest);
    let mut s = String::from_str("omnia::ManifestSource::Inline(");
    s.append(builder.as_str());
    s.append(")");
    Some(s)
}

/// The `omnia::MainOptions` method chain; keys the invocation omits contribute
/// no calls.
pub open spec fn main_options_text(mode: Mode, has_manifest: bool) -> Seq<char> {
    "omnia::MainOptions::new("@ + mode.path() + (if has_manifest {
        ").manifest(manifest())"@
    } else {
        ")"@
    })
}

/// Emit the `omnia::MainOptions` method chain passed to `omnia::main`.
pub fn emit_main_options(config: &Config, has_manifest: bool) -> (s: String)
    ensures
        s@ == main_options_text(config@.mode, has_manifest),
{
    let mut s = String::from_str("omnia::MainOptions::new(");
    s.append(config.mode.tokens());
    if has_manifest {
        s.append(").manifest(manifest())");
    } else {
        s.append(")");
    }
    s
}

/// The source fragments that the runtime macro's expansion is made of.
pub struct Codegen {
    pub mode: Mode,
    pub host_types: Vec<String>,
    /// The `Provides` keys the generic `Hooks` impl bounds its bundle on, one
    /// per `hosts:` row.
    pub ctx_keys: Vec<String>,
    pub backends_ty: String,
    pub backends_def: String,
    pub main_options: String,
    /// The compiled-in `omnia::ManifestSource`; absent when the invocation
    /// declares neither `config:` nor inline manifest keys.
    pub manifest: Option<String>,
    /// Whether to link the `omnia::WasiPlugins` loader host and install the
    /// declared locations.
    pub link_loader: bool,
}

/// The host types of the rows.
pub open spec fn host_type_texts(rows: Seq<HostEntryModel>) -> Seq<Seq<char>> {
    rows.map_values(|r: HostEntryModel| r.host.text)
}

/// The `Provides` keys of the rows.
pub open spec fn ctx_texts(rows: Seq<HostEntryModel>) -> Seq<Seq<char>> {
    rows.map_values(|r: HostEntryModel| ctx(r.host.text))
}

impl Codegen {
    /// The fragments of a configuration's expansion.
    pub fn from_config(config: &Config) -> (r: Codegen)
        ensures
            r.mode == config@.mode,
            crate::text::views(r.host_types@) == host_type_texts(config@.host_entries),
            crate::text::views(r.ctx_keys@) == ctx_texts(config@.host_entries),
            r.backends_ty@ == backends_type(config@.host_entries),
            r.backends_def@ == backends_text(config@.host_entries),
            r.main_options@ == main_options_text(
                config@.mode,
                manifest_text(config@) is Some,
            ),
            crate::text::opt_view(r.manifest) == manifest_text(config@),
            r.link_loader == config@.link_loader,
    {
        let mut host_types: Vec<String> = Vec::new();
        let mut ctx_keys: Vec<String> = Vec::new();
        let mut i: usize = 0;
        while i < config.host_entries.len()
            invariant
                i <= config.host_entries@.len(),
                host_types@.len() == i,
                ctx_keys@.len() == i,
                forall|k: int|
                    0 <= k < i ==> (#[trigger] host_types@[k])@
                        == config.host_entries@[k].host.text@,
                forall|k: int|
                    0 <= k < i ==> (#[trigger] ctx_keys@[k])@ == ctx(
                        config.host_entries@[k].host.text@,
                    ),
            decreases config.host_entries@.len() - i,
        {
            host_types.push(config.host_entries[i].host.text.clone());
            ctx_keys.push(ctx_key(config.host_entries[i].host.text.as_str()));
            i = i + 1;
        }
        assert(crate::text::views(host_types@) =~= host_type_texts(config@.host_entries));
        assert(crate::text::views(ctx_keys@) =~= ctx_texts(config@.host_entries));
        let (backends_ty, backends_def) = emit_backends(&config.host_entries);
        let manifest = emit_manifest(config);
        let main_options = emit_main_options(config, manifest.is_some());
        Codegen {
            mode: config.mode,
            host_types,
            ctx_keys,
            backends_ty,
            backends_def,
            main_options,
            manifest,
            link_loader: config.link_loader,
        }
    }
}

proof fn lemma_backends(rows: Seq<HostEntryModel>)
    ensures
        forall|t: Seq<char>| #[trigger] has_backend(backends(rows), t) == has_backend(rows, t),
        forall|i: int, k: int|
            0 <= i < k < backends(rows).len() ==> (#[trigger] backends(rows)[i]).backend.text != (
            #[trigger] backends(rows)[k]).backend.text,
    decreases rows.len(),
{
    if rows.len() > 0 {
        let before = rows.drop_last();
        let last = rows.last();
        lemma_backends(before);
        assert forall|t: Seq<char>| #[trigger] has_backend(backends(rows), t) == has_backend(
            rows,
            t,
        ) by {
            assert(has_backend(backends(before), t) == has_backend(before, t));
            if has_backend(before, t) {
                let i = choose|i: int|
                    0 <= i < before.len() && (#[trigger] before[i]).backend.text == t;
                assert(rows[i].backend.text == t);
                let k = choose|k: int|
                    0 <= k < backends(before).len() && (#[trigger] backends(
                        before,
                    )[k]).backend.text == t;
                assert(backends(rows)[k].backend.text == t);
            }
            if has_backend(rows, t) {
                let i = choose|i: int|
                    0 <= i < rows.len() && (#[trigger] rows[i]).backend.text == t;
                if i < before.len() {
                    assert(before[i].backend.text == t);
                } else if !has_backend(before, last.backend.text) {
                    assert(backends(rows)[backends(before).len() as int].backend.text == t);
                }
            }
            if has_backend(backends(rows), t) {
                let k = choose|k: int|
                    0 <= k < backends(rows).len() && (#[trigger] backends(rows)[k]).backend.text
                        == t;
                if k < backends(before).len() {
                    assert(backends(before)[k].backend.text == t);
                } else {
                    assert(rows[rows.len() - 1].backend.text == t);
                }
            }
        }
        if !has_backend(before, last.backend.text) {
            assert(!has_backend(backends(before), last.backend.text));
            assert forall|i: int, k: int| 0 <= i < k < backends(rows).len() implies (
            #[trigger] backends(rows)[i]).backend.text != (#[trigger] backends(
                rows,
            )[k]).backend.text by {
                assert(backends(rows)[i] == backends(before)[i]);
                if k < backends(before).len() {
                    assert(backends(rows)[k] == backends(before)[k]);
                } else {
                    assert(backends(rows)[k] == last);
                }
            }
        }
    }
}

/// The bundle has exactly one field for each backend that a row names, however
/// many rows share it and wherever they stand.
pub proof fn one_field_per_backend(rows: Seq<HostEntryModel>, backend: Seq<char>, i: int, k: int)
    ensures
        has_backend(backends(rows), backend) <==> has_backend(rows, backend),
        0 <= i < k < backends(rows).len() ==> backends(rows)[i].backend.text
            != backends(rows)[k].backend.text,
{
    lemma_backends(rows);
}

/// The texts of items hold that of each.
proof fn lemma_each_holds<M>(items: Seq<M>, f: spec_fn(M) -> Seq<char>, i: int)
    requires
        0 <= i < items.len(),
    ensures
        crate::text::holds(each(items, f), f(items[i])),
    decreases items.len(),
{
    crate::text::holding_goes_on(f(items[i]));
    if i < items.len() - 1 {
        lemma_each_holds(items.drop_last(), f, i);
        assert(items.drop_last()[i] == items[i]);
    }
}

/// The texts of two lists of items together are those of the first and then
/// those of the second.
pub proof fn items_are_emitted_in_order<M>(a: Seq<M>, b: Seq<M>, f: spec_fn(M) -> Seq<char>)
    ensures
        each(a + b, f) == each(a, f) + each(b, f),
    decreases b.len(),
{
    if b.len() > 0 {
        assert((a + b).drop_last() =~= a + b.drop_last());
        items_are_emitted_in_order(a, b.drop_last(), f);
        assert(each(a + b, f) =~= each(a, f) + each(b, f));
    } else {
        assert(a + b =~= a);
        assert(each(a, f) + each(b, f) =~= each(a, f));
    }
}

/// A mount is read-only unless said otherwise: an entry without a `writable`
/// key registers as the same entry with `writable: false` does.
pub proof fn mounts_are_read_only_by_default(name: SourceModel, path: SourceModel, at: usize)
    ensures
        mount_text(MountModel { name, path, writable: None }) == mount_text(
            MountModel { name, path, writable: Some(SourceModel { text: "false"@, at }) },
        ),
{
}

/// A mount registers under its name, at its path, and as writable as it says.
pub proof fn mounts_register_what_they_say(mount: MountModel)
    ensures
        crate::text::holds(
            mount_text(mount),
            "name: ::std::string::String::from("@ + mount.name.text + ")"@,
        ),
        crate::text::holds(
            mount_text(mount),
            "path: ::std::path::PathBuf::from("@ + mount.path.text + ")"@,
        ),
        mount.writable matches Some(e) ==> crate::text::holds(
            mount_text(mount),
            "writable: "@ + e.text + " }"@,
        ),
        mount.writable is None ==> crate::text::holds(mount_text(mount), "writable: false }"@),
{
    let text = mount_text(mount);
    let writable = match mount.writable {
        Some(e) => e.text,
        None => "false"@,
    };
    let named = "name: ::std::string::String::from("@ + mount.name.text + ")"@;
    let placed = "path: ::std::path::PathBuf::from("@ + mount.path.text + ")"@;
    let open = "writable: "@ + writable + " }"@;
    assert("\n.mounts([omnia::Mount { name: ::std::string::String::from("@ == "\n.mounts([omnia::Mount { "@ + "name: ::std::string::String::from("@) by {
        reveal_strlit("\n.mounts([omnia::Mount { name: ::std::string::String::from(");
        reveal_strlit("\n.mounts([omnia::Mount { ");
        reveal_strlit("name: ::std::string::String::from(");
        assert("\n.mounts([omnia::Mount { name: ::std::string::String::from("@ =~= "\n.mounts([omnia::Mount { "@ + "name: ::std::string::String::from("@);
    }
    assert("), path: ::std::path::PathBuf::from("@ == ")"@ + ", "@ + "path: ::std::path::PathBuf::from("@) by {
        reveal_strlit("), path: ::std::path::PathBuf::from(");
        reveal_strlit(")");
        reveal_strlit(", ");
        reveal_strlit("path: ::std::path::PathBuf::from(");
        assert("), path: ::std::path::PathBuf::from("@ =~= ")"@ + ", "@ + "path: ::std::path::PathBuf::from("@);
    }
    assert("), writable: "@ == ")"@ + ", "@ + "writable: "@) by {
        reveal_strlit("), writable: ");
        reveal_strlit(")");
        reveal_strlit(", ");
        reveal_strlit("writable: ");
        assert("), writable: "@ =~= ")"@ + ", "@ + "writable: "@);
    }
    assert(" }])"@ == " }"@ + "])"@) by {
        reveal_strlit(" }])");
        reveal_strlit(" }");
        reveal_strlit("])");
        assert(" }])"@ =~= " }"@ + "])"@);
    }
    assert("writable: false }"@ == "writable: "@ + "false"@ + " }"@) by {
        reveal_strlit("writable: false }");
        reveal_strlit("writable: ");
        reveal_strlit("false");
        reveal_strlit(" }");
        assert("writable: false }"@ =~= "writable: "@ + "false"@ + " }"@);
    }
    assert(text =~= "\n.mounts([omnia::Mount { "@ + named + ", "@ + placed + ", "@ + open + "])"@);
    crate::text::holding_goes_on(named);
    crate::text::holding_goes_on(placed);
    crate::text::holding_goes_on(open);
    if mount.writable is None {
        assert(open =~= "writable: false }"@);
    }
}

/// A guest registers under its identity with its source, with every route
/// pattern under its trigger.
pub proof fn guests_register_what_they_say(guest: GuestModel, i: int)
    ensures
        crate::text::holds(
            guest_text(guest),
            "omnia::GuestEntry::new("@ + guest.id.text + ", "@ + guest.source.text + ")"@,
        ),
        0 <= i < guest.routes.http.len() ==> crate::text::holds(
            guest_text(guest),
            ".route_http("@ + guest.routes.http[i].text + ")"@,
        ),
        0 <= i < guest.routes.messaging.len() ==> crate::text::holds(
            guest_text(guest),
            ".route_messaging("@ + guest.routes.messaging[i].text + ")"@,
        ),
        0 <= i < guest.routes.websocket.len() ==> crate::text::holds(
            guest_text(guest),
            ".route_websocket("@ + guest.routes.websocket[i].text + ")"@,
        ),
{
    let http = |p: SourceModel| http_text(p);
    let messaging = |p: SourceModel| messaging_text(p);
    let websocket = |p: SourceModel| websocket_text(p);
    let entry = "omnia::GuestEntry::new("@ + guest.id.text + ", "@ + guest.source.text + ")"@;
    reveal_strlit("\n.guest(omnia::GuestEntry::new(");
    reveal_strlit("\n.guest(");
    reveal_strlit("omnia::GuestEntry::new(");
    let start = "\n.guest(omnia::GuestEntry::new("@ + guest.id.text + ", "@ + guest.source.text
        + ")"@;
    assert(start =~= "\n.guest("@ + entry);
    crate::text::holding_goes_on(entry);
    assert(crate::text::holds(start, entry)) by {
        assert(crate::text::holds("\n.guest("@ + entry, entry));
    }
    if 0 <= i < guest.routes.http.len() {
        lemma_each_holds(guest.routes.http, http, i);
        crate::text::holding_goes_on(http_text(guest.routes.http[i]));
    }
    if 0 <= i < guest.routes.messaging.len() {
        lemma_each_holds(guest.routes.messaging, messaging, i);
        crate::text::holding_goes_on(messaging_text(guest.routes.messaging[i]));
    }
    if 0 <= i < guest.routes.websocket.len() {
        lemma_each_holds(guest.routes.websocket, websocket, i);
        crate::text::holding_goes_on(websocket_text(guest.routes.websocket[i]));
    }
}

/// The command guest registers as any other guest does, and is marked as it.
pub proof fn the_command_guest_is_marked(guest: GuestModel)
    ensures
        guest_text(GuestModel { command: true, ..guest }) == guest_text(
            GuestModel { command: false, ..guest },
        ).drop_last() + ".command())"@,
{
    reveal_strlit(".command()");
    reveal_strlit(".command())");
    reveal_strlit(")");
    reveal_strlit("");
    assert(guest_text(GuestModel { command: true, ..guest }) =~= guest_text(
        GuestModel { command: false, ..guest },
    ).drop_last() + ".command())"@);
}

/// The inline keys are all registered: the builder chain links every interface
/// and registers every location, guest and mount.
pub proof fn every_entry_is_registered(manifest: ManifestModel, i: int)
    ensures
        0 <= i < manifest.interfaces.len() ==> crate::text::holds(
            builder_text(manifest),
            "\n.link(["@ + manifest.interfaces[i].text + "])"@,
        ),
        0 <= i < manifest.locations.len() ==> crate::text::holds(
            builder_text(manifest),
            match manifest.locations[i] {
                LocationModel::Path { name, path } => "\n.locations([omnia::Location::path("@
                    + name.text + ", "@ + path.text + ")])"@,
                LocationModel::Registry(endpoint) => "\n.locations([omnia::Location::registry("@
                    + endpoint.text + ")])"@,
            },
        ),
        0 <= i < manifest.guests.len() ==> crate::text::holds(
            builder_text(manifest),
            guest_text(manifest.guests[i]),
        ),
        0 <= i < manifest.mounts.len() ==> crate::text::holds(
            builder_text(manifest),
            mount_text(manifest.mounts[i]),
        ),
{
    if 0 <= i < manifest.interfaces.len() {
        lemma_each_holds(manifest.interfaces, |i: SourceModel| interface_text(i), i);
        crate::text::holding_goes_on(interface_text(manifest.interfaces[i]));
    }
    if 0 <= i < manifest.locations.len() {
        lemma_each_holds(manifest.locations, |l: LocationModel| location_text(l), i);
        crate::text::holding_goes_on(location_text(manifest.locations[i]));
    }
    if 0 <= i < manifest.guests.len() {
        lemma_each_holds(manifest.guests, |g: GuestModel| guest_text(g), i);
        crate::text::holding_goes_on(guest_text(manifest.guests[i]));
    }
    if 0 <= i < manifest.mounts.len() {
        lemma_each_holds(manifest.mounts, |m: MountModel| mount_text(m), i);
        crate::text::holding_goes_on(mount_text(manifest.mounts[i]));
    }
}

/// What is compiled in is what was declared: the config file where one is
/// named, the inline keys where there are any, and nothing otherwise.
pub proof fn manifests_are_what_was_declared(config: ConfigModel)
    ensures
        config.config_file matches Some(file) ==> manifest_text(config) is Some
            && crate::text::holds(
            manifest_text(config)->0,
            "omnia::ManifestSource::Path(::std::path::PathBuf::from("@ + file.text + "))"@,
        ),
        config.config_file is None && (config.manifest.interfaces.len() > 0
            || config.manifest.locations.len() > 0 || config.manifest.guests.len() > 0
            || config.manifest.mounts.len() > 0) ==> manifest_text(config) is Some
            && crate::text::holds(manifest_text(config)->0, builder_text(config.manifest)),
        config.config_file is None && config.manifest.interfaces.len() == 0
            && config.manifest.locations.len() == 0 && config.manifest.guests.len() == 0
            && config.manifest.mounts.len() == 0 ==> manifest_text(config) is None,
{
    crate::text::holding_goes_on(builder_text(config.manifest));
    if let Some(file) = config.config_file {
        crate::text::holding_goes_on(manifest_text(config)->0);
    }
}

/// Every hosts row reaches its backend: the bundle borrows, for the row's
/// context, the field of the row's backend.
pub proof fn every_row_reaches_its_backend(rows: Seq<HostEntryModel>, i: int)
    requires
        0 <= i < rows.len(),
    ensures
        crate::text::holds(
            backends_text(rows),
            "impl omnia::Provides<"@ + ctx(rows[i].host.text)
                + "> for Backends {\n    fn borrow(&mut self) -> <"@ + ctx(rows[i].host.text)
                + " as omnia::HostCtx>::Borrow<'_> {\n        &mut self."@ + field(
                rows[i].backend.text,
            ) + "\n    }\n}\n"@,
        ),
{
    lemma_each_holds(rows, |r: HostEntryModel| host_impl_text(r), i);
    crate::text::holding_goes_on(host_impl_text(rows[i]));
}

/// Every backend connects: with the options compiled in for it, or from the
/// environment where there are none, into a field of its type.
pub proof fn every_backend_connects(rows: Seq<HostEntryModel>, i: int)
    requires
        rows.len() > 0,
        0 <= i < backends(rows).len(),
    ensures
        ({
            let row = backends(rows)[i];
            &&& row.options matches Some(e) ==> crate::text::holds(
                backends_text(rows),
                "<"@ + row.backend.text + " as Backend>::connect_with("@ + e.text + "),\n"@,
            )
            &&& row.options is None ==> crate::text::holds(
                backends_text(rows),
                "<"@ + row.backend.text + " as Backend>::connect(),\n"@,
            )
            &&& crate::text::holds(
                backends_text(rows),
                field(row.backend.text) + ": "@ + row.backend.text + ",\n"@,
            )
        }),
{
    let row = backends(rows)[i];
    lemma_each_holds(backends(rows), |r: HostEntryModel| connect_line(r), i);
    crate::text::holding_goes_on(connect_line(row));
    lemma_each_holds(backends(rows), |r: HostEntryModel| field_line(r), i);
    crate::text::holding_goes_on(field_line(row));
}

/// A backend's first row stands for it.
pub proof fn first_rows_stand_for_backends(rows: Seq<HostEntryModel>, k: int)
    requires
        0 <= k < rows.len(),
        forall|j: int|
            0 <= j < k ==> (#[trigger] rows[j]).backend.text != rows[k].backend.text,
    ensures
        backends(rows).contains(rows[k]),
    decreases rows.len(),
{
    let before = rows.drop_last();
    if k < before.len() {
        assert forall|j: int| 0 <= j < k implies (#[trigger] before[j]).backend.text
            != before[k].backend.text by {
            assert(before[j] == rows[j]);
        }
        first_rows_stand_for_backends(before, k);
        let i = choose|i: int| 0 <= i < backends(before).len() && backends(before)[i] == rows[k];
        assert(backends(rows)[i] == rows[k]);
    } else {
        if has_backend(before, rows.last().backend.text) {
            let j = choose|j: int|
                0 <= j < before.len() && (#[trigger] before[j]).backend.text
                    == rows.last().backend.text;
            assert(rows[j].backend.text == rows[k].backend.text);
        }
        assert(backends(rows)[backends(before).len() as int] == rows[k]);
    }
}

/// The builder chain begins bare and grows at its end: a mount is registered
/// behind everything else, a guest behind everything but the mounts, a location
/// behind the interfaces; and each only once.
pub proof fn entries_are_registered_in_order(
    manifest: ManifestModel,
    interface: SourceModel,
    location: LocationModel,
    guest: GuestModel,
    mount: MountModel,
)
    ensures
        ({
            let linked = ManifestModel {
                locations: Seq::empty(),
                guests: Seq::empty(),
                mounts: Seq::empty(),
                ..manifest
            };
            let located = ManifestModel { guests: Seq::empty(), mounts: Seq::empty(), ..manifest };
            let filled = ManifestModel { mounts: Seq::empty(), ..manifest };
            &&& builder_text(ManifestModel { interfaces: Seq::empty(), ..linked })
                == "omnia::Manifest::new()"@
            &&& builder_text(
                ManifestModel { interfaces: manifest.interfaces.push(interface), ..linked },
            ) == builder_text(linked) + interface_text(interface)
            &&& builder_text(
                ManifestModel { locations: manifest.locations.push(location), ..located },
            ) == builder_text(located) + location_text(location)
            &&& builder_text(ManifestModel { guests: manifest.guests.push(guest), ..filled })
                == builder_text(filled) + guest_text(guest)
            &&& builder_text(ManifestModel { mounts: manifest.mounts.push(mount), ..manifest })
                == builder_text(manifest) + mount_text(mount)
        }),
{
    let linked = ManifestModel {
        locations: Seq::empty(),
        guests: Seq::empty(),
        mounts: Seq::empty(),
        ..manifest
    };
    let located = ManifestModel { guests: Seq::empty(), mounts: Seq::empty(), ..manifest };
    let filled = ManifestModel { mounts: Seq::empty(), ..manifest };
    assert(manifest.interfaces.push(interface).drop_last() =~= manifest.interfaces);
    assert(manifest.locations.push(location).drop_last() =~= manifest.locations);
    assert(manifest.guests.push(guest).drop_last() =~= manifest.guests);
    assert(manifest.mounts.push(mount).drop_last() =~= manifest.mounts);
    assert(builder_text(ManifestModel { interfaces: Seq::empty(), ..linked })
        =~= "omnia::Manifest::new()"@);
    assert(builder_text(
        ManifestModel { interfaces: manifest.interfaces.push(interface), ..linked },
    ) =~= builder_text(linked) + interface_text(interface));
    assert(builder_text(ManifestModel { locations: manifest.locations.push(location), ..located })
        =~= builder_text(located) + location_text(location));
    assert(builder_text(ManifestModel { guests: manifest.guests.push(guest), ..filled })
        =~= builder_text(filled) + guest_text(guest));
    assert(builder_text(ManifestModel { mounts: manifest.mounts.push(mount), ..manifest })
        =~= builder_text(manifest) + mount_text(mount));
}

/// A guest registers each route pattern once, in order, and nothing but its
/// routes: without any it is its entry alone.
pub proof fn routes_are_registered_in_order(guest: GuestModel, pattern: SourceModel)
    requires
        !guest.command,
    ensures
        ({
            let bare = GuestModel {
                routes: RoutesModel {
                    http: Seq::empty(),
                    messaging: Seq::empty(),
                    websocket: Seq::empty(),
                },
                ..guest
            };
            let http = GuestModel {
                routes: RoutesModel { http: guest.routes.http, ..bare.routes },
                ..guest
            };
            let messaging = GuestModel {
                routes: RoutesModel { websocket: Seq::empty(), ..guest.routes },
                ..guest
            };
            &&& guest_text(bare) == "\n.guest(omnia::GuestEntry::new("@ + guest.id.text + ", "@
                + guest.source.text + "))"@
            &&& guest_text(
                GuestModel {
                    routes: RoutesModel { http: guest.routes.http.push(pattern), ..bare.routes },
                    ..guest
                },
            ) == guest_text(http).drop_last() + ".route_http("@ + pattern.text + "))"@
            &&& guest_text(
                GuestModel {
                    routes: RoutesModel {
                        messaging: guest.routes.messaging.push(pattern),
                        ..messaging.routes
                    },
                    ..guest
                },
            ) == guest_text(messaging).drop_last() + ".route_messaging("@ + pattern.text + "))"@
            &&& guest_text(
                GuestModel {
                    routes: RoutesModel {
                        websocket: guest.routes.websocket.push(pattern),
                        ..guest.routes
                    },
                    ..guest
                },
            ) == guest_text(guest).drop_last() + ".route_websocket("@ + pattern.text + "))"@
        }),
{
    let bare = GuestModel {
        routes: RoutesModel {
            http: Seq::empty(),
            messaging: Seq::empty(),
            websocket: Seq::empty(),
        },
        ..guest
    };
    let http = GuestModel {
        routes: RoutesModel { http: guest.routes.http, ..bare.routes },
        ..guest
    };
    let messaging = GuestModel {
        routes: RoutesModel { websocket: Seq::empty(), ..guest.routes },
        ..guest
    };
    reveal_strlit(")");
    reveal_strlit("))");
    reveal_strlit("");
    assert(guest.routes.http.push(pattern).drop_last() =~= guest.routes.http);
    assert(guest.routes.messaging.push(pattern).drop_last() =~= guest.routes.messaging);
    assert(guest.routes.websocket.push(pattern).drop_last() =~= guest.routes.websocket);
    assert(guest_text(bare) =~= "\n.guest(omnia::GuestEntry::new("@ + guest.id.text + ", "@
        + guest.source.text + "))"@);
    assert(guest_text(
        GuestModel {
            routes: RoutesModel { http: guest.routes.http.push(pattern), ..bare.routes },
            ..guest
        },
    ) =~= guest_text(http).drop_last() + ".route_http("@ + pattern.text + "))"@);
    assert(guest_text(
        GuestModel {
            routes: RoutesModel {
                messaging: guest.routes.messaging.push(pattern),
                ..messaging.routes
            },
            ..guest
        },
    ) =~= guest_text(messaging).drop_last() + ".route_messaging("@ + pattern.text + "))"@);
    assert(guest_text(
        GuestModel {
            routes: RoutesModel {
                websocket: guest.routes.websocket.push(pattern),
                ..guest.routes
            },
            ..guest
        },
    ) =~= guest_text(guest).drop_last() + ".route_websocket("@ + pattern.text + "))"@);
}

/// The names of fields, each with a comma behind it.
pub open spec fn names_of(rows: Seq<HostEntryModel>) -> Seq<char>
    decreases rows.len(),
{
    if rows.len() == 0 {
        Seq::empty()
    } else {
        names_of(rows.drop_last()) + field(rows.last().backend.text) + ", "@
    }
}

proof fn lemma_names(rows: Seq<HostEntryModel>)
    ensures
        each(rows, |r: HostEntryModel| field_item(r)) == names_of(rows),
    decreases rows.len(),
{
    if rows.len() > 0 {
        lemma_names(rows.drop_last());
        let last = field(rows.last().backend.text);
        assert(names_of(rows.drop_last()) + (last + ", "@) =~= names_of(rows.drop_last()) + last
            + ", "@);
    } else {
        assert(each(rows, |r: HostEntryModel| field_item(r)) =~= Seq::<char>::empty());
    }
}

/// What connects goes into its own field: the backends connect in the order in
/// which their fields are bound and the bundle is made of them.
pub proof fn backends_connect_into_their_fields(rows: Seq<HostEntryModel>)
    requires
        rows.len() > 0,
    ensures
        crate::text::holds(
            backends_text(rows),
            "let ("@ + names_of(backends(rows)) + ") = tokio::try_join!(\n"@ + each(
                backends(rows),
                |r: HostEntryModel| connect_line(r),
            ) + ")?;\n        Ok(Self { "@ + names_of(backends(rows)) + "})"@,
        ),
{
    lemma_names(backends(rows));
    let names = names_of(backends(rows));
    let connects = each(backends(rows), |r: HostEntryModel| connect_line(r));
    let middle = names + ") = tokio::try_join!(\n"@ + connects + ")?;\n        Ok(Self { "@ + names;
    let part = "let ("@ + names + ") = tokio::try_join!(\n"@ + connects
        + ")?;\n        Ok(Self { "@ + names + "})"@;
    let front = "use omnia::Backend;\n\n#[derive(Clone)]\nstruct Backends {\n"@ + each(
        backends(rows),
        |r: HostEntryModel| field_line(r),
    );
    let lead = "}\n\nimpl omnia::Backends for Backends {\n    async fn connect() -> Result<Self> {\n        "@;
    let back = "\n    }\n}\n\n"@ + each(rows, |r: HostEntryModel| host_impl_text(r));
    reveal_strlit("}\n\nimpl omnia::Backends for Backends {\n    async fn connect() -> Result<Self> {\n        let (");
    reveal_strlit("}\n\nimpl omnia::Backends for Backends {\n    async fn connect() -> Result<Self> {\n        ");
    reveal_strlit("let (");
    reveal_strlit("})\n    }\n}\n\n");
    reveal_strlit("})");
    reveal_strlit("\n    }\n}\n\n");
    assert("}\n\nimpl omnia::Backends for Backends {\n    async fn connect() -> Result<Self> {\n        let ("@
        =~= lead + "let ("@);
    assert("})\n    }\n}\n\n"@ =~= "})"@ + "\n    }\n}\n\n"@);
    assert(part =~= "let ("@ + middle + "})"@);
    assert(backends_text(rows) =~= front + lead + part + back);
    crate::text::holding_goes_on(part);
    assert(crate::text::holds(front + lead + part, part));
}

/// A row adds a backend behind the others exactly where no row before it names
/// the backend.
pub proof fn backends_come_in_order(rows: Seq<HostEntryModel>, row: HostEntryModel)
    ensures
        has_backend(rows, row.backend.text) ==> backends(rows.push(row)) == backends(rows),
        !has_backend(rows, row.backend.text) ==> backends(rows.push(row)) == backends(rows).push(
            row,
        ),
{
    assert(rows.push(row).drop_last() =~= rows);
}

/// The options name the mode, and the manifest exactly where there is one.
pub proof fn options_name_the_manifest(mode: Mode)
    ensures
        main_options_text(mode, true) == main_options_text(mode, false) + ".manifest(manifest())"@,
        crate::text::holds(main_options_text(mode, false), mode.path()),
        Mode::Server.path() != Mode::Command.path(),
{
    reveal_strlit(").manifest(manifest())");
    reveal_strlit(")");
    reveal_strlit(".manifest(manifest())");
    assert(").manifest(manifest())"@ =~= ")"@ + ".manifest(manifest())"@);
    assert(main_options_text(mode, true) =~= main_options_text(mode, false)
        + ".manifest(manifest())"@);
    crate::text::holding_goes_on(mode.path());
    reveal_strlit("omnia::Mode::Server");
    reveal_strlit("omnia::Mode::Command");
    assert("omnia::Mode::Server"@.len() == 19);
    assert("omnia::Mode::Command"@.len() == 20);
}

/// A row is keyed by its own host, but for the one whose path ends in
/// `WasiHttp`: those share one key.
pub proof fn only_http_is_keyed_apart(a: Seq<char>, b: Seq<char>)
    requires
        crate::macros::token::last_segment(a) == Some("WasiHttp"@),
    ensures
        crate::macros::token::last_segment(b) == Some("WasiHttp"@) ==> ctx(a) == ctx(b),
        crate::macros::token::last_segment(b) != Some("WasiHttp"@) ==> ctx(b) == b,
        ctx(a) == "omnia::HttpCtx"@,
{
}

/// A name without capitals is its own snake case; a capital begins a word, set
/// off by an underscore from what stands before it, in lowercase.
pub proof fn capitals_begin_words(name: Seq<char>, c: char)
    ensures
        (forall|i: int| 0 <= i < name.len() ==> !upper(#[trigger] name[i])) ==> snake(name) == name,
        !upper(c) ==> snake(name.push(c)) == snake(name).push(c),
        upper(c) && snake(name).len() > 0 ==> snake(name.push(c)) == snake(name) + seq!['_']
            + lower(c),
        upper(c) && name.len() == 0 ==> snake(name.push(c)) == lower(c),
    decreases name.len(),
{
    assert(name.push(c).drop_last() =~= name);
    if upper(c) && snake(name).len() > 0 {
        assert(snake(name.push(c)) =~= snake(name) + seq!['_'] + lower(c));
    }
    if upper(c) && name.len() == 0 {
        assert(snake(name) =~= Seq::<char>::empty());
        assert(snake(name.push(c)) =~= lower(c));
    }
    if name.len() == 0 {
        assert(snake(name) =~= name);
    } else if forall|i: int| 0 <= i < name.len() ==> !upper(#[trigger] name[i]) {
        assert(forall|i: int|
            0 <= i < name.drop_last().len() ==> !upper(#[trigger] name.drop_last()[i])) by {
            assert(forall|i: int| 0 <= i < name.len() - 1 ==> name.drop_last()[i] == name[i]);
        }
        capitals_begin_words(name.drop_last(), c);
        assert(!upper(name[name.len() - 1]));
        assert(name.drop_last().push(name.last()) =~= name);
    }
}

} // verus!
