//! The `runtime!` macro: its grammar, its rules, and its expansion.

use omnia::macros::codegen::{emit_backends, field_ident};
use omnia::macros::expand::expand;
use omnia::macros::instrument::{instrument, instrumented};
use omnia::macros::parse::{Config, Mode};
use omnia::macros::token::{Delim, Fault, Tok, TokKind};
use omnia::macros::tree::{open, Tree, TreeKind};
use proc_macro2::{Delimiter, Group, Spacing, TokenStream, TokenTree};

fn trees(stream: TokenStream, mark: &mut usize) -> Vec<Tree> {
    let mut found = Vec::new();
    for tree in stream {
        let at = *mark;
        *mark += 1;
        let mut close = at;
        let kind = match tree {
            TokenTree::Ident(ident) => TreeKind::Ident(ident.to_string()),
            TokenTree::Punct(punct) => {
                TreeKind::Punct(punct.as_char(), punct.spacing() == Spacing::Joint)
            }
            TokenTree::Literal(literal) => TreeKind::Literal(literal.to_string()),
            TokenTree::Group(group) => {
                let body = trees(group.stream(), mark);
                close = *mark;
                *mark += 1;
                match group.delimiter() {
                    Delimiter::Parenthesis => TreeKind::Group(Delim::Paren, body),
                    Delimiter::Brace => TreeKind::Group(Delim::Brace, body),
                    Delimiter::Bracket => TreeKind::Group(Delim::Bracket, body),
                    Delimiter::None => TreeKind::Hidden(body),
                }
            }
        };
        found.push(Tree { at, close, kind });
    }
    found
}

fn parsed(source: &str) -> Result<Config, Fault> {
    let stream: TokenStream = source.parse().expect("source lexes");
    parsed_stream(stream)
}

fn parsed_stream(stream: TokenStream) -> Result<Config, Fault> {
    let mut end = 0;
    let found = trees(stream, &mut end);
    Config::parse(&open(&found), end)
}

/// The stream with each `[[ .. ]]` in it as a group without delimiters.
fn hiding(stream: TokenStream) -> TokenStream {
    stream
        .into_iter()
        .map(|tree| match tree {
            TokenTree::Group(group) => {
                let inner: Vec<TokenTree> = group.stream().into_iter().collect();
                if let [TokenTree::Group(held)] = &inner[..] {
                    if group.delimiter() == Delimiter::Bracket
                        && held.delimiter() == Delimiter::Bracket
                    {
                        return TokenTree::Group(Group::new(
                            Delimiter::None,
                            hiding(held.stream()),
                        ));
                    }
                }
                TokenTree::Group(Group::new(group.delimiter(), hiding(group.stream())))
            }
            other => other,
        })
        .collect()
}

fn hidden(source: &str) -> Result<Config, Fault> {
    parsed_stream(hiding(source.parse().expect("source lexes")))
}

fn config(source: &str) -> Config {
    parsed(source).unwrap_or_else(|fault| panic!("{}", fault.message))
}

fn refused(source: &str) -> String {
    parsed(source).err().expect("refused").message
}

/// The expansion without its white space, which is Rust source.
fn expanded(source: &str) -> String {
    let text = expand(&config(source));
    syn::parse_str::<syn::File>(&text).expect("the expansion is Rust");
    text.chars().filter(|c| !c.is_whitespace()).collect()
}

fn squeezed(text: &str) -> String {
    text.chars().filter(|c| !c.is_whitespace()).collect()
}

fn assert_has(text: &str, part: &str) {
    assert!(text.contains(&squeezed(part)), "`{part}` in {text}");
}

fn assert_lacks(text: &str, part: &str) {
    assert!(!text.contains(&squeezed(part)), "no `{part}` in {text}");
}

#[test]
fn expand_server() {
    let text = expanded(
        "{ hosts: { WasiHttp: HttpDefault, WasiOtel: OtelDefault, WasiKeyValue: KeyValueDefault, }, }",
    );
    assert_has(
        &text,
        "struct Backends { http_default: HttpDefault, otel_default: OtelDefault, key_value_default: KeyValueDefault, }",
    );
    assert_has(&text, "deployment.host::<WasiHttp, B>()?; deployment.host::<WasiOtel, B>()?; deployment.host::<WasiKeyValue, B>()?; Ok(())");
    assert_has(&text, "Box::pin(WasiHttp.run(runtime)), Box::pin(WasiOtel.run(runtime)), Box::pin(WasiKeyValue.run(runtime)),");
    assert_has(&text, "omnia::ManifestSource::Inline(omnia::Manifest::new())");
    assert_has(&text, "<HttpDefault as Backend>::connect()");
    assert_lacks(&text, "WasiPlugins");
    assert_lacks(&text, ".manifest(manifest())");
}

#[test]
fn expand_connect_options() {
    let text = expanded(
        r#"{ hosts: {
            WasiKeyValue: Filesystem(FilesystemOptions::at(".omnia/storage")),
            WasiBlobstore: Filesystem(FilesystemOptions::at(".omnia/storage")),
            WasiOtel: OtelDefault,
        }, }"#,
    );
    assert_has(&text, r#"<Filesystem as Backend>::connect_with(FilesystemOptions::at(".omnia/storage"))"#);
    assert_has(&text, "struct Backends { filesystem: Filesystem, otel_default: OtelDefault, }");
    assert_eq!(text.matches("connect_with").count(), 1, "one connection is shared");
}

#[test]
fn expand_shared_backend() {
    let text = expanded("{ hosts: { WasiKeyValue: Redis, WasiOtel: OtelDefault, WasiMessaging: Redis, }, }");
    assert_has(&text, "struct Backends { redis: Redis, otel_default: OtelDefault, }");
    assert_eq!(text.matches("<RedisasBackend>::connect()").count(), 1);
}

#[test]
fn expand_command() {
    let command = config("{ mode: command, hosts: { WasiOtel: OtelDefault, }, }");
    assert_eq!(command.mode, Mode::Command);
    let text = expanded("{ mode: command, hosts: { WasiOtel: OtelDefault, }, }");
    assert_eq!(text.matches("omnia::Mode::Command").count(), 3);
    assert_lacks(&text, "omnia::Mode::Server");
}

#[test]
fn expand_config_file() {
    let text = expanded(
        r#"{ config: concat!(env!("CARGO_MANIFEST_DIR"), "/omnia.toml"), hosts: { WasiOtel: OtelDefault, }, }"#,
    );
    assert_has(
        &text,
        r#"omnia::ManifestSource::Path(::std::path::PathBuf::from(concat!(env!("CARGO_MANIFEST_DIR"), "/omnia.toml")))"#,
    );
    assert_has(&text, ".manifest(manifest())");
    assert_lacks(&text, "WasiPlugins");
}

#[test]
fn expand_command_flag() {
    let text = expanded(
        r#"{ mode: command, guests: [
            { id: "app", source: "app.wasm", command: true },
            { id: "helper", source: "helper.wasm" },
        ], }"#,
    );
    assert_eq!(text.matches(".command()").count(), 1);
    assert!(text.find("app.wasm").unwrap() < text.find(".command()").unwrap());
    assert!(text.find(".command()").unwrap() < text.find("helper.wasm").unwrap());
}

#[test]
fn expand_deployment_keys() {
    let text = expanded(
        r#"{ mode: command,
            guests: [
                { id: "specify", source: engine_component_path(), command: true },
                { id: "target:mock", source: mock_target_path() },
            ],
            mounts: [
                { name: "project", path: project_root(), writable: true },
                { name: "store", path: store_root(), writable: true },
            ],
            hosts: { WasiHttp: HttpDefault, WasiOtel: OtelDefault } }"#,
    );
    assert_has(&text, "engine_component_path()");
    assert_has(&text, "\"target:mock\"");
    assert_has(&text, "project_root()");
    assert!(text.find("project_root").unwrap() < text.find("store_root").unwrap());
}

#[test]
fn expand_embedded_bytes() {
    let text = expanded(
        r#"{ guests: [ { id: "specify",
            source: include_bytes!(concat!(env!("CARGO_MANIFEST_DIR"), "/specify.wasm")), }, ],
            hosts: { WasiOtel: OtelDefault, }, }"#,
    );
    assert_has(
        &text,
        r#"include_bytes!(concat!(env!("CARGO_MANIFEST_DIR"), "/specify.wasm"))"#,
    );
}

#[test]
fn expand_inline_manifest() {
    let text = expanded(
        r#"{ link: { interfaces: ["omnia:link/echo"] },
            guests: [
                { id: "responder",
                  source: concat!(env!("CARGO_MANIFEST_DIR"), "/responder.wasm"),
                  routes: { messaging: ["orders.>"], websocket: ["chat.*"], }, },
                { id: "router",
                  source: concat!(env!("CARGO_MANIFEST_DIR"), "/router.wasm"),
                  routes: { http: ["/", concat!("/", "api")], }, },
            ],
            mounts: [
                { name: ".", path: concat!(env!("CARGO_MANIFEST_DIR"), "/workspace"), writable: true },
            ],
            hosts: { WasiOtel: OtelDefault, }, }"#,
    );
    assert_has(&text, r#".link(["omnia:link/echo"])"#);
    assert_has(&text, "orders.>");
    assert_has(&text, "chat.*");
    assert_has(&text, r#"concat!("/", "api")"#);
    assert_lacks(&text, "WasiPlugins");
}

#[test]
fn expand_locations() {
    let text = expanded(
        r#"{ link: { interfaces: ["emery:adapter/probe"] },
            plugins: { locations: [ { name: ".", path: project_root() }, { registry: "ghcr.io" }, ], },
            guests: [ { id: "engine", source: "engine.wasm" }, ],
            hosts: { WasiOtel: OtelDefault, }, }"#,
    );
    assert_has(&text, "deployment.host::<omnia::WasiPlugins, B>()?;");
    assert_has(&text, "omnia::Plugins::install_declared(runtime)");
    assert_has(&text, "project_root()");
    assert_has(&text, "\"ghcr.io\"");
}

#[test]
fn expand_plugins_without_locations() {
    let text = expanded(
        r#"{ link: { interfaces: ["emery:adapter/probe"] },
            guests: [ { id: "engine", source: "engine.wasm" }, ], }"#,
    );
    assert_has(&text, r#".link(["emery:adapter/probe"])"#);
    assert_lacks(&text, "Plugins");
}

#[test]
fn expand_config_file_with_plugins() {
    let text = expanded(
        r#"{ config: concat!(env!("CARGO_MANIFEST_DIR"), "/omnia.toml"), plugins: {},
            hosts: { WasiOtel: OtelDefault, }, }"#,
    );
    assert_has(&text, "deployment.host::<omnia::WasiPlugins, B>()?;");
    assert_has(&text, "omnia::Plugins::install_declared(runtime)");
}

#[test]
fn locations_refused_beside_config() {
    let error = refused(
        r#"{ config: concat!(env!("CARGO_MANIFEST_DIR"), "/omnia.toml"),
            plugins: { locations: [{ registry: "ghcr.io" }], }, }"#,
    );
    assert!(error.contains("mutually exclusive"), "{error}");
}

#[test]
fn derives_field_ident() {
    assert_eq!(field_ident("HttpDefault"), "http_default");
    assert_eq!(field_ident("KeyValueDefault"), "key_value_default");
    assert_eq!(field_ident("backends::Redis"), "redis");
}

#[test]
fn empty_host_entries() {
    let (ty, def) = emit_backends(&vec![]);
    assert_eq!(ty, "()");
    assert!(def.is_empty());
}

#[test]
fn compile_fail() {
    let guests = r#"guests: [ { id: "api", source: "api.wasm" }, ],"#;
    for body in [
        r#"plugin: { locations: [{ registry: "ghcr.io" }], cache: PluginCache, },"#,
        r#"link: ["omnia:shared/log"],"#,
        "plugin: { locations: [], },",
        r#"plugin: { locations: [ { registry: "ghcr.io" }, { registry: "registry.example" }, ], },"#,
        "plugin: { acquire: MountAcquire, },",
        r#"plugins: { interfaces: ["omnia:shared/log"] },"#,
    ] {
        let source = format!("{{ {body} {guests} }}");
        assert!(parsed(&source).is_err(), "{source}");
    }
}

#[test]
fn rules_across_keys() {
    assert!(refused(r#"{ guests: [ { id: "a", source: "a", command: true }, { id: "b", source: "b", command: true } ] }"#)
        .contains("command"));
    assert!(refused("{ plugin: {} }").contains("declares nothing"));
    assert_eq!(refused("{ mode: batch }"), "expected `server` or `command`, got `batch`");
    refused("{ hosts: { A: B }, hosts: { A: B } }");
    refused("{ hosts: { A: Redis(1), C: Redis(2) } }");
    refused("{ bogus: 1 }");
    refused("");
    refused("{} extra");
}

#[test]
fn instrumented_functions_keep_their_shape() {
    let attributes = vec!["# [ doc = \"x\" ]".to_owned(), "# [ allow ( dead_code ) ]".to_owned()];
    let text = instrumented(&attributes, "pub", "fn f ( ) -> u8", "7");
    assert_eq!(
        text,
        "# [ doc = \"x\" ] # [ allow ( dead_code ) ] pub fn f ( ) -> u8 { 7 }"
    );
    syn::parse_str::<syn::ItemFn>(&text).expect("a function");
}

#[test]
fn functions_are_instrumented_from_their_source() {
    let item = "/// Adds.\n#[allow(dead_code)] pub(crate) fn sum(a: u8) -> u8 { a + 1 }";
    let text = instrument(item, "span ( || a + 1 )").expect("a function");
    let emitted = syn::parse_str::<syn::ItemFn>(&text).expect("a function");
    let given = syn::parse_str::<syn::ItemFn>(item).expect("a function");
    assert_eq!((emitted.attrs.len(), emitted.attrs), (2, given.attrs));
    assert_eq!(emitted.vis, given.vis);
    assert_eq!(emitted.sig, given.sig);
    assert_ne!(emitted.block, given.block);
    assert!(squeezed(&text).ends_with("{span(||a+1)}"));

    assert_eq!(instrument("struct S;", "1"), Err("expected `fn`".to_owned()));
}

#[test]
fn fragments_without_delimiters_are_looked_through() {
    let plain = config("{ mode: command, hosts: { WasiHttp: net::Http<Tls>(1 + 2), }, }");
    let seen = hidden(
        "{ [[mode]]: [[command]], hosts: { [[WasiHttp]]: [[net::Http<Tls>]]([[1 + 2]]), }, }",
    )
    .ok()
    .expect("parses");
    assert!(matches!((&seen.mode, &plain.mode), (Mode::Command, Mode::Command)));
    assert_eq!(
        squeezed(&expand(&seen)),
        squeezed(&expand(&plain)).replace("1+2", "(1+2)"),
        "an expression stays one"
    );
}

#[test]
fn opening_keeps_marks_and_wraps_expressions() {
    let ident = |at, text: &str| Tree { at, close: at, kind: TreeKind::Ident(text.to_owned()) };
    let plus = |at| Tree { at, close: at, kind: TreeKind::Punct('+', false) };
    let hide = |at, body| Tree { at, close: at + 9, kind: TreeKind::Hidden(body) };
    let given = vec![
        ident(0, "a"),
        hide(1, vec![ident(2, "b")]),
        hide(3, vec![ident(4, "c"), plus(5), ident(6, "d")]),
        hide(7, vec![]),
    ];
    let tok = |at, text: &str| Tok { at, close: at, kind: TokKind::Ident(text.to_owned()) };
    assert_eq!(
        open(&given),
        vec![
            tok(0, "a"),
            tok(2, "b"),
            Tok {
                at: 3,
                close: 12,
                kind: TokKind::Group(
                    Delim::Paren,
                    vec![
                        tok(4, "c"),
                        Tok { at: 5, close: 5, kind: TokKind::Punct('+', false) },
                        tok(6, "d"),
                    ]
                )
            },
        ]
    );
}

#[test]
fn options_are_compared_as_parsed() {
    config("{ hosts: { A: Redis(--1), C: Redis(- -1) } }");
    config("{ hosts: { A: net :: Redis(f(1)), C: net::Redis(f( 1 )) } }");
    refused("{ hosts: { A: Redis(--1), C: Redis(-1) } }");
}

#[test]
fn plugins_blocks_of_locations_alone_are_read() {
    let text = expanded(
        "{ guests: [ { id: \"a\", source: \"a.wasm\" } ], plugins: { locations: [{ registry: \"ghcr.io\" }] } }",
    );
    assert_has(&text, "\"ghcr.io\"");
    let moved = refused(
        "{ hosts: { A: B }, plugins: { interfaces: [\"omnia:link/echo\"], locations: [] } }",
    );
    assert_eq!(moved, refused("{ hosts: { A: B }, plugins: { interfaces: [\"omnia:link/echo\"] } }"));
    assert!(moved.contains("link"), "{moved}");
}

#[test]
fn diagnostics_point_at_marks() {
    let fault = |source: &str| parsed(source).err().expect("refused");
    // The braces open at 0; the word, the colon and the close follow.
    assert_eq!(fault("{ mode: }").at, 3, "at the closing delimiter");
    assert_eq!(fault("{ mode: batch }").at, 3, "at the word");
    assert_eq!(fault("{ hosts: { A: B() } }").at, 7, "at the whole group");
    assert_eq!(fault("").at, 0, "at the end of the input");
}
