//! The module that a `runtime!({ ... })` invocation expands to.

use crate::macros::codegen::Codegen;
use crate::macros::parse::{Config, ConfigModel, Mode};
use vstd::prelude::*;
use vstd::string::StringExecFns;

verus! {

/// What stands before the bundle.
pub const HEAD: &'static str = "mod runtime {
    use omnia::anyhow::Result;
    use omnia::futures::future;
    use omnia::Server;
    use omnia::tokio;
    use super::*;

";

/// What stands between the bundle and the bounds on it.
pub const HOOKS: &'static str = "
    /// This runtime's host wiring, generic over the bundle carrying its hosts'
    /// contexts: the compiled-in bundle under `main` and `run`, any other under
    /// `run_with`.
    pub struct Hooks;

    impl<B> omnia::Wiring<B> for Hooks
    where
        B: Clone + Send + Sync + 'static,
";

/// What opens the link hook.
pub const LINK: &'static str = "    {
        fn link(deployment: &mut omnia::Deployment<omnia::StoreCtx<B>>) -> Result<()> {
";

/// The link of the loader host.
pub const LOADER: &'static str = "            deployment.host::<omnia::WasiPlugins, B>()?;
";

/// What closes the link hook.
pub const LINKED: &'static str = "            Ok(())
        }
";

/// The hook that installs the declared locations.
pub const EXTEND: &'static str = "
        fn extend(runtime: &omnia::Runtime<B>) -> Result<()> {
            omnia::Plugins::install_declared(runtime)
        }
";

/// What opens the serve hook.
pub const SERVE: &'static str = "
        async fn serve(runtime: &omnia::Runtime<B>) -> Result<()> {
            let servers: Vec<future::BoxFuture<'_, Result<()>>> = vec![
";

/// What stands between the servers and the manifest.
pub const MANIFEST: &'static str = "            ];
            future::try_join_all(servers).await?;
            Ok(())
        }
    }

    /// The deployment compiled in here (`config:` or the inline manifest keys;
    /// empty when neither is declared), for an embedder to overlay before
    /// `run_with`.
    pub fn manifest() -> omnia::ManifestSource {
        ";

/// What stands between the manifest and the bundle's type in `main`.
pub const MAIN: &'static str = "
    }

    /// Entry point: run the compiled-in deployment through this runtime's hosts
    /// and backends (raw argv passthrough for a command deployment compiled in
    /// here, otherwise the standard `run` grammar).
    #[tokio::main]
    pub async fn main() -> ::std::process::ExitCode {
        omnia::main::<";

/// What stands between the options of `main` and the mode in `run`.
pub const RUN: &'static str = ").await
    }

    /// Run one deployment through this runtime's hosts and backends, blocking
    /// until the guest completes.
    #[tokio::main]
    pub async fn run(builder: omnia::DeploymentBuilder) -> Result<omnia::ExitStatus> {
        let deployment = builder.mode(";

/// What stands between the bundle's type in `run` and the mode in `run_with`.
pub const RUN_WITH: &'static str = ", Hooks>(deployment).await
    }

    /// Run one deployment through this runtime's hosts over a bundle already in
    /// hand: nothing connects.
    pub async fn run_with<B>(
        builder: omnia::DeploymentBuilder, backends: B,
    ) -> Result<omnia::ExitStatus>
    where
        B: Clone + Send + Sync + 'static,
        Hooks: omnia::Wiring<B>,
    {
        let deployment = builder.mode(";

/// What stands behind the mode in `run_with`.
pub const TAIL: &'static str = ").build::<omnia::StoreCtx<B>>().await?;
        omnia::run_with::<B, Hooks>(deployment, backends).await
    }
}

#[allow(unused_imports)]
pub use runtime::{Hooks, main, manifest, run, run_with};
";

/// The bound of a context key on the bundle.
pub open spec fn bound(key: Seq<char>) -> Seq<char> {
    "        B: omnia::Provides<"@ + key + ">,\n"@
}

/// The link of a host.
pub open spec fn host_link(host: Seq<char>) -> Seq<char> {
    "            deployment.host::<"@ + host + ", B>()?;\n"@
}

/// The server of a host.
pub open spec fn host_server(host: Seq<char>) -> Seq<char> {
    "                Box::pin("@ + host + ".run(runtime)),\n"@
}

/// The texts that `f` gives of the names, one behind the other.
pub open spec fn lines(
    names: Seq<Seq<char>>,
    f: spec_fn(Seq<char>) -> Seq<char>,
) -> Seq<char> {
    crate::macros::codegen::each(names, f)
}

/// The expansion of a configuration. The loader host is linked, and the
/// declared locations are installed, where the configuration asks for it; no
/// other expansion names the loader.
pub open spec fn expansion(config: ConfigModel) -> Seq<char> {
    let hosts = crate::macros::codegen::host_type_texts(config.host_entries);
    let keys = crate::macros::codegen::ctx_texts(config.host_entries);
    let bundle = crate::macros::codegen::backends_type(config.host_entries);
    let manifest = crate::macros::codegen::manifest_text(config);
    HEAD@ + crate::macros::codegen::backends_text(config.host_entries) + HOOKS@ + lines(
        keys,
        |k: Seq<char>| bound(k),
    ) + LINK@ + (if config.link_loader {
        LOADER@
    } else {
        ""@
    }) + lines(hosts, |h: Seq<char>| host_link(h)) + LINKED@ + (if config.link_loader {
        EXTEND@
    } else {
        ""@
    }) + SERVE@ + lines(hosts, |h: Seq<char>| host_server(h)) + MANIFEST@ + (match manifest {
        Some(text) => text,
        None => "omnia::ManifestSource::Inline(omnia::Manifest::new())"@,
    }) + MAIN@ + bundle + ", Hooks>("@ + crate::macros::codegen::main_options_text(
        config.mode,
        manifest is Some,
    ) + RUN@ + config.mode.path() + ").build::<omnia::StoreCtx<"@ + bundle
        + ">>().await?;\n        omnia::run::<"@ + bundle + RUN_WITH@ + config.mode.path() + TAIL@
}

fn emit_lines<F: Fn(&str) -> String>(
    names: &Vec<String>,
    f: F,
    g: Ghost<spec_fn(Seq<char>) -> Seq<char>>,
) -> (text: String)
    requires
        forall|s: &str| #[trigger] call_requires(f, (s,)),
        forall|x: &str, s: String| #[trigger] call_ensures(f, (x,), s) ==> s@ == g@(x@),
    ensures
        text@ == lines(crate::text::views(names@), g@),
{
    let ghost models = crate::text::views(names@);
    let mut text = String::new();
    let mut i: usize = 0;
    assert(text@ =~= lines(models.take(0), g@));
    while i < names.len()
        invariant
            i <= names@.len(),
            models == crate::text::views(names@),
            forall|s: &str| #[trigger] call_requires(f, (s,)),
            forall|x: &str, s: String| #[trigger] call_ensures(f, (x,), s) ==> s@ == g@(x@),
            text@ == lines(models.take(i as int), g@),
        decreases names@.len() - i,
    {
        let piece = f(names[i].as_str());
        proof {
            assert(models.take(i + 1).drop_last() =~= models.take(i as int));
            assert(models.take(i + 1).last() == names@[i as int]@);
        }
        text.append(piece.as_str());
        i = i + 1;
    }
    assert(models.take(i as int) =~= models);
    text
}

fn emit_bound(key: &str) -> (s: String)
    ensures
        s@ == bound(key@),
{
    String::from_str("        B: omnia::Provides<").concat(key).concat(">,\n")
}

fn emit_host_link(host: &str) -> (s: String)
    ensures
        s@ == host_link(host@),
{
    String::from_str("            deployment.host::<").concat(host).concat(", B>()?;\n")
}

fn emit_host_server(host: &str) -> (s: String)
    ensures
        s@ == host_server(host@),
{
    String::from_str("                Box::pin(").concat(host).concat(".run(runtime)),\n")
}

/// Generate the runtime module from a parsed [`Config`].
pub fn expand(config: &Config) -> (text: String)
    ensures
        text@ == expansion(config@),
{
    let parts = Codegen::from_config(config);
    let bounds = emit_lines(&parts.ctx_keys, emit_bound, Ghost(|k: Seq<char>| bound(k)));
    let links = emit_lines(&parts.host_types, emit_host_link, Ghost(|h: Seq<char>| host_link(h)));
    let servers = emit_lines(
        &parts.host_types,
        emit_host_server,
        Ghost(|h: Seq<char>| host_server(h)),
    );
    let mut text = String::from_str(HEAD);
    text.append(parts.backends_def.as_str());
    text.append(HOOKS);
    text.append(bounds.as_str());
    text.append(LINK);
    text.append(
        if parts.link_loader {
            LOADER
        } else {
            ""
        },
    );
    text.append(links.as_str());
    text.append(LINKED);
    text.append(
        if parts.link_loader {
            EXTEND
        } else {
            ""
        },
    );
    text.append(SERVE);
    text.append(servers.as_str());
    text.append(MANIFEST);
    match &parts.manifest {
        Some(manifest) => {
            text.append(manifest.as_str());
        },
        None => {
            text.append("omnia::ManifestSource::Inline(omnia::Manifest::new())");
        },
    }
    text.append(MAIN);
    text.append(parts.backends_ty.as_str());
    text.append(", Hooks>(");
    text.append(parts.main_options.as_str());
    text.append(RUN);
    text.append(parts.mode.tokens());
    text.append(").build::<omnia::StoreCtx<");
    text.append(parts.backends_ty.as_str());
    text.append(">>().await?;\n        omnia::run::<");
    text.append(parts.backends_ty.as_str());
    text.append(RUN_WITH);
    text.append(parts.mode.tokens());
    text.append(TAIL);
    text
}

proof fn lemma_line(names: Seq<Seq<char>>, f: spec_fn(Seq<char>) -> Seq<char>, i: int)
    requires
        0 <= i < names.len(),
    ensures
        crate::text::holds(lines(names, f), f(names[i])),
    decreases names.len(),
{
    crate::text::holding_goes_on(f(names[i]));
    if i < names.len() - 1 {
        lemma_line(names.drop_last(), f, i);
        assert(names.drop_last()[i] == names[i]);
    }
}

/// Every host is wired in: the expansion links each row's host, serves it, and
/// asks of the bundle the context that the row is keyed by.
pub proof fn every_host_is_wired(config: ConfigModel, i: int)
    requires
        0 <= i < config.host_entries.len(),
    ensures
        ({
            let host = config.host_entries[i].host.text;
            &&& crate::text::holds(expansion(config), "deployment.host::<"@ + host + ", B>()?;"@)
            &&& crate::text::holds(expansion(config), "Box::pin("@ + host + ".run(runtime)),"@)
            &&& crate::text::holds(
                expansion(config),
                "B: omnia::Provides<"@ + crate::macros::codegen::ctx(host) + ">,"@,
            )
        }),
{
    let host = config.host_entries[i].host.text;
    let key = crate::macros::codegen::ctx(host);
    let hosts = crate::macros::codegen::host_type_texts(config.host_entries);
    let keys = crate::macros::codegen::ctx_texts(config.host_entries);
    assert(hosts[i] == host && keys[i] == key);
    reveal_strlit("            deployment.host::<");
    reveal_strlit("            ");
    reveal_strlit("deployment.host::<");
    reveal_strlit(", B>()?;\n");
    reveal_strlit(", B>()?;");
    reveal_strlit("\n");
    reveal_strlit("                Box::pin(");
    reveal_strlit("                ");
    reveal_strlit("Box::pin(");
    reveal_strlit(".run(runtime)),\n");
    reveal_strlit(".run(runtime)),");
    reveal_strlit("        B: omnia::Provides<");
    reveal_strlit("        ");
    reveal_strlit("B: omnia::Provides<");
    reveal_strlit(">,\n");
    reveal_strlit(">,");
    let link = "deployment.host::<"@ + host + ", B>()?;"@;
    let server = "Box::pin("@ + host + ".run(runtime)),"@;
    let asked = "B: omnia::Provides<"@ + key + ">,"@;
    assert(host_link(host) =~= "            "@ + link + "\n"@);
    assert(host_server(host) =~= "                "@ + server + "\n"@);
    assert(bound(key) =~= "        "@ + asked + "\n"@);
    lemma_line(hosts, |h: Seq<char>| host_link(h), i);
    lemma_line(hosts, |h: Seq<char>| host_server(h), i);
    lemma_line(keys, |k: Seq<char>| bound(k), i);
    lemma_within(expansion(config), host_link(host), link, "            "@, "\n"@);
    lemma_within(expansion(config), host_server(host), server, "                "@, "\n"@);
    lemma_within(expansion(config), bound(key), asked, "        "@, "\n"@);
    crate::text::holding_goes_on(host_link(host));
    crate::text::holding_goes_on(host_server(host));
    crate::text::holding_goes_on(bound(key));
}

proof fn lemma_within(
    text: Seq<char>,
    line: Seq<char>,
    part: Seq<char>,
    before: Seq<char>,
    behind: Seq<char>,
)
    requires
        line == before + part + behind,
    ensures
        crate::text::holds(text, line) ==> crate::text::holds(text, part),
{
    if crate::text::holds(text, line) {
        let i = choose|i: int|
            0 <= i && i + line.len() <= text.len() && #[trigger] text.subrange(i, i + line.len())
                == line;
        let k = i + before.len();
        assert(text.subrange(k, k + part.len()) =~= text.subrange(i, i + line.len()).subrange(
            before.len() as int,
            (before.len() + part.len()) as int,
        ));
        assert(line.subrange(before.len() as int, (before.len() + part.len()) as int) =~= part);
    }
}

/// The expansion carries the deployment: the bundle of its backends, its
/// manifest, an empty one where none is declared, and its mode, in `main`, in
/// `run` and in `run_with`.
pub proof fn expansions_carry_the_deployment(config: ConfigModel)
    ensures
        crate::text::holds(
            expansion(config),
            crate::macros::codegen::backends_text(config.host_entries),
        ),
        crate::text::holds(
            expansion(config),
            match crate::macros::codegen::manifest_text(config) {
                Some(text) => text,
                None => "omnia::ManifestSource::Inline(omnia::Manifest::new())"@,
            },
        ),
        crate::text::holds(
            expansion(config),
            "omnia::MainOptions::new("@ + (match config.mode {
                Mode::Server => "omnia::Mode::Server"@,
                Mode::Command => "omnia::Mode::Command"@,
            }) + (if crate::macros::codegen::manifest_text(config) is Some {
                ").manifest(manifest())"@
            } else {
                ")"@
            }),
        ),
{
    crate::text::holding_goes_on(crate::macros::codegen::backends_text(config.host_entries));
    crate::text::holding_goes_on(
        match crate::macros::codegen::manifest_text(config) {
            Some(text) => text,
            None => "omnia::ManifestSource::Inline(omnia::Manifest::new())"@,
        },
    );
    crate::text::holding_goes_on(
        crate::macros::codegen::main_options_text(
            config.mode,
            crate::macros::codegen::manifest_text(config) is Some,
        ),
    );
}

/// The loader is linked, and the declared locations are installed, where the
/// configuration asks for it; without it, the expansion is shorter by just
/// that.
pub proof fn the_loader_is_linked_where_asked(config: ConfigModel)
    ensures
        config.link_loader ==> crate::text::holds(expansion(config), LOADER@) && crate::text::holds(
            expansion(config),
            EXTEND@,
        ),
        expansion(ConfigModel { link_loader: true, ..config }).len() == expansion(
            ConfigModel { link_loader: false, ..config },
        ).len() + LOADER@.len() + EXTEND@.len(),
{
    reveal_strlit("");
    crate::text::holding_goes_on(LOADER@);
    crate::text::holding_goes_on(EXTEND@);
}

proof fn lemma_line_pair(names: Seq<Seq<char>>, f: spec_fn(Seq<char>) -> Seq<char>, i: int)
    requires
        0 <= i < names.len() - 1,
    ensures
        crate::text::holds(lines(names, f), f(names[i]) + f(names[i + 1])),
    decreases names.len(),
{
    let pair = f(names[i]) + f(names[i + 1]);
    crate::text::holding_goes_on(pair);
    let before = names.drop_last();
    if i < names.len() - 2 {
        lemma_line_pair(before, f, i);
        assert(before[i] == names[i] && before[i + 1] == names[i + 1]);
    } else {
        assert(before.last() == names[i]);
        let head = lines(before.drop_last(), f);
        assert(lines(before, f) == head + f(names[i]));
        assert(lines(names, f) =~= head + pair);
    }
}

/// Hosts are linked and served in the order of their rows, one right behind
/// the other.
pub proof fn hosts_are_wired_in_order(config: ConfigModel, i: int)
    requires
        0 <= i < config.host_entries.len() - 1,
    ensures
        ({
            let one = config.host_entries[i].host.text;
            let next = config.host_entries[i + 1].host.text;
            &&& crate::text::holds(expansion(config), host_link(one) + host_link(next))
            &&& crate::text::holds(expansion(config), host_server(one) + host_server(next))
        }),
{
    let one = config.host_entries[i].host.text;
    let next = config.host_entries[i + 1].host.text;
    let hosts = crate::macros::codegen::host_type_texts(config.host_entries);
    lemma_line_pair(hosts, |h: Seq<char>| host_link(h), i);
    lemma_line_pair(hosts, |h: Seq<char>| host_server(h), i);
    crate::text::holding_goes_on(host_link(one) + host_link(next));
    crate::text::holding_goes_on(host_server(one) + host_server(next));
}

} // verus!
