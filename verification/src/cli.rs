//! Entry planning for the `run` grammar: the parsed command line and the
//! environment resolve into a [`RunPlan`].
//!
//! [`plan`] is pure with respect to the process (what argv parsed to and
//! `OMNIA_CONFIG` are parameters). `P` is the type of a path, `M` that of a
//! mount argument, and `U` that of a usage error.

use vstd::prelude::*;
use vstd::string::StringExecFns;

verus! {

/// The arguments of `run`.
#[derive(Debug, PartialEq, Eq)]
pub struct RunArgs<P, M> {
    /// The positional wasm path.
    pub wasm: Option<P>,
    /// `--config`.
    pub config: Option<P>,
    /// `--mount` arguments, in argv order.
    pub mounts: Vec<M>,
    /// `--link` arguments, in argv order.
    pub link: Vec<String>,
    /// Everything after `--`.
    pub args: Vec<String>,
}

/// The parsed subcommand.
#[derive(Debug, PartialEq, Eq)]
pub enum Command<P, M> {
    /// Run a deployment.
    Run(RunArgs<P, M>),
    /// Compile a guest.
    Compile,
}

/// Why entry planning stopped before a run plan could be produced.
#[derive(Debug, PartialEq, Eq)]
pub enum PlanError<U> {
    /// An outcome of the argument parser (usage error, `--help`,
    /// `--version`), for its own stream and exit code.
    Usage(U),
    /// A startup failure reported on stderr.
    Fatal(String),
}

/// Where the deployment comes from: the `--config`, `OMNIA_CONFIG`, `<wasm>`,
/// compiled-in ladder, decided over plain data.
#[derive(Debug, PartialEq, Eq)]
pub enum RunSource<P> {
    /// A `--config` / `OMNIA_CONFIG` manifest path.
    Config(P),
    /// A positional wasm path.
    Wasm(P),
    /// The generated `main`'s compiled-in manifest, not loaded here.
    CompiledIn,
}

/// The planner's outcome: source, CLI mounts, link interfaces, and guest argv.
#[derive(Debug, PartialEq, Eq)]
pub struct RunPlan<P, M> {
    /// Which source the precedence ladder selected.
    pub source: RunSource<P>,
    /// `--mount` arguments, in argv order.
    pub mounts: Vec<M>,
    /// `--link` arguments, in argv order.
    pub link: Vec<String>,
    /// Arguments forwarded to the guest as its argv (everything after `--`).
    pub args: Vec<String>,
}

/// The source that the precedence ladder selects, if there is one.
pub open spec fn source<P>(
    config: Option<P>,
    omnia_config: Option<P>,
    wasm: Option<P>,
    has_compiled_in: bool,
) -> Option<RunSource<P>> {
    match (config, omnia_config, wasm) {
        (Some(path), _, _) => Some(RunSource::Config(path)),
        (None, Some(path), _) => Some(RunSource::Config(path)),
        (None, None, Some(path)) => Some(RunSource::Wasm(path)),
        (None, None, None) => if has_compiled_in {
            Some(RunSource::CompiledIn)
        } else {
            None
        },
    }
}

/// Plan the standard `run [wasm] [--config] -- args…` grammar, resolving the
/// source by the `--config`, `OMNIA_CONFIG`, positional wasm, compiled-in
/// ladder.
///
/// `has_compiled_in` is whether the generated `main` compiled a manifest in;
/// this function does not load it.
///
/// # Errors
///
/// Returns [`PlanError::Usage`] when the command line was rejected, or
/// [`PlanError::Fatal`] when no source is available or the subcommand is not
/// `run`.
pub fn plan<P, M, U>(
    parsed: Result<Command<P, M>, U>,
    omnia_config: Option<P>,
    has_compiled_in: bool,
) -> (r: Result<RunPlan<P, M>, PlanError<U>>)
    ensures
        match parsed {
            Err(usage) => r == Err::<RunPlan<P, M>, PlanError<U>>(PlanError::Usage(usage)),
            Ok(Command::Compile) => r matches Err(PlanError::Fatal(text)) && text@
                == "the generated `main` only supports `run`; supply a custom `main` for other subcommands"@,
            Ok(Command::Run(args)) => match source(
                args.config,
                omnia_config,
                args.wasm,
                has_compiled_in,
            ) {
                Some(from) => r == Ok::<RunPlan<P, M>, PlanError<U>>(
                    RunPlan {
                        source: from,
                        mounts: args.mounts,
                        link: args.link,
                        args: args.args,
                    },
                ),
                None => r matches Err(PlanError::Fatal(text)) && text@
                    == "no guest specified: pass a <wasm> path, or --config <omnia.toml> (or set OMNIA_CONFIG)"@,
            },
        },
{
    let RunArgs { wasm, config, mounts, link, args } = match parsed {
        Err(usage) => {
            return Err(PlanError::Usage(usage));
        },
        Ok(Command::Compile) => {
            return Err(
                PlanError::Fatal(
                    String::from_str(
                        "the generated `main` only supports `run`; supply a custom `main` for other subcommands",
                    ),
                ),
            );
        },
        Ok(Command::Run(args)) => args,
    };
    let config = match config {
        Some(config) => Some(config),
        None => omnia_config,
    };
    let source = match (config, wasm) {
        (Some(config), _) => RunSource::Config(config),
        (None, Some(wasm)) => RunSource::Wasm(wasm),
        (None, None) => {
            if has_compiled_in {
                RunSource::CompiledIn
            } else {
                return Err(
                    PlanError::Fatal(
                        String::from_str(
                            "no guest specified: pass a <wasm> path, or --config <omnia.toml> (or set OMNIA_CONFIG)",
                        ),
                    ),
                );
            }
        },
    };
    Ok(RunPlan { source, mounts, link, args })
}

/// A deployment always has a source unless nothing names one: no manifest, no
/// wasm path and no compiled-in manifest.
pub proof fn sourceless_only_without_any<P>(
    config: Option<P>,
    omnia_config: Option<P>,
    wasm: Option<P>,
    has_compiled_in: bool,
)
    ensures
        source(config, omnia_config, wasm, has_compiled_in) is None <==> (config is None
            && omnia_config is None && wasm is None && !has_compiled_in),
{
}

/// A source that ranks higher decides alone: `--config` over `OMNIA_CONFIG`,
/// that over a wasm path, and that over what is compiled in, whatever the lower
/// ones are.
pub proof fn higher_sources_decide<P>(
    path: P,
    config: Option<P>,
    wasm: Option<P>,
    has_compiled_in: bool,
)
    ensures
        source(Some(path), config, wasm, has_compiled_in) == Some(RunSource::Config(path)),
        source(None, Some(path), wasm, has_compiled_in) == Some(RunSource::Config(path)),
        source(None, None, Some(path), has_compiled_in) == Some(RunSource::Wasm(path)),
        source(None::<P>, None, None, true) == Some(RunSource::<P>::CompiledIn),
{
}

/// A run carries its arguments over: the mounts, the links and the guest's
/// arguments of the plan are those of the command line.
pub proof fn plans_carry_their_arguments<P, M, U>(
    args: RunArgs<P, M>,
    omnia_config: Option<P>,
    has_compiled_in: bool,
    r: Result<RunPlan<P, M>, PlanError<U>>,
)
    requires
        call_ensures(
            plan::<P, M, U>,
            (Ok(Command::Run(args)), omnia_config, has_compiled_in),
            r,
        ),
    ensures
        r matches Ok(plan) ==> plan.mounts == args.mounts && plan.link == args.link && plan.args
            == args.args,
        r is Ok <==> args.config is Some || omnia_config is Some || args.wasm is Some
            || has_compiled_in,
{
}

} // verus!
