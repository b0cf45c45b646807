//! Source precedence of the `run` grammar.

use clap::{Arg, ArgAction, Command as Grammar};
use omnia::cli::{plan, Command, PlanError, RunArgs, RunPlan, RunSource};

type Plan = Result<RunPlan<String, String>, PlanError<clap::Error>>;

fn parse(argv: &[&str]) -> Result<Command<String, String>, clap::Error> {
    let list = |name: &'static str| Arg::new(name).long(name).action(ArgAction::Append);
    let matches = Grammar::new("bin")
        .subcommand_required(true)
        .subcommand(
            Grammar::new("run")
                .arg(Arg::new("wasm"))
                .arg(Arg::new("config").long("config"))
                .arg(list("mount"))
                .arg(list("link"))
                .arg(Arg::new("args").last(true).num_args(0..)),
        )
        .subcommand(Grammar::new("compile"))
        .try_get_matches_from(argv)?;
    Ok(match matches.subcommand() {
        Some(("run", run)) => {
            let all = |name: &str| {
                run.get_many::<String>(name).map(|v| v.cloned().collect()).unwrap_or_default()
            };
            Command::Run(RunArgs {
                wasm: run.get_one::<String>("wasm").cloned(),
                config: run.get_one::<String>("config").cloned(),
                mounts: all("mount"),
                link: all("link"),
                args: all("args"),
            })
        }
        _ => Command::Compile,
    })
}

fn planned(argv: &[&str], omnia_config: Option<&str>, has_compiled_in: bool) -> Plan {
    plan(parse(argv), omnia_config.map(str::to_owned), has_compiled_in)
}

fn source(plan: Plan) -> RunSource<String> {
    plan.unwrap_or_else(|error| panic!("{error:?}")).source
}

fn config(path: &str) -> RunSource<String> {
    RunSource::Config(path.to_owned())
}

fn wasm(path: &str) -> RunSource<String> {
    RunSource::Wasm(path.to_owned())
}

#[test]
fn config_beats_positional_wasm_and_compiled_source() {
    let plan = planned(&["bin", "run", "guest.wasm", "--config", "omnia.toml"], None, true);
    assert_eq!(source(plan), config("omnia.toml"));
    let plan = planned(&["bin", "run", "--config", "omnia.toml"], Some("env.toml"), true);
    assert_eq!(source(plan), config("omnia.toml"));
}

#[test]
fn omnia_config_env_beats_positional_wasm() {
    let plan = planned(&["bin", "run", "guest.wasm"], Some("from_env.toml"), false);
    assert_eq!(source(plan), config("from_env.toml"));
}

#[test]
fn positional_wasm_beats_compiled_source() {
    assert_eq!(source(planned(&["bin", "run", "guest.wasm"], None, true)), wasm("guest.wasm"));
}

#[test]
fn compiled_source_is_the_fallback() {
    assert_eq!(source(planned(&["bin", "run"], None, true)), RunSource::CompiledIn);
}

#[test]
fn no_source_fails() {
    match planned(&["bin", "run"], None, false) {
        Err(PlanError::Fatal(text)) => assert!(text.contains("no guest specified")),
        other => panic!("a sourceless deployment must fail: {other:?}"),
    }
}

#[test]
fn link_flag_is_collected() {
    let plan = planned(
        &["bin", "run", "guest.wasm", "--link", "omnia:link/echo", "--mount", ".", "--", "a", "b"],
        None,
        false,
    )
    .unwrap_or_else(|error| panic!("{error:?}"));
    assert_eq!(plan.link, ["omnia:link/echo"]);
    assert_eq!(plan.mounts, ["."]);
    assert_eq!(plan.args, ["a", "b"]);
}

#[test]
fn command_mode_without_deployment_keeps_run_grammar() {
    assert_eq!(source(planned(&["bin", "run", "guest.wasm"], None, false)), wasm("guest.wasm"));
}

#[test]
fn usage_error_is_delegated_to_clap() {
    assert!(matches!(planned(&["bin", "bogus"], None, false), Err(PlanError::Usage(_))));
}

#[test]
fn other_subcommands_need_a_custom_main() {
    match planned(&["bin", "compile"], None, true) {
        Err(PlanError::Fatal(text)) => assert!(text.starts_with("the generated `main` only")),
        other => panic!("compile is not planned: {other:?}"),
    }
}
