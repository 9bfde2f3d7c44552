use anstyle::{AnsiColor, Color};
use quake::dirty::{is_dirty, latest_timestamp};
use quake::errors::{CliResult, EngineError, QuakeError, CAUSE_INTERNAL, CAUSE_OTHER, CAUSE_USER};
use quake::log::LogLevel;
use quake::metadata::TaskCallMetadata;
use quake::options::{parse_config_property, EngineOptions};
use quake::project::{build_script_names, find_build_script, DirProbe, Project};

fn meta(sources: &[&str], artifacts: &[&str]) -> TaskCallMetadata {
    TaskCallMetadata {
        dependencies: vec![],
        sources: sources.iter().map(|s| s.to_string()).collect(),
        artifacts: artifacts.iter().map(|s| s.to_string()).collect(),
    }
}

#[test]
fn dirtiness_follows_modification_times() {
    let t = meta(&["s.txt"], &["a.out"]);
    // a.out is newer than s.txt: skip
    assert!(!is_dirty(&t, &vec![Some(100)], &vec![Some(200)]));
    // after touching s.txt: run
    assert!(is_dirty(&t, &vec![Some(300)], &vec![Some(200)]));
    // equal times are not dirty
    assert!(!is_dirty(&t, &vec![Some(200)], &vec![Some(200)]));
}

#[test]
fn dirtiness_edge_cases() {
    // nothing declared on one side: always run
    assert!(is_dirty(&meta(&[], &["a.out"]), &vec![], &vec![Some(1)]));
    assert!(is_dirty(&meta(&["s"], &[]), &vec![Some(1)], &vec![]));
    let t = meta(&["s"], &["a"]);
    // missing artifact, existing source: run
    assert!(is_dirty(&t, &vec![Some(5)], &vec![None]));
    // missing source, existing artifact: skip
    assert!(!is_dirty(&t, &vec![None], &vec![Some(5)]));
    // both missing: skip
    assert!(!is_dirty(&t, &vec![None], &vec![None]));
}

#[test]
fn second_run_skips_after_build() {
    let t = meta(&["a.c", "b.c"], &["app"]);
    let sources = vec![Some(10), Some(40)];
    // first run: the artifact does not exist yet
    assert!(is_dirty(&t, &sources, &vec![None]));
    // the run wrote the artifact; nothing changed since
    let artifacts = vec![Some(50)];
    assert!(!is_dirty(&t, &sources, &artifacts));
    assert!(!is_dirty(&t, &sources, &artifacts));
}

#[test]
fn latest_timestamp_is_the_maximum_of_existing_paths() {
    assert_eq!(latest_timestamp(&vec![]), None);
    assert_eq!(latest_timestamp(&vec![None, None]), None);
    assert_eq!(latest_timestamp(&vec![Some(3), None, Some(-7), Some(12), Some(5)]), Some(12));
}

#[test]
fn forcing_always_runs() {
    let options = EngineOptions { quiet: false, json: false, force: true, watch: false };
    assert!(options.must_run(false));
    let options = EngineOptions { force: false, ..options };
    assert!(!options.must_run(false));
    assert!(options.must_run(true));
}

fn probe(path: &str, is_dir: bool, present: [bool; 2]) -> DirProbe {
    let names = build_script_names();
    DirProbe {
        path: path.to_string(),
        is_dir,
        scripts: names
            .iter()
            .zip(present)
            .map(|(n, p)| (format!("{path}/{n}"), p))
            .collect(),
    }
}

#[test]
fn build_script_precedence() {
    assert_eq!(build_script_names(), vec!["build.quake", "build.quake.nu"]);
    assert_eq!(find_build_script(&probe("/p", true, [true, true])), Some("/p/build.quake".to_string()));
    assert_eq!(
        find_build_script(&probe("/p", true, [false, true])),
        Some("/p/build.quake.nu".to_string())
    );
    assert_eq!(find_build_script(&probe("/p", true, [false, false])), None);
}

#[test]
fn opening_a_project() {
    let p = Project::new(&probe("/p", true, [false, true])).unwrap();
    assert_eq!(p.project_root(), "/p");
    assert_eq!(p.build_script(), "/p/build.quake.nu");
    assert_eq!(Project::new(&probe("/p", false, [true, true])).unwrap_err(), QuakeError::ProjectNotFound);
    assert_eq!(
        Project::new(&probe("/p", true, [false, false])).unwrap_err(),
        QuakeError::BuildScriptNotFound
    );
}

#[test]
fn locating_a_project_upwards() {
    let dirs = vec![
        probe("/a/b/c", true, [false, false]),
        probe("/a/b", true, [false, true]),
        probe("/a", true, [true, false]),
    ];
    let p = Project::locate(&dirs).unwrap();
    assert_eq!(p.project_root(), "/a/b");
    assert_eq!(p.build_script(), "/a/b/build.quake.nu");
    let none = vec![probe("/x", true, [false, false]), probe("/", true, [false, false])];
    assert_eq!(Project::locate(&none).unwrap_err(), QuakeError::ProjectNotFound);
    let not_dir = vec![probe("/f", false, [true, true])];
    assert_eq!(Project::locate(&not_dir).unwrap_err(), QuakeError::ProjectNotFound);
    assert_eq!(Project::locate(&vec![]).unwrap_err(), QuakeError::ProjectNotFound);
}

#[test]
fn config_properties_split_at_first_equals() {
    assert_eq!(
        parse_config_property("toolchain=gcc=12"),
        Ok(("toolchain".to_string(), "gcc=12".to_string()))
    );
    assert_eq!(parse_config_property("k="), Ok(("k".to_string(), String::new())));
    assert_eq!(parse_config_property("=v"), Ok((String::new(), "v".to_string())));
    assert_eq!(
        parse_config_property("novalue"),
        Err(QuakeError::InvalidConfigProperty { property: "novalue".to_string() })
    );
}

#[test]
fn log_levels() {
    assert_eq!(LogLevel::Info.name(), "info");
    assert_eq!(LogLevel::Warning.name(), "warn");
    assert_eq!(LogLevel::Error.name(), "error");
    assert_eq!(LogLevel::Fatal.name(), "fatal");
    assert_eq!(LogLevel::Info.color(), Color::Ansi(AnsiColor::BrightWhite));
    assert_eq!(LogLevel::Warning.color(), Color::Ansi(AnsiColor::Yellow));
    assert_eq!(LogLevel::Error.color(), Color::Ansi(AnsiColor::BrightRed));
    assert_eq!(LogLevel::Fatal.color(), Color::Ansi(AnsiColor::Red));
}

#[test]
fn exit_codes() {
    assert_eq!(EngineError::TaskFailed { task_name: "t".to_string() }.exit_code(), CAUSE_USER);
    assert_eq!(CAUSE_USER, 1);
    assert_eq!(EngineError::ParseFailed.exit_code(), 127);
    assert_eq!(EngineError::EvalFailed.exit_code(), CAUSE_OTHER);
    assert_eq!(EngineError::LoadFailed.exit_code(), 127);
    assert_eq!(EngineError::Other { message: "io".to_string() }.exit_code(), 127);
    let internal = EngineError::internal("bad".to_string());
    assert_eq!(internal, EngineError::Internal { message: "bad".to_string() });
    assert_eq!(internal.exit_code(), CAUSE_INTERNAL);
    assert_eq!(CAUSE_INTERNAL, 255);
    assert_eq!(CliResult::success().exit_code(), 0);
    assert!(CliResult::success().inner().is_ok());
    let failed: CliResult<u32> = CliResult::new(Err(EngineError::EvalFailed));
    assert_eq!(failed.exit_code(), 127);
    assert_eq!(failed.inner(), &Err(EngineError::EvalFailed));
}
