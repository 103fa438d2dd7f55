use aurora::condition::{condition_step, ConditionStep};
use aurora::Condition;
use aurora::executor::{beam_outcome, beam_run_blocks, hook_run_block, records_in_cache, runs_commands, skip_reason, started_event};
use aurora::runner::{command_verdict, pick_shell, shell_candidates, spawn_failure};
use aurora::{AuroraError, Beam, BeamEvent, BeamOutcome, CommandResult, CommandRunner, ExecutionReport, Hook, RunBlock, Shell, SkipReason, StrMap};

#[test]
fn cached_beams_are_skipped_before_conditions() {
    assert_eq!(skip_reason(true, true, Some(false)), Some(SkipReason::Cached));
    assert_eq!(skip_reason(false, true, Some(false)), Some(SkipReason::ConditionFalse));
    assert_eq!(skip_reason(true, false, Some(true)), None);
    assert_eq!(skip_reason(true, false, None), None);
}

#[test]
fn dry_run_executes_without_commands() {
    let skip = skip_reason(true, false, None);
    assert!(!runs_commands(skip, true));
    assert!(matches!(beam_outcome(skip, true, None), BeamOutcome::Executed));
    assert!(!records_in_cache(true, skip, true, &None));
}

#[test]
fn failures_are_reported() {
    let out = beam_outcome(None, false, Some("boom".to_string()));
    assert!(matches!(out, BeamOutcome::Failed(ref e) if e == "boom"));
    assert!(!records_in_cache(true, None, false, &Some("boom".to_string())));
    assert!(records_in_cache(true, None, false, &None));
}

#[test]
fn report_collects_outcomes() {
    let mut report = ExecutionReport::new();
    assert!(report.may_continue());
    assert!(matches!(started_event("a"), BeamEvent::Started { ref name } if name == "a"));
    let e = report.record("a", BeamOutcome::Executed, 5);
    assert!(matches!(e, BeamEvent::Completed { ref name, duration_ms: 5 } if name == "a"));
    let e = report.record("b", BeamOutcome::Skipped(SkipReason::Cached), 0);
    assert!(matches!(e, BeamEvent::Skipped { reason: SkipReason::Cached, .. }));
    assert!(report.may_continue());
    let e = report.record("c", BeamOutcome::Failed("bad".to_string()), 0);
    assert!(matches!(e, BeamEvent::Failed { ref error, .. } if error == "bad"));
    assert_eq!(report.executed, vec!["a"]);
    assert_eq!(report.skipped, vec!["b"]);
    assert_eq!(report.failed, vec![("c".to_string(), "bad".to_string())]);
    assert!(!report.may_continue());
}

#[test]
fn false_condition_skips_the_beam() {
    let mut report = ExecutionReport::new();
    let skip = skip_reason(true, false, Some(false));
    report.record("beam", beam_outcome(skip, false, None), 0);
    assert_eq!(report.skipped, vec!["beam"]);
    assert!(report.executed.is_empty());
}

#[test]
fn run_blocks_in_order() {
    let b = Beam::new("b")
        .with_pre_hooks(vec![Hook::new(vec!["pre".to_string()]).fail_on_error(false)])
        .with_run(RunBlock::from_strings(vec!["main".to_string()]))
        .with_post_hooks(vec![Hook::new(vec!["post".to_string()])]);
    let blocks = beam_run_blocks(&b);
    assert_eq!(blocks.len(), 3);
    assert_eq!(blocks[0].commands[0].command, "pre");
    assert!(!blocks[0].fail_fast);
    assert_eq!(blocks[1].commands[0].command, "main");
    assert_eq!(blocks[2].commands[0].command, "post");
    assert!(blocks[2].fail_fast);
    let h = hook_run_block(&Hook::new(vec!["x".to_string()]).with_working_dir("sub"));
    assert_eq!(h.working_dir.as_deref(), Some("sub"));
}

#[test]
fn shell_invocations() {
    let r = CommandRunner::new(".");
    let (prog, args) = r.shell_args("echo hello");
    assert_eq!(prog, "/bin/sh");
    assert_eq!(args, vec!["-c", "echo hello"]);
    let (prog, args) = Shell::PowerShell.args("dir");
    assert_eq!(prog, "powershell.exe");
    assert_eq!(args, vec!["-NoProfile", "-NonInteractive", "-Command", "dir"]);
    let (prog, args) = Shell::Cmd.args("dir");
    assert_eq!(prog, "cmd.exe");
    assert_eq!(args, vec!["/C", "dir"]);
    let r = r.with_shell_path("/bin/zsh");
    assert_eq!(r.shell_args("x").0, "/bin/zsh");
}

#[test]
fn shell_detection_takes_the_first_existing() {
    let c = shell_candidates();
    assert!(matches!(pick_shell(&c, &vec![false, true, true, false]), Shell::Unix { ref path } if path == "/bin/sh"));
    assert!(matches!(pick_shell(&c, &vec![true, true, true, true]), Shell::Unix { ref path } if path == "/bin/bash"));
    assert!(matches!(pick_shell(&c, &vec![false, false, false, false]), Shell::Unix { ref path } if path == "/bin/sh"));
}

#[test]
fn nonzero_exit_fails_only_fail_fast_blocks() {
    let failing = CommandResult { exit_code: 42, stdout: String::new(), stderr: "err".to_string() };
    let ok = CommandResult { exit_code: 0, stdout: "hello".to_string(), stderr: String::new() };
    let strict = RunBlock::from_strings(vec!["exit 42".to_string()]);
    let lenient = RunBlock::from_strings(vec!["exit 42".to_string()]).with_fail_fast(false);
    match command_verdict(&strict, "exit 42", &failing) {
        Err(AuroraError::CommandFailed { command, exit_code, stderr }) => {
            assert_eq!(command, "exit 42");
            assert_eq!(exit_code, Some(42));
            assert_eq!(stderr.as_deref(), Some("err"));
        }
        _ => panic!("expected a failure"),
    }
    assert!(command_verdict(&lenient, "exit 42", &failing).is_ok());
    assert!(command_verdict(&strict, "echo hello", &ok).is_ok());
    assert!(matches!(spawn_failure("x", "no such file"), AuroraError::CommandFailed { exit_code: None, .. }));
}

#[test]
fn environment_and_directory_of_a_block() {
    let mut base = StrMap::new();
    base.insert("A".to_string(), "1".to_string());
    base.insert("B".to_string(), "2".to_string());
    let runner = CommandRunner::new("/work").with_env(&base);
    let mut extra = StrMap::new();
    extra.insert("B".to_string(), "3".to_string());
    let env = runner.merged_env(&extra);
    assert_eq!(env.get("A").unwrap(), "1");
    assert_eq!(env.get("B").unwrap(), "3");
    let run = RunBlock::from_strings(vec![]);
    assert_eq!(runner.block_dir(&run), "/work");
    assert_eq!(runner.block_dir(&run.with_working_dir("/other")), "/other");
}

#[test]
fn runner_detects_the_first_existing_shell() {
    let r = CommandRunner::new(".").with_detected_shell(&vec![false, false, true, true]);
    assert_eq!(r.shell_args("x").0, "/usr/bin/bash");
    let r = CommandRunner::new(".").with_detected_shell(&vec![false, false, false, false]);
    assert_eq!(r.shell_args("x").0, "/bin/sh");
    assert_eq!(shell_candidates(), vec!["/bin/bash", "/bin/sh", "/usr/bin/bash", "/usr/bin/sh"]);
}

#[test]
fn condition_steps_follow_short_circuit_order() {
    let c = Condition::and(vec![
        Condition::file_exists("a"),
        Condition::negate(Condition::env_set("B")),
        Condition::or(vec![Condition::env_set("C"), Condition::file_exists("d")]),
    ]);
    assert!(matches!(condition_step(&c, &vec![]), ConditionStep::Probe(Condition::FileExists(ref p)) if p == "a"));
    assert!(matches!(condition_step(&c, &vec![false]), ConditionStep::Done(false)));
    assert!(matches!(condition_step(&c, &vec![true]), ConditionStep::Probe(Condition::EnvSet(ref n)) if n == "B"));
    assert!(matches!(condition_step(&c, &vec![true, true]), ConditionStep::Done(false)));
    assert!(matches!(condition_step(&c, &vec![true, false]), ConditionStep::Probe(Condition::EnvSet(ref n)) if n == "C"));
    assert!(matches!(condition_step(&c, &vec![true, false, true]), ConditionStep::Done(true)));
    assert!(matches!(condition_step(&c, &vec![true, false, false]), ConditionStep::Probe(Condition::FileExists(ref p)) if p == "d"));
    assert!(matches!(condition_step(&Condition::and(vec![]), &vec![]), ConditionStep::Done(true)));
    assert!(matches!(condition_step(&Condition::or(vec![]), &vec![]), ConditionStep::Done(false)));
}

#[test]
fn minimal_manifest_has_no_optional_fields() {
    let m = aurora::PluginManifest::minimal("my-plugin", "0.1.0");
    assert!(m.plugin.author.is_none() && m.plugin.license.is_none() && m.plugin.homepage.is_none());
    assert!(!m.capabilities.network && m.dependencies.is_empty());
}
