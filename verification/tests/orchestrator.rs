use featomatic::feature_set::FeatureSets;
use featomatic::invocation::{Invocation, PROGRAM};
use featomatic::options::Options;
use featomatic::orchestrator::Orchestrator;
use featomatic::outcome::{
    AggregateFailure, ExecutionError, RunOutcome, FAILURE_CODE, SUCCESS_CODE,
};
use std::cell::RefCell;

fn strings(items: &[&str]) -> Vec<String> {
    items.iter().map(|s| s.to_string()).collect()
}

fn copy_of(error: &ExecutionError) -> ExecutionError {
    match error {
        ExecutionError::SpawnFailure { message } => {
            ExecutionError::SpawnFailure { message: message.clone() }
        }
        ExecutionError::NonZeroExit { code, message } => {
            ExecutionError::NonZeroExit { code: *code, message: message.clone() }
        }
    }
}

fn non_zero(code: i32) -> ExecutionError {
    ExecutionError::NonZeroExit { code: Some(code), message: format!("exit code {}", code) }
}

/// Runs a plan with an executor that fails the invocations whose place in the
/// plan is in `failing`; gives the outcome, the invocations that ran and the
/// errors that were reported.
fn run_with_failures(
    base_args: &[&str],
    features: &[&str],
    failing: &[usize],
) -> (RunOutcome, Vec<Vec<String>>, Vec<ExecutionError>) {
    let ran: RefCell<Vec<Vec<String>>> = RefCell::new(Vec::new());
    let reported: RefCell<Vec<ExecutionError>> = RefCell::new(Vec::new());
    let mut orchestrator =
        Orchestrator::new(strings(base_args), FeatureSets::new(strings(features)));
    let outcome = orchestrator.run(
        |invocation: &Invocation| {
            let place = ran.borrow().len();
            ran.borrow_mut().push(invocation.args().clone());
            if failing.contains(&place) {
                Err(non_zero(place as i32 + 1))
            } else {
                Ok(())
            }
        },
        |_invocation: &Invocation| {},
        |error: &ExecutionError| reported.borrow_mut().push(copy_of(error)),
    );
    (outcome, ran.into_inner(), reported.into_inner())
}

#[test]
fn one_failure_among_the_sets_of_three_features() {
    let (outcome, ran, reported) =
        run_with_failures(&["test", "--no-default-features"], &["a", "b", "c"], &[2]);
    assert_eq!(ran.len(), 7);
    assert!(outcome.failed());
    assert_eq!(reported, vec![non_zero(3)]);
}

#[test]
fn baseline_succeeds_and_one_of_three_sets_fails() {
    // The pairs of three features are three feature sets: with the baseline
    // four invocations in all.
    let mut pairs = FeatureSets::new(strings(&["a", "b", "c"]));
    for _ in 0..3 {
        assert!(pairs.next_set().is_some());
    }
    let ran: RefCell<Vec<Vec<String>>> = RefCell::new(Vec::new());
    let reported: RefCell<Vec<ExecutionError>> = RefCell::new(Vec::new());
    let mut orchestrator = Orchestrator::new(strings(&["build", "--no-default-features"]), pairs);
    let outcome = orchestrator.run(
        |invocation: &Invocation| {
            ran.borrow_mut().push(invocation.args().clone());
            if invocation.args().last().map(String::as_str) == Some("a c") {
                Err(non_zero(101))
            } else {
                Ok(())
            }
        },
        |_invocation: &Invocation| {},
        |error: &ExecutionError| reported.borrow_mut().push(copy_of(error)),
    );
    assert_eq!(
        ran.into_inner(),
        vec![
            strings(&["build", "--no-default-features"]),
            strings(&["build", "--no-default-features", "--features", "a b"]),
            strings(&["build", "--no-default-features", "--features", "a c"]),
            strings(&["build", "--no-default-features", "--features", "b c"]),
        ]
    );
    assert_eq!(reported.into_inner(), vec![non_zero(101)]);
    assert!(outcome.failed());
    assert_eq!(outcome.exit_code(), 7);
}

#[test]
fn no_feature_sets_still_run_the_baseline() {
    for features in [&[][..], &["solo"][..]] {
        let (outcome, ran, reported) =
            run_with_failures(&["check", "--no-default-features"], features, &[]);
        assert_eq!(ran, vec![strings(&["check", "--no-default-features"])]);
        assert!(reported.is_empty());
        assert!(!outcome.failed());
        assert_eq!(outcome.exit_code(), 0);
    }
}

#[test]
fn failing_baseline_alone_fails_the_run() {
    let (outcome, ran, reported) = run_with_failures(&["check"], &["solo"], &[0]);
    assert_eq!(ran.len(), 1);
    assert_eq!(reported.len(), 1);
    assert!(outcome.failed());
}

#[test]
fn run_goes_through_every_invocation_whatever_fails() {
    let features = ["a", "b", "c", "d"];
    let total = 1 + 14;
    let cases: Vec<Vec<usize>> = vec![
        vec![],
        vec![0],
        vec![14],
        vec![3, 4, 5],
        (0..total).collect(),
        (0..total).filter(|place| place % 2 == 1).collect(),
    ];
    for failing in cases {
        let (outcome, ran, reported) = run_with_failures(&["test"], &features, &failing);
        assert_eq!(ran.len(), total);
        assert_eq!(reported.len(), failing.len());
        assert_eq!(outcome.failed(), !failing.is_empty());
        assert_eq!(outcome.exit_code(), if failing.is_empty() { 0 } else { 7 });
    }
}

#[test]
fn invocations_run_in_the_order_of_the_plan() {
    let (_, ran, _) =
        run_with_failures(&["test", "--no-default-features"], &["a", "b", "c"], &[]);
    let base = ["test", "--no-default-features"];
    let with = |set: &str| {
        let mut args = strings(&base);
        args.push("--features".to_string());
        args.push(set.to_string());
        args
    };
    assert_eq!(
        ran,
        vec![
            strings(&base),
            with("a"),
            with("b"),
            with("c"),
            with("a b"),
            with("a c"),
            with("b c"),
        ]
    );
}

#[test]
fn each_invocation_is_announced_before_it_runs() {
    let log: RefCell<Vec<String>> = RefCell::new(Vec::new());
    let mut orchestrator =
        Orchestrator::new(strings(&["test"]), FeatureSets::new(strings(&["a", "b"])));
    let outcome = orchestrator.run(
        |invocation: &Invocation| {
            log.borrow_mut().push(format!("run {}", invocation.args().join(" ")));
            if invocation.args().len() == 1 {
                Err(ExecutionError::SpawnFailure { message: "no such program".to_string() })
            } else {
                Ok(())
            }
        },
        |invocation: &Invocation| {
            log.borrow_mut().push(format!("announce {}", invocation.args().join(" ")))
        },
        |error: &ExecutionError| log.borrow_mut().push(format!("error {}", error.message())),
    );
    assert!(outcome.failed());
    assert_eq!(
        log.into_inner(),
        vec![
            "announce test",
            "run test",
            "error no such program",
            "announce test --features a",
            "run test --features a",
            "announce test --features b",
            "run test --features b",
        ]
    );
}

#[test]
fn spawn_failure_counts_as_failure() {
    let mut orchestrator = Orchestrator::new(strings(&["test"]), FeatureSets::new(strings(&[])));
    let outcome = orchestrator.run(
        |_invocation: &Invocation| {
            Err(ExecutionError::SpawnFailure { message: "not found".to_string() })
        },
        |_invocation: &Invocation| {},
        |_error: &ExecutionError| {},
    );
    assert!(outcome.failed());
    assert_eq!(
        outcome.into_result(),
        Err(AggregateFailure {
            code: 7,
            message: "at least one subcommand failed".to_string()
        })
    );
}

#[test]
fn next_invocation_hands_out_the_plan_step_by_step() {
    let mut orchestrator = Orchestrator::new(
        strings(&["build", "--no-default-features"]),
        FeatureSets::new(strings(&["x", "y"])),
    );
    let base = strings(&["build", "--no-default-features"]);
    assert_eq!(orchestrator.next_invocation(), Some(Invocation::baseline(&base)));
    assert_eq!(orchestrator.next_invocation(), Some(Invocation::new(&base, "x")));
    assert_eq!(orchestrator.next_invocation(), Some(Invocation::new(&base, "y")));
    assert_eq!(orchestrator.next_invocation(), None);
    assert_eq!(orchestrator.next_invocation(), None);
}

#[test]
fn run_takes_up_what_is_left_of_the_plan() {
    let mut orchestrator =
        Orchestrator::new(strings(&["build"]), FeatureSets::new(strings(&["x", "y"])));
    assert!(orchestrator.next_invocation().is_some());
    assert!(orchestrator.next_invocation().is_some());
    let ran: RefCell<Vec<Vec<String>>> = RefCell::new(Vec::new());
    let outcome = orchestrator.run(
        |invocation: &Invocation| {
            ran.borrow_mut().push(invocation.args().clone());
            Ok(())
        },
        |_invocation: &Invocation| {},
        |_error: &ExecutionError| {},
    );
    assert_eq!(ran.into_inner(), vec![strings(&["build", "--features", "y"])]);
    assert!(!outcome.failed());
}

#[test]
fn outcome_of_nothing_is_success() {
    let outcome = RunOutcome::new();
    assert!(!outcome.failed());
    assert_eq!(outcome.exit_code(), SUCCESS_CODE);
    assert_eq!(outcome.into_result(), Ok(()));
}

#[test]
fn outcome_keeps_a_failure_whatever_follows() {
    let invocation = Invocation::baseline(&strings(&["test"]));
    let mut outcome = RunOutcome::new();
    outcome.record(&invocation, &Ok(()));
    assert!(!outcome.failed());
    outcome.record(&invocation, &Err(non_zero(2)));
    assert!(outcome.failed());
    outcome.record(&invocation, &Ok(()));
    assert!(outcome.failed());
    assert_eq!(outcome.exit_code(), FAILURE_CODE);
}

#[test]
fn exit_codes_are_zero_and_seven() {
    assert_eq!(SUCCESS_CODE, 0);
    assert_eq!(FAILURE_CODE, 7);
}

#[test]
fn error_message_is_kept() {
    assert_eq!(non_zero(3).message(), "exit code 3");
    let spawn = ExecutionError::SpawnFailure { message: "missing".to_string() };
    assert_eq!(spawn.message(), "missing");
}

#[test]
fn invocation_appends_the_feature_set() {
    let base = strings(&["test", "--no-default-features"]);
    assert_eq!(
        Invocation::new(&base, "a b").args(),
        &strings(&["test", "--no-default-features", "--features", "a b"])
    );
    assert_eq!(Invocation::new(&base, "").args(), &base);
    assert_eq!(Invocation::baseline(&base).args(), &base);
    assert_eq!(Invocation::new(&Vec::new(), "x").args(), &strings(&["--features", "x"]));
}

#[test]
fn argv_starts_with_the_program() {
    let base = strings(&["test", "--no-default-features"]);
    assert_eq!(
        Invocation::new(&base, "a").argv(),
        strings(&["cargo", "test", "--no-default-features", "--features", "a"])
    );
    assert_eq!(Invocation::baseline(&Vec::new()).argv(), strings(&["cargo"]));
}

#[test]
fn program_is_cargo() {
    assert_eq!(PROGRAM, "cargo");
}

fn plain_options(args: &[&str]) -> Options {
    Options {
        args: strings(args),
        version: false,
        verbose: 0,
        quiet: None,
        manifest_path: None,
        color: None,
        frozen: false,
        locked: false,
    }
}

#[test]
fn base_args_of_plain_options() {
    assert_eq!(
        plain_options(&["test", "--release"]).base_args(),
        strings(&["test", "--release", "--no-default-features"])
    );
    assert_eq!(plain_options(&[]).base_args(), strings(&["--no-default-features"]));
}

#[test]
fn base_args_hand_every_option_on_in_its_place() {
    let options = Options {
        args: strings(&["build"]),
        version: false,
        verbose: 2,
        quiet: Some(true),
        manifest_path: Some("sub/Cargo.toml".to_string()),
        color: Some("always".to_string()),
        frozen: true,
        locked: true,
    };
    assert_eq!(
        options.base_args(),
        strings(&[
            "build",
            "--verbose",
            "--verbose",
            "--quiet",
            "--manifest-path",
            "sub/Cargo.toml",
            "--color",
            "always",
            "--frozen",
            "--locked",
            "--no-default-features",
        ])
    );
}

#[test]
fn base_args_leave_out_what_was_not_asked_for() {
    let mut options = plain_options(&["test"]);
    options.quiet = Some(false);
    options.verbose = 1;
    options.locked = true;
    assert_eq!(
        options.base_args(),
        strings(&["test", "--verbose", "--locked", "--no-default-features"])
    );
    options = plain_options(&["test"]);
    options.color = Some("never".to_string());
    assert_eq!(
        options.base_args(),
        strings(&["test", "--color", "never", "--no-default-features"])
    );
}
