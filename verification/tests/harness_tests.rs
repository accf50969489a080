use vga_console::test_runner;
use vga_console::Harness;
use vga_console::Check;
use vga_console::CheckOutcome;
use vga_console::HarnessEvent;
use vga_console::QemuExitCode;
use vga_console::Testable;

fn passing(name: &str) -> Check {
    Check { name: name.to_string(), outcome: CheckOutcome::Passed }
}

fn failing(name: &str, details: &str) -> Check {
    Check { name: name.to_string(), outcome: CheckOutcome::Aborted(details.to_string()) }
}

struct TrivialAssertion;

impl Testable for TrivialAssertion {
    fn name(&self) -> String {
        "trivial_assertion".to_string()
    }

    fn run(&self) -> CheckOutcome {
        if 1 + 1 == 2 {
            CheckOutcome::Passed
        } else {
            CheckOutcome::Aborted("Uh oh.".to_string())
        }
    }
}

#[test]
fn exit_codes_match_the_protocol() {
    assert_eq!(QemuExitCode::Success.code(), 0x10);
    assert_eq!(QemuExitCode::Failed.code(), 0x11);
}

#[test]
fn all_passing_run_signals_success() {
    let checks = vec![passing("one"), passing("two"), passing("three")];
    let (events, exit) = test_runner(&checks);
    assert_eq!(exit, QemuExitCode::Success);
    assert_eq!(exit.code(), 0x10);
    assert_eq!(events.len(), 8);
    match &events[0] {
        HarnessEvent::RunningCount(n) => assert_eq!(*n, 3),
        other => panic!("unexpected first event: {:?}", other),
    }
    let oks = events.iter().filter(|e| matches!(e, HarnessEvent::TestOk)).count();
    assert_eq!(oks, 3);
    assert!(matches!(events[7], HarnessEvent::AllPassed));
}

#[test]
fn failing_run_short_circuits() {
    let checks = vec![
        passing("first"),
        failing("second", "assertion failed"),
        passing("third"),
    ];
    let (events, exit) = test_runner(&checks);
    assert_eq!(exit, QemuExitCode::Failed);
    assert_eq!(exit.code(), 0x11);
    assert_eq!(events.len(), 5);
    match &events[1] {
        HarnessEvent::TestStarted(name) => assert_eq!(name, "first"),
        other => panic!("unexpected event: {:?}", other),
    }
    assert!(matches!(events[2], HarnessEvent::TestOk));
    match &events[3] {
        HarnessEvent::TestStarted(name) => assert_eq!(name, "second"),
        other => panic!("unexpected event: {:?}", other),
    }
    match &events[4] {
        HarnessEvent::TestAborted(details) => assert_eq!(details, "assertion failed"),
        other => panic!("unexpected event: {:?}", other),
    }
    for event in &events {
        if let HarnessEvent::TestStarted(name) = event {
            assert_ne!(name, "third");
        }
    }
}

#[test]
fn first_check_failing_reports_nothing_else() {
    let checks = vec![failing("only", "boom"), passing("never")];
    let (events, exit) = test_runner(&checks);
    assert_eq!(exit, QemuExitCode::Failed);
    assert_eq!(events.len(), 3);
    assert!(matches!(&events[0], HarnessEvent::RunningCount(2)));
    match &events[1] {
        HarnessEvent::TestStarted(name) => assert_eq!(name, "only"),
        other => panic!("unexpected event: {:?}", other),
    }
    match &events[2] {
        HarnessEvent::TestAborted(details) => assert_eq!(details, "boom"),
        other => panic!("unexpected event: {:?}", other),
    }
}

#[test]
fn empty_run_passes() {
    let checks: Vec<Check> = Vec::new();
    let (events, exit) = test_runner(&checks);
    assert_eq!(exit, QemuExitCode::Success);
    assert_eq!(events.len(), 2);
    assert!(matches!(events[0], HarnessEvent::RunningCount(0)));
    assert!(matches!(events[1], HarnessEvent::AllPassed));
}

#[test]
fn stepping_harness_reports_a_passing_run() {
    let (mut harness, header) = Harness::begin(2);
    assert!(matches!(header, HarnessEvent::RunningCount(2)));
    assert!(!harness.is_done());

    let started = harness.start("one".to_string());
    match &started {
        HarnessEvent::TestStarted(name) => assert_eq!(name, "one"),
        other => panic!("unexpected event: {:?}", other),
    }
    let (marker, signal) = harness.finish(CheckOutcome::Passed);
    assert!(matches!(marker, HarnessEvent::TestOk));
    assert!(signal.is_none());

    let started = harness.start("two".to_string());
    assert!(matches!(&started, HarnessEvent::TestStarted(_)));
    let (marker, signal) = harness.finish(CheckOutcome::Passed);
    assert!(matches!(marker, HarnessEvent::TestOk));
    assert!(signal.is_none());
    assert_eq!(harness.remaining_count(), 0);

    let (closing, exit) = harness.conclude();
    assert!(matches!(closing, HarnessEvent::AllPassed));
    assert_eq!(exit, QemuExitCode::Success);
    assert_eq!(exit.code(), 0x10);
}

#[test]
fn stepping_harness_turns_terminal_on_the_first_failure() {
    let (mut harness, header) = Harness::begin(3);
    assert!(matches!(header, HarnessEvent::RunningCount(3)));

    let started = harness.start("first".to_string());
    assert!(matches!(&started, HarnessEvent::TestStarted(_)));
    let (marker, signal) = harness.finish(CheckOutcome::Passed);
    assert!(matches!(marker, HarnessEvent::TestOk));
    assert!(signal.is_none());
    assert!(!harness.is_done());

    let _ = harness.start("second".to_string());
    let (marker, signal) =
        harness.finish(CheckOutcome::Aborted("assertion failed".to_string()));
    match &marker {
        HarnessEvent::TestAborted(details) => assert_eq!(details, "assertion failed"),
        other => panic!("unexpected event: {:?}", other),
    }
    assert_eq!(signal, Some(QemuExitCode::Failed));
    assert_eq!(QemuExitCode::Failed.code(), 0x11);
    // The harness is terminal: the run loop stops here and the third
    // check is never started.
    assert!(harness.is_done());
}

#[test]
fn testable_checks_drive_the_runner() {
    let check = TrivialAssertion;
    let checks = vec![Check { name: check.name(), outcome: check.run() }];
    let (events, exit) = test_runner(&checks);
    assert_eq!(exit, QemuExitCode::Success);
    assert_eq!(events.len(), 4);
    match &events[1] {
        HarnessEvent::TestStarted(name) => assert_eq!(name, "trivial_assertion"),
        other => panic!("unexpected event: {:?}", other),
    }
}
