use vga_console::render_count;
use vga_console::render_event;
use vga_console::render_transcript;
use vga_console::test_runner;
use vga_console::Check;
use vga_console::CheckOutcome;
use vga_console::HarnessEvent;

#[test]
fn renders_counts_in_decimal() {
    assert_eq!(render_count(0), "0");
    assert_eq!(render_count(7), "7");
    assert_eq!(render_count(10), "10");
    assert_eq!(render_count(42), "42");
    assert_eq!(render_count(1234), "1234");
}

#[test]
fn renders_each_event_kind() {
    assert_eq!(render_event(&HarnessEvent::RunningCount(3)), "[      ]: Running 3 Tests");
    assert_eq!(
        render_event(&HarnessEvent::TestStarted("alpha".to_string())),
        "[ TEST ]: alpha"
    );
    assert_eq!(render_event(&HarnessEvent::TestOk), "[  OK  ]");
    assert_eq!(render_event(&HarnessEvent::TestAborted("boom".to_string())), "[ ABRT ]: boom");
    assert_eq!(render_event(&HarnessEvent::AllPassed), "[      ]: All Tests passed");
}

#[test]
fn renders_a_whole_passing_transcript() {
    let checks = vec![Check { name: "one".to_string(), outcome: CheckOutcome::Passed }];
    let (events, _) = test_runner(&checks);
    let lines = render_transcript(&events);
    assert_eq!(lines.len(), 4);
    assert_eq!(lines[0], "[      ]: Running 1 Tests");
    assert_eq!(lines[1], "[ TEST ]: one");
    assert_eq!(lines[2], "[  OK  ]");
    assert_eq!(lines[3], "[      ]: All Tests passed");
}

#[test]
fn renders_an_aborted_transcript() {
    let checks = vec![
        Check { name: "one".to_string(), outcome: CheckOutcome::Passed },
        Check {
            name: "two".to_string(),
            outcome: CheckOutcome::Aborted("index out of range".to_string()),
        },
    ];
    let (events, _) = test_runner(&checks);
    let lines = render_transcript(&events);
    assert_eq!(lines.len(), 5);
    assert_eq!(lines[0], "[      ]: Running 2 Tests");
    assert_eq!(lines[3], "[ TEST ]: two");
    assert_eq!(lines[4], "[ ABRT ]: index out of range");
}
