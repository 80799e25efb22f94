use spruce_grove::subprocess::{
    bd_should_try, output_text, poll_step, Poll, PollStep, POLL_INTERVAL_MS, STDERR_CAP, STDOUT_CAP,
};

#[test]
fn a_poll_decides_the_next_step() {
    assert_eq!(poll_step(Poll::Exited, 99_999, 10), PollStep::Collect);
    assert_eq!(poll_step(Poll::Failed, 0, 10), PollStep::GiveUp);
    assert_eq!(poll_step(Poll::Running, 10, 10), PollStep::Sleep);
    assert_eq!(poll_step(Poll::Running, 11, 10), PollStep::KillAndGiveUp);
}

#[test]
fn the_caps_and_the_interval() {
    assert_eq!(STDOUT_CAP, 256 * 1024);
    assert_eq!(STDERR_CAP, 64 * 1024);
    assert_eq!(POLL_INTERVAL_MS, 40);
}

#[test]
fn only_a_successful_run_has_text() {
    assert_eq!(output_text(true, "  main\n"), Some("main".to_string()));
    assert_eq!(output_text(false, "main"), None);
}

#[test]
fn a_missing_bd_path_is_skipped() {
    assert!(bd_should_try("bd", false));
    assert!(!bd_should_try("/opt/homebrew/bin/bd", false));
    assert!(bd_should_try("/opt/homebrew/bin/bd", true));
}
