use schedule_manager::text::{parse_u32, NumberError};
use schedule_manager::widget_diagnostics::{
    dump_file_name, dump_wait, dumps_to_remove, exit_requested, hexadecimal_text, log_file_name, log_line,
    parse_dump_command, phase_name, progress, request_exit, set_window, snapshot, start,
    DumpCommand, DumpReason, DumpWait, Monitor, StallTracker, WindowProbe,
};

#[test]
fn reports_once_and_rearms_after_recovery() {
    let mut tracker = StallTracker::default();
    for _ in 0..14 {
        assert!(!tracker.tick(0, 1));
    }
    assert!(tracker.tick(0, 1));
    assert!(!tracker.tick(0, 1));
    assert!(!tracker.tick(1, 1));
    for _ in 0..14 {
        assert!(!tracker.tick(1, 1));
    }
    assert!(tracker.tick(1, 1));
}

#[test]
fn suspend_or_scheduler_gap_does_not_count_as_a_ui_stall() {
    let mut tracker = StallTracker::default();
    for _ in 0..14 {
        assert!(!tracker.tick(0, 1));
    }
    assert!(!tracker.tick(0, 3600));
    assert!(!tracker.tick(0, 1));
}

#[test]
fn a_long_gap_does_not_report_a_stall_again() {
    let mut tracker = StallTracker::default();
    for _ in 0..14 {
        assert!(!tracker.tick(0, 1));
    }
    assert!(tracker.tick(0, 1));
    assert!(!tracker.tick(0, 3600));
    assert_eq!((tracker.idle_seconds, tracker.reported), (0, true));
    for _ in 0..30 {
        assert!(!tracker.tick(0, 1));
    }
    assert!(!tracker.tick(1, 1));
    for _ in 0..14 {
        assert!(!tracker.tick(1, 1));
    }
    assert!(tracker.tick(1, 1));
}

#[test]
fn the_monitor_keeps_what_it_is_told() {
    let mut monitor = Monitor::default();
    progress(&mut monitor, 3);
    progress(&mut monitor, 4);
    set_window(&mut monitor, -7);
    assert_eq!((monitor.progress, monitor.phase, monitor.window), (2, 4, -7));
    assert!(!exit_requested(&monitor));
    assert!(request_exit(&mut monitor));
    assert!(!request_exit(&mut monitor));
    assert!(exit_requested(&monitor));
    monitor.progress = u64::MAX;
    progress(&mut monitor, 1);
    assert_eq!(monitor.progress, 0);
}

#[test]
fn the_watchdog_dumps_three_times_at_most() {
    let mut monitor = Monitor::default();
    let mut watchdog = start(0);
    for i in 1..=5u64 {
        let actions = watchdog.observe(&mut monitor, i * 1000, true, false);
        assert_eq!(actions.trigger, Some(DumpReason::Manual));
        assert_eq!(actions.dump, i <= 3);
        assert!(!actions.terminate);
    }
    assert_eq!(watchdog.dump_count, 3);
}

#[test]
fn the_watchdog_ends_what_does_not_exit() {
    let mut monitor = Monitor::default();
    let mut watchdog = start(0);
    let actions = watchdog.observe(&mut monitor, 1000, false, true);
    assert!(actions.exit_logged && actions.exit_observed && actions.trigger.is_none());
    let actions = watchdog.observe(&mut monitor, 8999, false, false);
    assert!(!actions.terminate);
    let actions = watchdog.observe(&mut monitor, 9000, true, false);
    assert!(actions.terminate && actions.dump);
    assert_eq!(actions.trigger, Some(DumpReason::ExitTimeout));
}

#[test]
fn the_watchdog_reports_stalls_and_heartbeats() {
    let mut monitor = Monitor::default();
    let mut watchdog = start(0);
    let mut triggered = Vec::new();
    for i in 1..=20u64 {
        let actions = watchdog.observe(&mut monitor, i * 1000, false, false);
        if actions.trigger == Some(DumpReason::UiStall) {
            triggered.push(i);
        }
        assert!(!watchdog.settle(i * 1000, actions.trigger.is_some()));
    }
    assert_eq!(triggered, [15]);
    progress(&mut monitor, 1);
    let actions = watchdog.observe(&mut monitor, 21_000, false, false);
    assert!(actions.resumed);
    assert!(watchdog.settle(60_000, false));
    assert!(!watchdog.settle(60_001, false));
}

#[test]
fn log_lines_and_file_names() {
    assert_eq!(log_line("2026-03-01 08:00:00.000", 42, "hi"), "2026-03-01 08:00:00.000 pid=42 hi\n");
    assert_eq!(log_file_name("2026-03-01"), "schedule-desktop-widget.2026-03-01.log");
    assert_eq!(dump_file_name("t", 7, DumpReason::UiStall), "widget-t-7-ui-stall.dmp");
    assert_eq!(DumpReason::Manual.name(), "manual");
    assert_eq!(hexadecimal_text(0), format!("{:x}", 0));
    assert_eq!(hexadecimal_text(u64::MAX), format!("{:x}", u64::MAX));
    assert_eq!(hexadecimal_text(0x1f0a), "1f0a");
    let monitor = Monitor { progress: 9, phase: 0, window: 255, exit_requested: false };
    let probe = WindowProbe {
        valid: 1,
        visible: 0,
        parent: 16,
        parent_valid: 1,
        rect_ok: 1,
        left: -5,
        top: 2,
        right: 3,
        bottom: 4,
    };
    assert_eq!(
        snapshot(&monitor, 255, &probe),
        format!(
            "phase={} progress=9 hwnd=0xff valid=1 visible=0 parent=0x10 parent_valid=1 rect_ok=1 \
             rect=-5,2,3,4",
            phase_name(0)
        )
    );
}

#[test]
fn nine_older_dumps_stay() {
    let mut names: Vec<String> = (10..22).map(|n| format!("widget-{}.dmp", n)).collect();
    names.push("widget-00.txt".to_string());
    names.push("other-00.dmp".to_string());
    names.reverse();
    assert_eq!(dumps_to_remove(&names), ["widget-10.dmp", "widget-11.dmp", "widget-12.dmp"]);
    assert!(dumps_to_remove(&vec!["widget-1.dmp".to_string()]).is_empty());
}

#[test]
fn dump_commands_are_read() {
    let args = |list: &[&str]| -> Vec<Option<String>> {
        list.iter().map(|s| Some(s.to_string())).collect()
    };
    assert!(matches!(parse_dump_command(&args(&[])), DumpCommand::RunWidget));
    assert!(matches!(parse_dump_command(&args(&["x"])), DumpCommand::RunWidget));
    assert!(matches!(parse_dump_command(&vec![None]), DumpCommand::RunWidget));
    let command = "--capture-dump";
    for rest in [Some("file".to_string()), None] {
        let mut list = args(&[command, "+12"]);
        list.push(rest);
        match parse_dump_command(&list) {
            DumpCommand::Capture(pid) => assert_eq!(pid, 12),
            _ => panic!("expected a capture"),
        }
    }
    for (list, reason) in [
        (args(&[command]), "missing target PID"),
        (vec![Some(command.to_string()), None], "invalid PID"),
        (args(&[command, ""]), "cannot parse integer from empty string"),
        (args(&[command, "x", "file"]), "invalid digit found in string"),
        (args(&[command, "4294967296", "file"]), "number too large to fit in target type"),
        (args(&[command, "12"]), "missing dump path"),
    ] {
        match parse_dump_command(&list) {
            DumpCommand::Invalid(said) => assert_eq!(said, reason),
            _ => panic!("expected a refusal"),
        }
    }
}

#[test]
fn numbers_are_refused_as_std_refuses_them() {
    for text in ["", "+", "-", "-1", "1x", "+7", "007", "4294967295", "4294967296", "99999999999x"] {
        match (parse_u32(text), text.parse::<u32>()) {
            (Ok(read), Ok(expected)) => assert_eq!(read, expected),
            (Err(refused), Err(expected)) => assert_eq!(refused.message(), expected.to_string()),
            _ => panic!("expected the same outcome for {:?}", text),
        }
    }
    assert!(matches!(parse_u32(""), Err(NumberError::Empty)));
    assert!(matches!(parse_u32("-1"), Err(NumberError::InvalidDigit)));
    assert!(matches!(parse_u32("4294967296"), Err(NumberError::TooLarge)));
}

#[test]
fn dump_helpers_get_ten_seconds() {
    assert_eq!(dump_wait(0, None), DumpWait::Wait);
    assert_eq!(dump_wait(9_999, None), DumpWait::Wait);
    assert_eq!(dump_wait(10_000, None), DumpWait::TimedOut);
    assert_eq!(dump_wait(20_000, Some(true)), DumpWait::Saved);
    assert_eq!(dump_wait(5, Some(false)), DumpWait::Failed);
}

#[test]
fn without_a_request_the_watchdog_never_ends_the_process() {
    let mut monitor = Monitor::default();
    let mut watchdog = start(0);
    let mut triggers = 0;
    for i in 1..=100u64 {
        let actions = watchdog.observe(&mut monitor, i * 1000, i % 10 == 0, false);
        assert!(!actions.terminate && !actions.exit_observed);
        triggers += actions.trigger.is_some() as u32;
        assert_eq!(watchdog.dump_count, triggers.min(3));
        watchdog.settle(i * 1000, actions.trigger.is_some());
    }
    assert!(triggers > 3);
}
