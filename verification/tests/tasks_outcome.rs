use vct::progress::LineOutcome;
use vct::tasks::{failure_message, JobStatus, TaskRegistry, TranscodeMonitor};

#[test]
fn failure_message_keeps_last_five_nonblank_lines() {
    let log = "a\n\nb\n  \nc\r\nd\ne\nf\n";
    assert_eq!(failure_message(log, Some(1)), "b\nc\nd\ne\nf");
}

#[test]
fn failure_message_fewer_lines() {
    assert_eq!(failure_message("only line", Some(1)), "only line");
    assert_eq!(failure_message("x\r", None), "x\r");
}

#[test]
fn failure_message_without_log_names_exit_code() {
    assert_eq!(failure_message("", Some(1)), "ffmpeg 异常退出 (code=Some(1))");
    assert_eq!(failure_message(" \n\t", None), "ffmpeg 异常退出 (code=None)");
    assert_eq!(failure_message("", Some(-9)), "ffmpeg 异常退出 (code=Some(-9))");
    assert_eq!(
        failure_message("", Some(i32::MIN)),
        "ffmpeg 异常退出 (code=Some(-2147483648))"
    );
}

#[test]
fn monitor_success() {
    let mut m = TranscodeMonitor::new();
    m.on_stderr("warning");
    m.on_terminated(Some(0));
    let r = m.finish("t1".into(), "out.mp4".into(), false);
    assert!(r.success);
    assert_eq!(r.message, "转码完成");
    assert_eq!(r.task_id, "t1");
    assert_eq!(r.output_path, "out.mp4");
}

#[test]
fn monitor_failure_collects_stderr() {
    let mut m = TranscodeMonitor::new();
    m.on_stderr("first");
    m.on_stderr("second\n");
    m.on_stream_error("pipe closed");
    assert_eq!(m.log(), "first\nsecond\nffmpeg stream error: pipe closed\n");
    m.on_terminated(Some(2));
    let r = m.finish("t2".into(), "o.mkv".into(), false);
    assert!(!r.success);
    assert_eq!(r.message, "first\nsecond\nffmpeg stream error: pipe closed");
}

#[test]
fn monitor_cancel_wins() {
    let mut m = TranscodeMonitor::new();
    m.on_terminated(Some(0));
    let r = m.finish("t3".into(), "o.mp4".into(), true);
    assert!(!r.success);
    assert_eq!(r.message, "任务已取消");
}

#[test]
fn monitor_without_exit_code_fails() {
    let mut m = TranscodeMonitor::new();
    m.on_terminated(None);
    let r = m.finish("t4".into(), "o.mp4".into(), false);
    assert!(!r.success);
    assert_eq!(r.message, "ffmpeg 异常退出 (code=None)");
}

#[test]
fn monitor_progress_from_stdout() {
    let mut m = TranscodeMonitor::new();
    assert!(matches!(m.on_stdout("frame=12"), LineOutcome::Absorbed));
    match m.on_stdout("progress=continue") {
        LineOutcome::Snapshot(s) => assert_eq!(s.frame, 12),
        _ => panic!("expected a snapshot"),
    }
}

#[test]
fn empty_stderr_line_adds_newline_once() {
    let mut m = TranscodeMonitor::new();
    m.on_stderr("");
    assert_eq!(m.log(), "\n");
    m.on_stderr("");
    assert_eq!(m.log(), "\n");
}

#[test]
fn end_status_follows_cancel_and_exit_code() {
    let mut m = TranscodeMonitor::new();
    m.on_terminated(Some(0));
    assert!(matches!(m.end_status(false), JobStatus::Completed));
    assert!(matches!(m.end_status(true), JobStatus::Canceled));
    m.on_terminated(Some(1));
    assert!(matches!(m.end_status(false), JobStatus::Failed));
    m.on_terminated(None);
    assert!(matches!(m.end_status(false), JobStatus::Failed));
}

#[test]
fn job_status_names_and_end_actions() {
    assert_eq!(JobStatus::Running.name(), "running");
    assert_eq!(JobStatus::Completed.name(), "completed");
    assert_eq!(JobStatus::Failed.name(), "failed");
    assert_eq!(JobStatus::Canceled.name(), "canceled");
    assert!(JobStatus::Completed.keeps_output());
    assert!(!JobStatus::Failed.keeps_output());
    assert!(!JobStatus::Canceled.keeps_output());
    assert!(JobStatus::Completed.announced_at_end());
    assert!(JobStatus::Failed.announced_at_end());
    assert!(!JobStatus::Canceled.announced_at_end());
}

#[test]
fn registry_register_and_take() {
    let mut reg: TaskRegistry<u32> = TaskRegistry::new();
    assert!(!reg.contains("a"));
    assert_eq!(reg.insert("a".to_string(), 1), None);
    assert_eq!(reg.insert("b".to_string(), 2), None);
    assert!(reg.contains("a"));
    assert!(reg.contains("b"));
    assert_eq!(reg.insert("a".to_string(), 3), Some(1));
    assert_eq!(reg.remove("a"), Some(3));
    assert!(!reg.contains("a"));
    assert!(reg.contains("b"));
}

#[test]
fn registry_second_cancel_finds_nothing() {
    let mut reg: TaskRegistry<&str> = TaskRegistry::new();
    reg.insert("job".to_string(), "child");
    assert_eq!(reg.remove("job"), Some("child"));
    assert_eq!(reg.remove("job"), None);
    assert!(!reg.contains("job"));
}

#[test]
fn registry_end_check_sees_cancel() {
    let mut reg: TaskRegistry<u8> = TaskRegistry::new();
    reg.insert("t1".to_string(), 1);
    reg.insert("t2".to_string(), 2);
    // t2 is canceled, then t1 and t2 end.
    assert_eq!(reg.remove("t2"), Some(2));
    reg.insert("t3".to_string(), 3);
    let t1_canceled = reg.remove("t1").is_none();
    let t2_canceled = reg.remove("t2").is_none();
    assert!(!t1_canceled);
    assert!(t2_canceled);
    assert!(reg.contains("t3"));
}
