use ytdlp_core::progress::{parse_progress, ProgressTracker, FULL_PROGRESS};
use ytdlp_core::session::{
    trim_line_end, OutputStream, Session, SessionAction, SessionEvent, SessionOutcome,
};

fn line(s: OutputStream, text: &str) -> SessionEvent {
    SessionEvent::Line(s, text.to_string())
}

fn progress_of(acts: &[SessionAction]) -> Vec<u32> {
    acts.iter()
        .filter_map(|a| match a {
            SessionAction::EmitProgress(v) => Some(*v),
            _ => None,
        })
        .collect()
}

#[test]
fn progress_lines_are_read() {
    assert_eq!(parse_progress("[download]  45.3% of 10.00MiB at 1.00MiB/s"), Some(4530));
    assert_eq!(parse_progress("[download] 100% of 10.00MiB"), Some(10000));
    assert_eq!(parse_progress("[download]   0.0%"), Some(0));
    assert_eq!(parse_progress("[download]  12.345%"), Some(1234));
    assert_eq!(parse_progress("[download] 7.5%"), Some(750));
}

#[test]
fn other_lines_carry_no_progress() {
    assert_eq!(parse_progress("[download] Destination: a.mp4"), None);
    assert_eq!(parse_progress("[download]45.0%"), None);
    assert_eq!(parse_progress("[info] 45.0%"), None);
    assert_eq!(parse_progress("[download]  45.%"), None);
    assert_eq!(parse_progress("[download]  100.5%"), None);
    assert_eq!(parse_progress("[download]  4294967296%"), None);
    assert_eq!(parse_progress(""), None);
}

#[test]
fn tracker_passes_on_only_rising_values() {
    let mut t = ProgressTracker::new();
    assert_eq!(t.observe("[download]  10.0%"), Some(1000));
    assert_eq!(t.observe("[download]  10.0%"), None);
    assert_eq!(t.observe("[download]   5.0%"), None);
    assert_eq!(t.observe("[download]  10.1%"), Some(1010));
    assert_eq!(t.last, Some(1010));
}

#[test]
fn interleaved_streams_give_increasing_progress() {
    let mut s = Session::new();
    let mut all = Vec::new();
    let events = vec![
        line(OutputStream::Stdout, "[download]  10.0% of 5MiB\n"),
        line(OutputStream::Stderr, "[download]   8.0% of 5MiB\r\n"),
        line(OutputStream::Stderr, "[download]  20.0% of 5MiB\n"),
        line(OutputStream::Stdout, "[download]  20.0% of 5MiB\n"),
        line(OutputStream::Stdout, "[download]  15.0% of 5MiB\n"),
        line(OutputStream::Stderr, "[download]  55.5% of 5MiB\n"),
    ];
    for e in events {
        all.extend(s.on_event(e));
    }
    assert_eq!(progress_of(&all), vec![1000, 2000, 5550]);
}

#[test]
fn lines_are_forwarded_without_line_endings() {
    let mut s = Session::new();
    let acts = s.on_event(line(OutputStream::Stderr, "[youtube] abc: Downloading\r\n"));
    assert_eq!(acts, vec![SessionAction::EmitOutput("[youtube] abc: Downloading".to_string())]);
    assert_eq!(s.on_event(line(OutputStream::Stdout, "\n")), vec![]);
    assert_eq!(trim_line_end("a\r\n\n"), "a");
    assert_eq!(trim_line_end("a\n\r"), "a\n");
}

#[test]
fn clean_exit_without_full_line_still_reports_full_progress() {
    let mut s = Session::new();
    s.on_event(line(OutputStream::Stdout, "[download]  99.9%\n"));
    let acts = s.on_event(SessionEvent::Exited(Some(0)));
    assert_eq!(
        acts,
        vec![
            SessionAction::StopDrain,
            SessionAction::JoinDrain,
            SessionAction::ClearCancelSlot,
            SessionAction::EmitProgress(FULL_PROGRESS),
            SessionAction::Finish(SessionOutcome::Success),
        ]
    );
}

#[test]
fn clean_exit_after_full_line_repeats_nothing() {
    let mut s = Session::new();
    let a = s.on_event(line(OutputStream::Stdout, "[download] 100% of 5MiB\n"));
    assert_eq!(progress_of(&a), vec![FULL_PROGRESS]);
    let acts = s.on_event(SessionEvent::Exited(Some(0)));
    assert_eq!(progress_of(&acts), Vec::<u32>::new());
    assert_eq!(acts.last(), Some(&SessionAction::Finish(SessionOutcome::Success)));
}

#[test]
fn nonzero_exit_is_download_failed() {
    let mut s = Session::new();
    let acts = s.on_event(SessionEvent::Exited(Some(1)));
    assert_eq!(acts.last(), Some(&SessionAction::Finish(SessionOutcome::DownloadFailed(Some(1)))));
    assert_eq!(progress_of(&acts), Vec::<u32>::new());
    let mut t = Session::new();
    let acts = t.on_event(SessionEvent::Exited(None));
    assert_eq!(acts.last(), Some(&SessionAction::Finish(SessionOutcome::DownloadFailed(None))));
}

#[test]
fn cancel_kills_and_reaps_then_reports_cancelled() {
    let mut s = Session::new();
    s.on_event(line(OutputStream::Stdout, "[download]  30.0%\n"));
    let acts = s.on_event(SessionEvent::CancelRequested);
    assert_eq!(
        acts,
        vec![
            SessionAction::KillChild,
            SessionAction::ReapChild,
            SessionAction::StopDrain,
            SessionAction::JoinDrain,
            SessionAction::ClearCancelSlot,
            SessionAction::Finish(SessionOutcome::Cancelled),
        ]
    );
    assert_eq!(s.outcome, Some(SessionOutcome::Cancelled));
    assert_eq!(s.on_event(SessionEvent::CancelRequested), vec![]);
    assert_eq!(s.on_event(SessionEvent::Exited(Some(0))), vec![]);
    assert_eq!(s.on_event(line(OutputStream::Stdout, "[download]  90.0%\n")), vec![]);
}

#[test]
fn cancel_after_finish_is_a_no_op() {
    let mut s = Session::new();
    s.on_event(SessionEvent::Exited(Some(0)));
    assert_eq!(s.on_event(SessionEvent::CancelRequested), vec![]);
    assert_eq!(s.outcome, Some(SessionOutcome::Success));
}

#[test]
fn read_failures() {
    let mut s = Session::new();
    assert_eq!(
        s.on_event(SessionEvent::ReadFailed(OutputStream::Stdout, true)),
        vec![SessionAction::RetryRead(OutputStream::Stdout)]
    );
    assert!(s.stdout_open);
    assert_eq!(
        s.on_event(SessionEvent::ReadFailed(OutputStream::Stdout, false)),
        vec![SessionAction::StopReading(OutputStream::Stdout)]
    );
    assert!(!s.stdout_open);
    assert!(s.draining());
    assert_eq!(s.on_event(SessionEvent::Closed(OutputStream::Stderr)), vec![]);
    assert!(!s.draining());
}

#[test]
fn failed_wait_tears_the_session_down() {
    let mut s = Session::new();
    let acts = s.on_event(SessionEvent::WaitFailed);
    assert_eq!(
        acts,
        vec![
            SessionAction::KillChild,
            SessionAction::ReapChild,
            SessionAction::StopDrain,
            SessionAction::JoinDrain,
            SessionAction::ClearCancelSlot,
            SessionAction::Finish(SessionOutcome::WaitFailed),
        ]
    );
    assert!(!s.cancel_armed);
}

#[test]
fn one_stream_ending_leaves_the_other_draining() {
    let mut s = Session::new();
    s.on_event(SessionEvent::Closed(OutputStream::Stdout));
    assert!(s.draining());
    let acts = s.on_event(line(OutputStream::Stderr, "[download]  50.0%\n"));
    assert_eq!(progress_of(&acts), vec![5000]);
    assert!(s.draining());
    assert!(s.stderr_open && !s.stdout_open);
}
