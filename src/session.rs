//! The decisions of one supervised download: what to do with each line the
//! tool prints, with read failures, with a cancellation request and with the
//! tool's exit. The caller performs the actions and reports the events.
use vstd::prelude::*;
use crate::progress::{accept_reading, progress_reading, ProgressTracker, FULL_PROGRESS};

verus! {

#[derive(Clone, Copy, Debug, PartialEq, Eq, Structural)]
pub enum OutputStream {
    Stdout,
    Stderr,
}

/// What happened in a session.
#[derive(Clone, Debug, PartialEq, Eq)]
pub enum SessionEvent {
    /// A line was read from a stream, with its line ending.
    Line(OutputStream, String),
    /// Reading a stream failed; `true` where the failure was a transient
    /// interruption.
    ReadFailed(OutputStream, bool),
    /// A stream reached its end.
    Closed(OutputStream),
    /// The user asked to cancel.
    CancelRequested,
    /// The tool exited, with its exit code where it has one.
    Exited(Option<i32>),
    /// Waiting for the tool's exit failed.
    WaitFailed,
}

/// How a session ended.
#[derive(Clone, Copy, Debug, PartialEq, Eq, Structural)]
pub enum SessionOutcome {
    Success,
    Cancelled,
    DownloadFailed(Option<i32>),
    /// The tool could not be watched to its end.
    WaitFailed,
}

/// What the caller is to do, in order.
#[derive(Clone, Debug, PartialEq, Eq)]
pub enum SessionAction {
    /// Pass a line of output on to the listener.
    EmitOutput(String),
    /// Pass a progress value, in hundredths of a percent, on to the listener.
    EmitProgress(u32),
    /// Read the stream again.
    RetryRead(OutputStream),
    /// Read no more from the stream.
    StopReading(OutputStream),
    /// Kill the child process.
    KillChild,
    /// Wait until the child process has fully exited.
    ReapChild,
    /// Tell the task that drains the streams to stop.
    StopDrain,
    /// Wait until that task has finished.
    JoinDrain,
    /// Empty the session's cancellation slot.
    ClearCancelSlot,
    /// Report the session's end to the caller.
    Finish(SessionOutcome),
}

/// A line's text: trailing line feeds taken off, then trailing carriage returns.
pub open spec fn trim_end_char(s: Seq<char>, c: char) -> Seq<char>
    decreases s.len(),
{
    if s.len() > 0 && s.last() == c {
        trim_end_char(s.drop_last(), c)
    } else {
        s
    }
}

pub open spec fn line_text(raw: Seq<char>) -> Seq<char> {
    trim_end_char(trim_end_char(raw, '\n'), '\r')
}

pub open spec fn strictly_increasing(s: Seq<u32>) -> bool {
    forall|i: int, j: int| 0 <= i < j < s.len() ==> s[i] < s[j]
}

/// The progress values among a list of actions, in order.
pub open spec fn progress_values(acts: Seq<SessionAction>) -> Seq<u32>
    decreases acts.len(),
{
    if acts.len() == 0 {
        Seq::<u32>::empty()
    } else {
        let p = progress_values(acts.drop_last());
        match acts.last() {
            SessionAction::EmitProgress(v) => p.push(v),
            _ => p,
        }
    }
}

/// The progress passed on for a run of lines, in arrival order over both
/// streams, starting from the watermark `last`.
pub open spec fn passed_on(last: Option<u32>, lines: Seq<Seq<char>>) -> Seq<u32>
    decreases lines.len(),
{
    if lines.len() == 0 {
        Seq::<u32>::empty()
    } else {
        let prev = passed_on(last, lines.drop_last());
        let mark = if prev.len() == 0 {
            last
        } else {
            Some(prev.last())
        };
        match accept_reading(mark, progress_reading(lines.last())) {
            Some(v) => prev.push(v),
            None => prev,
        }
    }
}

/// Whatever lines arrive, in whatever interleaving of the two streams, the
/// progress passed on is strictly increasing and above the starting watermark.
pub proof fn lemma_passed_on_increasing(last: Option<u32>, lines: Seq<Seq<char>>)
    ensures
        strictly_increasing(passed_on(last, lines)),
        last matches Some(l) ==> forall|i: int|
            0 <= i < passed_on(last, lines).len() ==> #[trigger] passed_on(last, lines)[i] > l,
    decreases lines.len(),
{
    if lines.len() > 0 {
        lemma_passed_on_increasing(last, lines.drop_last());
    }
}

fn trim_end_index(cs: &str, end: usize, c: char) -> (r: usize)
    requires
        end <= cs@.len(),
    ensures
        r <= end,
        cs@.take(r as int) == trim_end_char(cs@.take(end as int), c),
{
    let mut e: usize = end;
    while e > 0 && cs.get_char(e - 1) == c
        invariant
            e <= end <= cs@.len(),
            trim_end_char(cs@.take(e as int), c) == trim_end_char(cs@.take(end as int), c),
        decreases e,
    {
        assert(cs@.take(e as int).drop_last() =~= cs@.take(e - 1));
        e = e - 1;
    }
    proof {
        if e > 0 {
            assert(cs@.take(e as int).last() == cs@[e - 1]);
        }
    }
    e
}

/// The text of a line as read, without its line ending.
pub fn trim_line_end(raw: &str) -> (r: String)
    ensures
        r@ == line_text(raw@),
{
    let n = raw.unicode_len();
    assert(raw@.take(n as int) =~= raw@);
    let a = trim_end_index(raw, n, '\n');
    let b = trim_end_index(raw, a, '\r');
    assert(raw@.subrange(0, b as int) =~= raw@.take(b as int));
    raw.substring_char(0, b).to_string()
}

/// One download session's state. `emitted` records the progress passed on.
pub struct Session {
    pub tracker: ProgressTracker,
    pub stdout_open: bool,
    pub stderr_open: bool,
    pub cancel_armed: bool,
    pub outcome: Option<SessionOutcome>,
    pub emitted: Ghost<Seq<u32>>,
}

pub open spec fn cancel_actions() -> Seq<SessionAction> {
    seq![
        SessionAction::KillChild,
        SessionAction::ReapChild,
        SessionAction::StopDrain,
        SessionAction::JoinDrain,
        SessionAction::ClearCancelSlot,
        SessionAction::Finish(SessionOutcome::Cancelled),
    ]
}

/// The actions after a failed wait: the child is killed and reaped and the
/// session torn down as on cancellation, and the failure is reported.
pub open spec fn abort_actions() -> Seq<SessionAction> {
    seq![
        SessionAction::KillChild,
        SessionAction::ReapChild,
        SessionAction::StopDrain,
        SessionAction::JoinDrain,
        SessionAction::ClearCancelSlot,
        SessionAction::Finish(SessionOutcome::WaitFailed),
    ]
}

pub open spec fn teardown_actions() -> Seq<SessionAction> {
    seq![SessionAction::StopDrain, SessionAction::JoinDrain, SessionAction::ClearCancelSlot]
}

/// The actions after the tool exits: the teardown; on success, a final full
/// progress value where it has not been passed on yet; then the outcome.
pub open spec fn exit_actions(last: Option<u32>, code: Option<i32>) -> Seq<SessionAction> {
    if code == Some(0i32) {
        teardown_actions() + (if last == Some(FULL_PROGRESS) {
            Seq::<SessionAction>::empty()
        } else {
            seq![SessionAction::EmitProgress(FULL_PROGRESS)]
        }) + seq![SessionAction::Finish(SessionOutcome::Success)]
    } else {
        teardown_actions() + seq![SessionAction::Finish(SessionOutcome::DownloadFailed(code))]
    }
}

proof fn lemma_progress_values_append(a: Seq<SessionAction>, b: Seq<SessionAction>)
    ensures
        progress_values(a + b) == progress_values(a) + progress_values(b),
    decreases b.len(),
{
    if b.len() == 0 {
        assert(a + b =~= a);
        assert(progress_values(b) =~= Seq::<u32>::empty());
        assert(progress_values(a) + progress_values(b) =~= progress_values(a));
    } else {
        lemma_progress_values_append(a, b.drop_last());
        assert((a + b).drop_last() =~= a + b.drop_last());
        assert((a + b).last() == b.last());
        match b.last() {
            SessionAction::EmitProgress(v) => {
                assert(progress_values(a) + progress_values(b) =~= (progress_values(a)
                    + progress_values(b.drop_last())).push(v));
            },
            _ => {},
        }
    }
}

impl Session {
    /// The invariant: progress passed on is strictly increasing, the
    /// watermark is its last value, and a finished session has no armed
    /// cancellation slot.
    pub open spec fn wf(&self) -> bool {
        &&& strictly_increasing(self.emitted@)
        &&& self.tracker.last == if self.emitted@.len() == 0 {
            None
        } else {
            Some(self.emitted@.last())
        }
        &&& self.emitted@.len() > 0 ==> self.emitted@.last() <= FULL_PROGRESS
        &&& self.outcome is Some ==> !self.cancel_armed
    }

    pub open spec fn is_running(&self) -> bool {
        self.outcome is None
    }

    /// A fresh session: both streams open, the cancellation slot armed.
    pub fn new() -> (r: Session)
        ensures
            r.wf(),
            r.is_running(),
            r.cancel_armed,
            r.stdout_open && r.stderr_open,
            r.emitted@.len() == 0,
    {
        Session {
            tracker: ProgressTracker::new(),
            stdout_open: true,
            stderr_open: true,
            cancel_armed: true,
            outcome: None,
            emitted: Ghost(Seq::empty()),
        }
    }

    /// Whether the drain task still has a stream to read.
    pub fn draining(&self) -> (r: bool)
        ensures
            r == (self.is_running() && (self.stdout_open || self.stderr_open)),
    {
        self.outcome.is_none() && (self.stdout_open || self.stderr_open)
    }

    fn close(&mut self, stream: OutputStream)
        ensures
            final(self).tracker == old(self).tracker,
            final(self).outcome == old(self).outcome,
            final(self).cancel_armed == old(self).cancel_armed,
            final(self).emitted == old(self).emitted,
            final(self).stdout_open == (old(self).stdout_open && stream != OutputStream::Stdout),
            final(self).stderr_open == (old(self).stderr_open && stream != OutputStream::Stderr),
    {
        match stream {
            OutputStream::Stdout => self.stdout_open = false,
            OutputStream::Stderr => self.stderr_open = false,
        }
    }

    fn on_line(&mut self, raw: &str) -> (r: Vec<SessionAction>)
        requires
            old(self).wf(),
            old(self).is_running(),
        ensures
            final(self).wf(),
            final(self).emitted@ == old(self).emitted@ + progress_values(r@),
            final(self).outcome == old(self).outcome,
            final(self).cancel_armed == old(self).cancel_armed,
            final(self).stdout_open == old(self).stdout_open,
            final(self).stderr_open == old(self).stderr_open,
            line_text(raw@).len() == 0 ==> r@.len() == 0 && final(self).tracker
                == old(self).tracker,
            line_text(raw@).len() > 0 ==> r@.len() >= 1 && (r@[0] matches SessionAction::EmitOutput(
                o,
            ) && o@ == line_text(raw@)) && match accept_reading(
                old(self).tracker.last,
                progress_reading(line_text(raw@)),
            ) {
                Some(v) => r@.len() == 2 && r@[1] == SessionAction::EmitProgress(v),
                None => r@.len() == 1,
            },
    {
        let text = trim_line_end(raw);
        let mut acts: Vec<SessionAction> = Vec::new();
        if text.unicode_len() == 0 {
            assert(progress_values(acts@) =~= Seq::<u32>::empty());
            assert(self.emitted@ + progress_values(acts@) =~= self.emitted@);
            return acts;
        }
        let passed = self.tracker.observe(text.as_str());
        acts.push(SessionAction::EmitOutput(text));
        assert(progress_values(acts@.drop_last()) =~= Seq::<u32>::empty());
        match passed {
            Some(v) => {
                acts.push(SessionAction::EmitProgress(v));
                assert(acts@.drop_last().drop_last() =~= Seq::<SessionAction>::empty());
                assert(progress_values(acts@) =~= seq![v]) by {
                    reveal_with_fuel(progress_values, 3);
                }
                proof {
                    let e = self.emitted@;
                    self.emitted = Ghost(e.push(v));
                    assert(progress_reading(line_text(raw@)) matches Some(x) && x <= FULL_PROGRESS);
                }
            },
            None => {
                assert(acts@.drop_last() =~= Seq::<SessionAction>::empty());
                assert(progress_values(acts@) =~= Seq::<u32>::empty()) by {
                    reveal_with_fuel(progress_values, 2);
                }
                assert(self.emitted@ + progress_values(acts@) =~= self.emitted@);
            },
        }
        assert(self.emitted@ =~= old(self).emitted@ + progress_values(acts@));
        acts
    }

    /// Decides what to do about one event, and records it.
    pub fn on_event(&mut self, ev: SessionEvent) -> (r: Vec<SessionAction>)
        requires
            old(self).wf(),
        ensures
            final(self).wf(),
            final(self).emitted@ == old(self).emitted@ + progress_values(r@),
            !old(self).is_running() ==> r@.len() == 0 && *final(self) == *old(self),
            old(self).is_running() ==> match ev {
                SessionEvent::Line(_, raw) => {
                    &&& final(self).outcome == old(self).outcome
                    &&& final(self).cancel_armed == old(self).cancel_armed
                    &&& final(self).stdout_open == old(self).stdout_open
                    &&& final(self).stderr_open == old(self).stderr_open
                    &&& line_text(raw@).len() == 0 ==> r@.len() == 0
                    &&& line_text(raw@).len() > 0 ==> r@.len() >= 1 && (r@[0] matches SessionAction::EmitOutput(
                        o,
                    ) && o@ == line_text(raw@)) && match accept_reading(
                        old(self).tracker.last,
                        progress_reading(line_text(raw@)),
                    ) {
                        Some(v) => r@.len() == 2 && r@[1] == SessionAction::EmitProgress(v),
                        None => r@.len() == 1,
                    }
                },
                SessionEvent::ReadFailed(s, transient) => {
                    &&& final(self).outcome == old(self).outcome
                    &&& transient ==> r@ == seq![SessionAction::RetryRead(s)] && *final(self)
                        == *old(self)
                    &&& !transient ==> r@ == seq![SessionAction::StopReading(s)]
                    &&& !transient ==> final(self).stdout_open == (old(self).stdout_open && s != OutputStream::Stdout)
                    &&& !transient ==> final(self).stderr_open == (old(self).stderr_open && s != OutputStream::Stderr)
                },
                SessionEvent::Closed(s) => {
                    &&& final(self).outcome == old(self).outcome
                    &&& r@.len() == 0
                    &&& final(self).stdout_open == (old(self).stdout_open && s
                        != OutputStream::Stdout)
                    &&& final(self).stderr_open == (old(self).stderr_open && s
                        != OutputStream::Stderr)
                },
                SessionEvent::CancelRequested => if old(self).cancel_armed {
                    &&& r@ == cancel_actions()
                    &&& final(self).outcome == Some(SessionOutcome::Cancelled)
                    &&& !final(self).cancel_armed
                } else {
                    r@.len() == 0 && *final(self) == *old(self)
                },
                SessionEvent::Exited(code) => {
                    &&& r@ == exit_actions(old(self).tracker.last, code)
                    &&& final(self).outcome == Some(
                        if code == Some(0i32) {
                            SessionOutcome::Success
                        } else {
                            SessionOutcome::DownloadFailed(code)
                        },
                    )
                    &&& !final(self).cancel_armed
                },
                SessionEvent::WaitFailed => {
                    &&& r@ == abort_actions()
                    &&& final(self).outcome == Some(SessionOutcome::WaitFailed)
                    &&& !final(self).cancel_armed
                },
            },
    {
        let mut acts: Vec<SessionAction> = Vec::new();
        if self.outcome.is_some() {
            assert(self.emitted@ + progress_values(acts@) =~= self.emitted@);
            return acts;
        }
        match ev {
            SessionEvent::Line(_, raw) => {
                return self.on_line(raw.as_str());
            },
            SessionEvent::ReadFailed(s, transient) => {
                if transient {
                    acts.push(SessionAction::RetryRead(s));
                } else {
                    self.close(s);
                    acts.push(SessionAction::StopReading(s));
                }
                assert(acts@.drop_last() =~= Seq::<SessionAction>::empty());
                assert(progress_values(acts@) =~= Seq::<u32>::empty()) by {
                    reveal_with_fuel(progress_values, 2);
                }
                assert(self.emitted@ + progress_values(acts@) =~= self.emitted@);
            },
            SessionEvent::Closed(s) => {
                self.close(s);
                assert(self.emitted@ + progress_values(acts@) =~= self.emitted@);
            },
            SessionEvent::CancelRequested => {
                if self.cancel_armed {
                    self.cancel_armed = false;
                    self.outcome = Some(SessionOutcome::Cancelled);
                    acts.push(SessionAction::KillChild);
                    acts.push(SessionAction::ReapChild);
                    acts.push(SessionAction::StopDrain);
                    acts.push(SessionAction::JoinDrain);
                    acts.push(SessionAction::ClearCancelSlot);
                    acts.push(SessionAction::Finish(SessionOutcome::Cancelled));
                    assert(acts@ =~= cancel_actions());
                    proof {
                        lemma_progress_values_append(acts@.take(5), acts@.skip(5));
                        assert(acts@ =~= acts@.take(5) + acts@.skip(5));
                        assert(progress_values(acts@.take(5)) =~= Seq::<u32>::empty()) by {
                            reveal_with_fuel(progress_values, 6);
                        }
                        assert(progress_values(acts@.skip(5)) =~= Seq::<u32>::empty()) by {
                            reveal_with_fuel(progress_values, 2);
                        }
                    }
                }
                assert(self.emitted@ + progress_values(acts@) =~= self.emitted@);
            },
            SessionEvent::WaitFailed => {
                self.cancel_armed = false;
                self.outcome = Some(SessionOutcome::WaitFailed);
                acts.push(SessionAction::KillChild);
                acts.push(SessionAction::ReapChild);
                acts.push(SessionAction::StopDrain);
                acts.push(SessionAction::JoinDrain);
                acts.push(SessionAction::ClearCancelSlot);
                acts.push(SessionAction::Finish(SessionOutcome::WaitFailed));
                assert(acts@ =~= abort_actions());
                assert(progress_values(acts@) =~= Seq::<u32>::empty()) by {
                    reveal_with_fuel(progress_values, 7);
                }
                assert(self.emitted@ + progress_values(acts@) =~= self.emitted@);
            },
            SessionEvent::Exited(code) => {
                let was_full = match self.tracker.last {
                    Some(l) => l == FULL_PROGRESS,
                    None => false,
                };
                acts.push(SessionAction::StopDrain);
                acts.push(SessionAction::JoinDrain);
                acts.push(SessionAction::ClearCancelSlot);
                let ghost head = acts@;
                assert(head =~= teardown_actions());
                assert(progress_values(head) =~= Seq::<u32>::empty()) by {
                    reveal_with_fuel(progress_values, 4);
                }
                self.cancel_armed = false;
                let success = match code {
                    Some(c) => c == 0,
                    None => false,
                };
                if success {
                    if !was_full {
                        acts.push(SessionAction::EmitProgress(FULL_PROGRESS));
                        proof {
                            let e = self.emitted@;
                            self.emitted = Ghost(e.push(FULL_PROGRESS));
                        }
                        self.tracker.last = Some(FULL_PROGRESS);
                    }
                    let ghost mid = acts@;
                    acts.push(SessionAction::Finish(SessionOutcome::Success));
                    self.outcome = Some(SessionOutcome::Success);
                    proof {
                        assert(acts@ =~= mid + seq![SessionAction::Finish(SessionOutcome::Success)]);
                        lemma_progress_values_append(mid, seq![SessionAction::Finish(SessionOutcome::Success)]);
                        lemma_progress_values_append(head, mid.skip(3));
                        assert(mid =~= head + mid.skip(3));
                        assert(progress_values(seq![SessionAction::Finish(SessionOutcome::Success)])
                            =~= Seq::<u32>::empty()) by {
                            reveal_with_fuel(progress_values, 2);
                        }
                        if !was_full {
                            assert(mid.skip(3) =~= seq![SessionAction::EmitProgress(FULL_PROGRESS)]);
                            assert(progress_values(mid.skip(3)) =~= seq![FULL_PROGRESS]) by {
                                reveal_with_fuel(progress_values, 2);
                            }
                        } else {
                            assert(mid.skip(3) =~= Seq::<SessionAction>::empty());
                        }
                        assert(self.emitted@ =~= old(self).emitted@ + progress_values(acts@));
                    }
                } else {
                    acts.push(SessionAction::Finish(SessionOutcome::DownloadFailed(code)));
                    self.outcome = Some(SessionOutcome::DownloadFailed(code));
                    proof {
                        let t = seq![SessionAction::Finish(SessionOutcome::DownloadFailed(code))];
                        assert(acts@ =~= head + t);
                        lemma_progress_values_append(head, t);
                        assert(progress_values(t) =~= Seq::<u32>::empty()) by {
                            reveal_with_fuel(progress_values, 2);
                        }
                        assert(self.emitted@ =~= old(self).emitted@ + progress_values(acts@));
                    }
                }
            },
        }
        acts
    }
}

/// A session that the tool leaves with exit code 0 passes on a full
/// progress value before it reports success, whether or not the tool printed
/// one, and the progress it has passed on is still strictly increasing.
pub proof fn lemma_success_ends_full(s: Session)
    requires
        s.wf(),
        s.is_running(),
    ensures
        ({
            let acts = exit_actions(s.tracker.last, Some(0i32));
            &&& acts.last() == SessionAction::Finish(SessionOutcome::Success)
            &&& (s.emitted@ + progress_values(acts)).last() == FULL_PROGRESS
            &&& strictly_increasing(s.emitted@ + progress_values(acts))
        }),
{
    let acts = exit_actions(s.tracker.last, Some(0i32));
    let tail = if s.tracker.last == Some(FULL_PROGRESS) {
        Seq::<SessionAction>::empty()
    } else {
        seq![SessionAction::EmitProgress(FULL_PROGRESS)]
    };
    let fin = seq![SessionAction::Finish(SessionOutcome::Success)];
    lemma_progress_values_append(teardown_actions() + tail, fin);
    lemma_progress_values_append(teardown_actions(), tail);
    assert(progress_values(teardown_actions()) =~= Seq::<u32>::empty()) by {
        reveal_with_fuel(progress_values, 4);
    }
    assert(progress_values(fin) =~= Seq::<u32>::empty()) by {
        reveal_with_fuel(progress_values, 2);
    }
    if s.tracker.last == Some(FULL_PROGRESS) {
        assert(progress_values(tail) =~= Seq::<u32>::empty());
        assert(s.emitted@ + progress_values(acts) =~= s.emitted@);
    } else {
        assert(progress_values(tail) =~= seq![FULL_PROGRESS]) by {
            reveal_with_fuel(progress_values, 2);
        }
        assert(s.emitted@ + progress_values(acts) =~= s.emitted@.push(FULL_PROGRESS));
    }
}

/// Whatever events a well-formed session goes through, the progress it has
/// passed on is strictly increasing.
pub proof fn lemma_session_progress_increasing(s: Session)
    requires
        s.wf(),
    ensures
        strictly_increasing(s.emitted@),
{
}

/// A cancellation that reaches a running session kills the child process and
/// waits until it has exited, stops and joins the drain task, empties the
/// slot, and only then reports `Cancelled`; it passes on no progress.
pub proof fn lemma_cancel_reaps_before_reporting()
    ensures
        cancel_actions()[0] == SessionAction::KillChild,
        cancel_actions()[1] == SessionAction::ReapChild,
        cancel_actions().last() == SessionAction::Finish(SessionOutcome::Cancelled),
        forall|i: int| 0 <= i < cancel_actions().len() - 1 ==> !(#[trigger] cancel_actions()[i] is Finish),
        progress_values(cancel_actions()) == Seq::<u32>::empty(),
{
    let a = cancel_actions();
    assert(a.len() == 6);
    assert(progress_values(a) =~= Seq::<u32>::empty()) by {
        reveal_with_fuel(progress_values, 7);
    }
}

} // verus!
