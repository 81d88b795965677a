//! The reporting loop.
//!
//! The loop is a machine that names one action at a time and is told how the
//! action went. It connects, authenticates, and then, once per interval,
//! reports. A report that fails costs the session: the loop reconnects at
//! once, and if that fails too it waits for the next interval and tries
//! again. It does this for as long as it is run; no failure is its last.
use crate::error::AgentError;
use crate::system_info::SAMPLE_WINDOW_SECS;
use vstd::prelude::*;
use vstd::string::*;

verus! {

/// Where the loop stands.
#[derive(Clone, Copy, Debug, PartialEq, Eq, Structural)]
pub enum LoopState {
    /// A session is being opened.
    Connecting,
    /// The handshake is under way on a fresh session.
    Authenticating,
    /// The session is open and the next report is not yet due.
    Connected,
    /// A report is being sampled and sent.
    Reporting,
    /// There is no session: the last one failed, or none could be opened.
    Reconnecting,
}

/// What the caller is to do next.
#[derive(Clone, Copy, Debug, PartialEq, Eq, Structural)]
pub enum Action {
    /// Open a TCP session to the server, dropping the old one if there is one.
    Connect,
    /// Run the handshake on the session just opened.
    Authenticate,
    /// Sleep for the reporting interval.
    Wait,
    /// Sample the machine and send one report.
    Report,
}

impl Action {
    /// Seconds for which the caller pauses in the course of the action: the
    /// interval in a wait, the sampling window in a report, and none in
    /// opening a session.
    pub open spec fn pause(self, interval: u64) -> nat {
        match self {
            Action::Wait => interval as nat,
            Action::Report => SAMPLE_WINDOW_SECS as nat,
            _ => 0,
        }
    }

    /// Seconds for which the caller is to pause in the course of the action.
    pub fn pause_seconds(self, interval: u64) -> (seconds: u64)
        ensures
            seconds == self.pause(interval),
    {
        match self {
            Action::Wait => interval,
            Action::Report => SAMPLE_WINDOW_SECS,
            _ => 0,
        }
    }
}

/// What the operator is told of a failure.
#[derive(Debug, PartialEq, Eq)]
pub struct Diagnostic {
    /// One line for the error channel.
    pub line: String,
    /// What the server answered in place of a confirmation, to be shown as
    /// it came. Only a refused handshake has one.
    pub response: Option<Vec<u8>>,
}

/// The loop's state and the action that is due in it.
#[derive(Clone, Copy, Debug, PartialEq, Eq, Structural)]
pub struct ReportingLoop {
    pub state: LoopState,
    pub action: Action,
}

impl ReportingLoop {
    /// The loop before anything was done: a first session is to be opened.
    pub open spec fn initial() -> ReportingLoop {
        ReportingLoop { state: LoopState::Connecting, action: Action::Connect }
    }

    /// The state and the action belong together.
    pub open spec fn consistent(self) -> bool {
        match self.state {
            LoopState::Connecting => self.action == Action::Connect,
            LoopState::Authenticating => self.action == Action::Authenticate,
            LoopState::Connected => self.action == Action::Wait,
            LoopState::Reporting => self.action == Action::Report,
            LoopState::Reconnecting => self.action == Action::Connect || self.action
                == Action::Wait,
        }
    }

    /// The loop after its action was done and succeeded or failed. A wait
    /// cannot fail: it ends, and the loop goes on either way.
    pub open spec fn after(self, succeeded: bool) -> ReportingLoop {
        match self.action {
            Action::Connect => if succeeded {
                ReportingLoop { state: LoopState::Authenticating, action: Action::Authenticate }
            } else {
                ReportingLoop { state: LoopState::Reconnecting, action: Action::Wait }
            },
            Action::Authenticate => if succeeded {
                ReportingLoop { state: LoopState::Connected, action: Action::Wait }
            } else {
                ReportingLoop { state: LoopState::Reconnecting, action: Action::Wait }
            },
            Action::Wait => if self.state == LoopState::Connected {
                ReportingLoop { state: LoopState::Reporting, action: Action::Report }
            } else {
                ReportingLoop { state: LoopState::Connecting, action: Action::Connect }
            },
            Action::Report => if succeeded {
                ReportingLoop { state: LoopState::Connected, action: Action::Wait }
            } else {
                ReportingLoop { state: LoopState::Reconnecting, action: Action::Connect }
            },
        }
    }

    /// The loop after a run of actions, of which `outcomes` says in order
    /// which succeeded.
    pub open spec fn run(self, outcomes: Seq<bool>) -> ReportingLoop
        decreases outcomes.len(),
    {
        if outcomes.len() == 0 {
            self
        } else {
            self.run(outcomes.drop_last()).after(outcomes.last())
        }
    }

    /// The action that is due when the first `i` of `outcomes` are in.
    pub open spec fn action_at(self, outcomes: Seq<bool>, i: int) -> Action {
        self.run(outcomes.take(i)).action
    }

    /// How many of the actions numbered from `lo` up to, not including, `hi`
    /// are attempts to connect.
    pub open spec fn connects_between(self, outcomes: Seq<bool>, lo: int, hi: int) -> nat
        decreases hi - lo,
    {
        if lo >= hi {
            0
        } else {
            self.connects_between(outcomes, lo, hi - 1) + if self.action_at(outcomes, hi - 1)
                == Action::Connect {
                1nat
            } else {
                0nat
            }
        }
    }

    /// The session that a report due at `i` would use was opened by the
    /// handshake numbered `j`: the handshake succeeded, and since then the
    /// loop has only waited and sent reports that succeeded.
    pub open spec fn session_since(self, outcomes: Seq<bool>, j: int, i: int) -> bool {
        &&& 0 <= j < i
        &&& self.action_at(outcomes, j) == Action::Authenticate
        &&& outcomes[j]
        &&& forall|m: int|
            j < m < i ==> {
                let action = #[trigger] self.action_at(outcomes, m);
                action == Action::Wait || (action == Action::Report && outcomes[m])
            }
    }

    /// Seconds of pause in the actions numbered from `lo` up to, not
    /// including, `hi`.
    pub open spec fn pause_between(
        self,
        outcomes: Seq<bool>,
        lo: int,
        hi: int,
        interval: u64,
    ) -> nat
        decreases hi - lo,
    {
        if lo >= hi {
            0
        } else {
            self.pause_between(outcomes, lo, hi - 1, interval) + self.action_at(
                outcomes,
                hi - 1,
            ).pause(interval)
        }
    }

    /// The line that tells the operator of a failure of the action due.
    pub open spec fn diagnostic_text(self, error: AgentError) -> Seq<char> {
        if self.action == Action::Connect || self.action == Action::Authenticate {
            "Failed to reconnect: "@ + error.message_text()
        } else {
            "Error: "@ + error.message_text()
        }
    }

    /// The loop at its start.
    pub fn new() -> (fresh: ReportingLoop)
        ensures
            fresh == ReportingLoop::initial(),
    {
        ReportingLoop { state: LoopState::Connecting, action: Action::Connect }
    }

    /// Takes the outcome of the action that was due and moves on. Every
    /// failure yields one line for the operator, and no success does. With
    /// the line of a refused handshake comes the server's answer, whole.
    pub fn advance(&mut self, outcome: &Result<(), AgentError>) -> (diagnostic: Option<Diagnostic>)
        ensures
            *final(self) == old(self).after(outcome is Ok),
            match *outcome {
                Ok(_) => diagnostic is None,
                Err(error) => diagnostic matches Some(told) && told.line@ == old(
                    self,
                ).diagnostic_text(error) && match error {
                    AgentError::Auth { response } => told.response matches Some(shown) && shown@
                        == response@,
                    _ => told.response is None,
                },
            },
    {
        let succeeded: bool = outcome.is_ok();
        let diagnostic: Option<Diagnostic> = match outcome {
            Ok(_) => None,
            Err(error) => {
                let mut line: String = match self.action {
                    Action::Connect | Action::Authenticate => "Failed to reconnect: ".to_owned(),
                    _ => "Error: ".to_owned(),
                };
                let message: String = error.message();
                line.append(message.as_str());
                let response: Option<Vec<u8>> = match error.raw_response() {
                    Some(raw) => {
                        let mut shown: Vec<u8> = Vec::new();
                        shown.extend_from_slice(raw.as_slice());
                        assert(shown@ =~= raw@);
                        Some(shown)
                    },
                    None => None,
                };
                Some(Diagnostic { line, response })
            },
        };
        let next: ReportingLoop = match self.action {
            Action::Connect => if succeeded {
                ReportingLoop { state: LoopState::Authenticating, action: Action::Authenticate }
            } else {
                ReportingLoop { state: LoopState::Reconnecting, action: Action::Wait }
            },
            Action::Authenticate => if succeeded {
                ReportingLoop { state: LoopState::Connected, action: Action::Wait }
            } else {
                ReportingLoop { state: LoopState::Reconnecting, action: Action::Wait }
            },
            Action::Wait => match self.state {
                LoopState::Connected => ReportingLoop {
                    state: LoopState::Reporting,
                    action: Action::Report,
                },
                _ => ReportingLoop { state: LoopState::Connecting, action: Action::Connect },
            },
            Action::Report => if succeeded {
                ReportingLoop { state: LoopState::Connected, action: Action::Wait }
            } else {
                ReportingLoop { state: LoopState::Reconnecting, action: Action::Connect }
            },
        };
        *self = next;
        diagnostic
    }
}

/// One more outcome moves the run on by one step.
proof fn lemma_run_step(start: ReportingLoop, outcomes: Seq<bool>, i: int)
    requires
        0 <= i < outcomes.len(),
    ensures
        start.run(outcomes.take(i + 1)) == start.run(outcomes.take(i)).after(outcomes[i]),
{
    assert(outcomes.take(i + 1).drop_last() =~= outcomes.take(i));
}

/// No run of outcomes ends the loop. Whatever succeeded and whatever failed,
/// the loop is again in one of its states with the action of that state due.
pub proof fn lemma_loop_never_stops(start: ReportingLoop, outcomes: Seq<bool>)
    requires
        start.consistent(),
    ensures
        start.run(outcomes).consistent(),
    decreases outcomes.len(),
{
    if outcomes.len() > 0 {
        lemma_loop_never_stops(start, outcomes.drop_last());
    }
}

/// A report that succeeds is followed by the wait for the next interval, and
/// a report that fails by one attempt to connect, at once.
pub proof fn lemma_failed_report_reconnects(start: ReportingLoop, outcomes: Seq<bool>, i: int)
    requires
        0 <= i < outcomes.len(),
        start.action_at(outcomes, i) == Action::Report,
    ensures
        outcomes[i] ==> start.action_at(outcomes, i + 1) == Action::Wait,
        !outcomes[i] ==> start.action_at(outcomes, i + 1) == Action::Connect,
{
    lemma_run_step(start, outcomes, i);
}

/// The loop connects at most once between two waits: of any two attempts to
/// connect, the later one comes after a wait for the interval. With
/// [`lemma_failed_report_reconnects`], a cycle whose report failed sees
/// exactly one attempt to reconnect.
pub proof fn lemma_one_connect_per_cycle(
    start: ReportingLoop,
    outcomes: Seq<bool>,
    i: int,
    j: int,
)
    requires
        0 <= i < j <= outcomes.len(),
        start.action_at(outcomes, i) == Action::Connect,
        start.action_at(outcomes, j) == Action::Connect,
    ensures
        exists|k: int| i < k < j && #[trigger] start.action_at(outcomes, k) == Action::Wait,
{
    lemma_run_step(start, outcomes, i);
    if start.action_at(outcomes, i + 1) == Action::Wait {
        assert(i + 1 < j);
    } else {
        assert(start.action_at(outcomes, i + 1) == Action::Authenticate);
        lemma_run_step(start, outcomes, i + 1);
        assert(start.action_at(outcomes, i + 2) == Action::Wait);
        assert(i + 2 < j);
    }
}

/// A cycle runs from one wait to the next. A cycle that begins with a
/// session and whose report succeeds does not connect. Every other cycle,
/// whether its report failed or it began without a session, attempts to
/// connect exactly once, however that attempt and the handshake after it
/// turn out.
pub proof fn lemma_one_reconnect_per_failed_cycle(
    start: ReportingLoop,
    outcomes: Seq<bool>,
    w: int,
    k: int,
)
    requires
        0 <= w < k <= outcomes.len(),
        start.action_at(outcomes, w) == Action::Wait,
        start.action_at(outcomes, k) == Action::Wait,
        forall|m: int| w < m < k ==> start.action_at(outcomes, m) != Action::Wait,
    ensures
        w + 2 <= k <= w + 4,
        start.connects_between(outcomes, w + 1, k) == if start.run(outcomes.take(w)).state
            == LoopState::Connected && outcomes[w + 1] {
            0nat
        } else {
            1nat
        },
{
    reveal_with_fuel(ReportingLoop::connects_between, 4);
    lemma_run_step(start, outcomes, w);
    assert(start.action_at(outcomes, w + 1) != Action::Wait);
    lemma_run_step(start, outcomes, w + 1);
    if start.action_at(outcomes, w + 2) != Action::Wait {
        lemma_run_step(start, outcomes, w + 2);
        if start.action_at(outcomes, w + 3) != Action::Wait {
            lemma_run_step(start, outcomes, w + 3);
            assert(start.action_at(outcomes, w + 4) == Action::Wait);
        }
    }
}

/// The pauses of a stretch of actions are those of its two parts together.
proof fn lemma_pause_splits(
    start: ReportingLoop,
    outcomes: Seq<bool>,
    lo: int,
    mid: int,
    hi: int,
    interval: u64,
)
    requires
        lo <= mid <= hi,
    ensures
        start.pause_between(outcomes, lo, hi, interval) == start.pause_between(
            outcomes,
            lo,
            mid,
            interval,
        ) + start.pause_between(outcomes, mid, hi, interval),
    decreases hi - mid,
{
    if mid < hi {
        lemma_pause_splits(start, outcomes, lo, mid, hi - 1, interval);
    }
}

/// Reports keep their distance. From the start of one report to the start of
/// the next the caller pauses for the sampling window and the interval at
/// the least: for a second or more, also where the interval is 0.
pub proof fn lemma_reports_keep_their_distance(
    start: ReportingLoop,
    outcomes: Seq<bool>,
    i: int,
    j: int,
    interval: u64,
)
    requires
        0 <= i < j <= outcomes.len(),
        start.action_at(outcomes, i) == Action::Report,
        start.action_at(outcomes, j) == Action::Report,
    ensures
        start.pause_between(outcomes, i, j, interval) >= SAMPLE_WINDOW_SECS + interval,
        start.pause_between(outcomes, i, j, interval) >= 1,
{
    lemma_run_step(start, outcomes, i);
    let m: int = if start.action_at(outcomes, i + 1) == Action::Wait {
        i + 1
    } else {
        lemma_run_step(start, outcomes, i + 1);
        if start.action_at(outcomes, i + 2) == Action::Wait {
            i + 2
        } else {
            lemma_run_step(start, outcomes, i + 2);
            i + 3
        }
    };
    assert(i < m < j && start.action_at(outcomes, m) == Action::Wait);
    lemma_pause_splits(start, outcomes, i, i + 1, j, interval);
    lemma_pause_splits(start, outcomes, i + 1, m, j, interval);
    lemma_pause_splits(start, outcomes, m, m + 1, j, interval);
    reveal_with_fuel(ReportingLoop::pause_between, 2);
    assert(start.pause_between(outcomes, i, i + 1, interval) == SAMPLE_WINDOW_SECS);
    assert(start.pause_between(outcomes, m, m + 1, interval) == interval);
}

/// A report is only ever due on a session that is open and authenticated.
/// In a run from the start, whenever a report is due, a handshake succeeded
/// before it and nothing has failed since: a session on which something
/// failed is not used again.
pub proof fn lemma_reports_use_an_authenticated_session(outcomes: Seq<bool>, i: int)
    requires
        0 <= i <= outcomes.len(),
        ReportingLoop::initial().action_at(outcomes, i) == Action::Report,
    ensures
        exists|j: int| ReportingLoop::initial().session_since(outcomes, j, i),
    decreases i,
{
    let start = ReportingLoop::initial();
    assert(outcomes.take(0) =~= Seq::<bool>::empty());
    assert(i >= 1);
    lemma_run_step(start, outcomes, i - 1);
    assert(start.action_at(outcomes, i - 1) == Action::Wait);
    assert(i >= 2);
    lemma_run_step(start, outcomes, i - 2);
    if start.action_at(outcomes, i - 2) == Action::Authenticate {
        assert(start.session_since(outcomes, i - 2, i));
    } else {
        assert(start.action_at(outcomes, i - 2) == Action::Report && outcomes[i - 2]);
        let earlier = i - 2;
        lemma_reports_use_an_authenticated_session(outcomes, earlier);
        let j = choose|j: int| start.session_since(outcomes, j, earlier);
        assert(start.session_since(outcomes, j, i));
    }
}

} // verus!
