//! The reconnect policy of a background session, and what its callers see
//! of its answers.
use vstd::prelude::*;

verus! {

/// Where a background session stands.
#[derive(Clone, Copy, Debug, PartialEq, Eq, Structural)]
pub enum Phase {
    /// Trying to establish its connection.
    Connecting,
    /// Connected, answering requests.
    Serving,
    /// Ended for good; requests get no answer.
    Stopped,
}

/// What the last attempt or connection came to.
#[derive(Clone, Copy, Debug, PartialEq, Eq, Structural)]
pub enum Outcome {
    Connected,
    ConnectFailed,
    ConnectionClosed,
}

/// What the session's task does next.
#[derive(Clone, Copy, Debug, PartialEq, Eq, Structural)]
pub enum Step {
    /// Attempt to connect.
    Connect,
    /// Sleep this many milliseconds, then attempt to connect.
    Wait(u64),
    /// Answer requests until the connection breaks.
    Serve,
    /// End the task.
    Stop,
}

/// The reconnect policy of a background session and where it stands.
#[derive(Clone, Copy, Debug, PartialEq, Eq, Structural)]
pub struct Session {
    pub phase: Phase,
    /// Delay before another attempt after a failed one; with none, the first
    /// failed attempt ends the session.
    pub backoff_ms: Option<u64>,
}

/// The phase and the step that follow `outcome` in phase `phase`.
pub open spec fn transition(phase: Phase, backoff_ms: Option<u64>, outcome: Outcome) -> (Phase, Step) {
    match (phase, outcome) {
        (Phase::Stopped, _) => (Phase::Stopped, Step::Stop),
        (_, Outcome::Connected) => (Phase::Serving, Step::Serve),
        (_, Outcome::ConnectionClosed) => (Phase::Connecting, Step::Connect),
        (_, Outcome::ConnectFailed) => match backoff_ms {
            Some(d) => (Phase::Connecting, Step::Wait(d)),
            None => (Phase::Stopped, Step::Stop),
        },
    }
}

impl Session {
    /// A session about to make its first attempt.
    pub fn new(backoff_ms: Option<u64>) -> (s: Session)
        ensures
            s.phase == Phase::Connecting,
            s.backoff_ms == backoff_ms,
    {
        Session { phase: Phase::Connecting, backoff_ms }
    }

    /// Records `outcome` and says what the task does next: serve once
    /// connected, connect again once the connection breaks, and after a
    /// failed attempt wait the backoff or, with none, stop for good.
    pub fn advance(&mut self, outcome: Outcome) -> (step: Step)
        ensures
            final(self).backoff_ms == old(self).backoff_ms,
            (final(self).phase, step) == transition(old(self).phase, old(self).backoff_ms, outcome),
    {
        let (phase, step) = match (self.phase, outcome) {
            (Phase::Stopped, _) => (Phase::Stopped, Step::Stop),
            (_, Outcome::Connected) => (Phase::Serving, Step::Serve),
            (_, Outcome::ConnectionClosed) => (Phase::Connecting, Step::Connect),
            (_, Outcome::ConnectFailed) => match self.backoff_ms {
                Some(d) => (Phase::Connecting, Step::Wait(d)),
                None => (Phase::Stopped, Step::Stop),
            },
        };
        self.phase = phase;
        step
    }

    /// `true` while the session's task lives to answer requests.
    pub fn answers(&self) -> (r: bool)
        ensures
            r == (self.phase != Phase::Stopped),
    {
        !matches!(self.phase, Phase::Stopped)
    }
}

/// Why a request to a background session failed.
#[derive(Clone, Copy, Debug, PartialEq, Eq, Structural)]
pub enum RequestError {
    /// The session's task ended before it answered.
    NoResponse,
    /// The service answered with a failure.
    Failed,
}

/// What a caller gets for a request: the answer where one came back, else
/// the no-response error.
pub fn answer_or_no_response<T>(reply: Option<Result<T, RequestError>>) -> (r: Result<T, RequestError>)
    ensures
        reply.is_none() ==> r == Err::<T, RequestError>(RequestError::NoResponse),
        reply.is_some() ==> r == reply.unwrap(),
{
    match reply {
        Some(res) => res,
        None => Err(RequestError::NoResponse),
    }
}

/// A request that a handler sends to the remote-control service.
#[derive(Clone, Copy, Debug, PartialEq, Eq, Structural)]
pub enum Request {
    RecordingStatus,
    RecordingStart,
    RecordingStop,
    SaveReplayBuffer,
}

/// The request that toggles recording: stop while recording, else start.
pub fn recording_toggle(is_recording: bool) -> (r: Request)
    ensures
        is_recording ==> r == Request::RecordingStop,
        !is_recording ==> r == Request::RecordingStart,
{
    if is_recording {
        Request::RecordingStop
    } else {
        Request::RecordingStart
    }
}

/// After a failed attempt a session with a backoff waits exactly that long
/// and tries again; one without a backoff stops, and from then on every
/// request to it ends in the no-response error.
pub proof fn lemma_failed_attempt(s: Session, outcome: Outcome)
    requires
        s.phase == Phase::Connecting,
        outcome == Outcome::ConnectFailed,
    ensures
        s.backoff_ms.is_some() ==> transition(s.phase, s.backoff_ms, outcome) == (
            Phase::Connecting,
            Step::Wait(s.backoff_ms.unwrap()),
        ),
        s.backoff_ms.is_none() ==> transition(s.phase, s.backoff_ms, outcome) == (
            Phase::Stopped,
            Step::Stop,
        ),
        s.backoff_ms.is_none() ==> forall|later: Outcome|
            #[trigger] transition(Phase::Stopped, s.backoff_ms, later) == (Phase::Stopped, Step::Stop),
{
}

} // verus!
