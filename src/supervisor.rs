use vstd::prelude::*;

use crate::path::{directory_of, get_directory_from_path};
use crate::process::ProcessInfo;

verus! {

/// Where a supervision session stands.
#[derive(PartialEq, Eq, Structural, Clone, Copy, Debug)]
pub enum SupervisionState {
    /// Waiting for this process to terminate.
    Monitoring(u32),
    /// The watched process is gone; a successor is being looked for.
    SearchingSuccessor,
    /// No successor was found; supervision is over.
    Stopped,
}

/// What happened while in the current state.
#[derive(PartialEq, Eq, Structural, Clone, Copy, Debug)]
pub enum SupervisionEvent {
    /// The watched process could not be opened for synchronization.
    OpenFailed,
    /// The wait signalled that the watched process terminated.
    Terminated,
    /// The wait failed with this operating-system error code.
    WaitFailed(u32),
    /// The wait returned this status, which is none of the expected ones.
    UnexpectedStatus(u32),
    /// The locator found this process under the target directory.
    SuccessorFound(u32),
    /// The locator found no process under the target directory.
    NoSuccessor,
}

/// What is to be reported of a transition.
#[derive(PartialEq, Eq, Structural, Clone, Copy, Debug)]
pub enum SupervisionAction {
    /// The process could not be opened for monitoring.
    ReportOpenFailure(u32),
    /// The process terminated.
    ReportTermination(u32),
    /// Waiting on the process failed with an error code.
    ReportWaitFailure(u32, u32),
    /// The wait returned an unexpected status; waiting on the process resumes.
    ContinueWaiting(u32, u32),
    /// A successor was found: resolve and report it, then monitor it.
    ReportSuccessor(u32),
    /// No successor was found; supervision ends.
    ReportNoSuccessor,
    /// The event does not apply to the current state; nothing changes.
    Ignore,
}

/// The state that follows `s` on event `e`.
pub open spec fn next_state(s: SupervisionState, e: SupervisionEvent) -> SupervisionState {
    match (s, e) {
        (SupervisionState::Monitoring(_), SupervisionEvent::OpenFailed) => SupervisionState::SearchingSuccessor,
        (SupervisionState::Monitoring(_), SupervisionEvent::Terminated) => SupervisionState::SearchingSuccessor,
        (SupervisionState::Monitoring(_), SupervisionEvent::WaitFailed(_)) => SupervisionState::SearchingSuccessor,
        (SupervisionState::SearchingSuccessor, SupervisionEvent::SuccessorFound(pid)) => SupervisionState::Monitoring(pid),
        (SupervisionState::SearchingSuccessor, SupervisionEvent::NoSuccessor) => SupervisionState::Stopped,
        _ => s,
    }
}

/// What is reported when `s` meets event `e`.
pub open spec fn action_for(s: SupervisionState, e: SupervisionEvent) -> SupervisionAction {
    match (s, e) {
        (SupervisionState::Monitoring(p), SupervisionEvent::OpenFailed) => SupervisionAction::ReportOpenFailure(p),
        (SupervisionState::Monitoring(p), SupervisionEvent::Terminated) => SupervisionAction::ReportTermination(p),
        (SupervisionState::Monitoring(p), SupervisionEvent::WaitFailed(code)) => SupervisionAction::ReportWaitFailure(p, code),
        (SupervisionState::Monitoring(p), SupervisionEvent::UnexpectedStatus(status)) => SupervisionAction::ContinueWaiting(p, status),
        (SupervisionState::SearchingSuccessor, SupervisionEvent::SuccessorFound(pid)) => SupervisionAction::ReportSuccessor(pid),
        (SupervisionState::SearchingSuccessor, SupervisionEvent::NoSuccessor) => SupervisionAction::ReportNoSuccessor,
        _ => SupervisionAction::Ignore,
    }
}

/// The state reached from `s` after the events of `events`, in order.
pub open spec fn run(s: SupervisionState, events: Seq<SupervisionEvent>) -> SupervisionState
    decreases events.len(),
{
    if events.len() == 0 {
        s
    } else {
        next_state(run(s, events.drop_last()), events.last())
    }
}

/// One transition of the supervision state machine.
pub fn transition(s: SupervisionState, e: SupervisionEvent) -> (r: (SupervisionState, SupervisionAction))
    ensures
        r.0 == next_state(s, e),
        r.1 == action_for(s, e),
{
    match (s, e) {
        (SupervisionState::Monitoring(p), SupervisionEvent::OpenFailed) => (SupervisionState::SearchingSuccessor, SupervisionAction::ReportOpenFailure(p)),
        (SupervisionState::Monitoring(p), SupervisionEvent::Terminated) => (SupervisionState::SearchingSuccessor, SupervisionAction::ReportTermination(p)),
        (SupervisionState::Monitoring(p), SupervisionEvent::WaitFailed(code)) => (SupervisionState::SearchingSuccessor, SupervisionAction::ReportWaitFailure(p, code)),
        (SupervisionState::Monitoring(p), SupervisionEvent::UnexpectedStatus(status)) => (s, SupervisionAction::ContinueWaiting(p, status)),
        (SupervisionState::SearchingSuccessor, SupervisionEvent::SuccessorFound(pid)) => (SupervisionState::Monitoring(pid), SupervisionAction::ReportSuccessor(pid)),
        (SupervisionState::SearchingSuccessor, SupervisionEvent::NoSuccessor) => (SupervisionState::Stopped, SupervisionAction::ReportNoSuccessor),
        _ => (s, SupervisionAction::Ignore),
    }
}

/// One supervision session: the current state, and the directory in which
/// successors are looked for, fixed from the first process's path.
pub struct Supervisor {
    state: SupervisionState,
    target_directory: String,
}

impl Supervisor {
    pub closed spec fn state_spec(&self) -> SupervisionState {
        self.state
    }

    pub closed spec fn target_spec(&self) -> Seq<char> {
        self.target_directory@
    }

    /// Starts supervising the launched process `pid`, whose resolution is
    /// `initial`; no session starts where it could not be resolved.
    pub fn start(pid: u32, initial: &Option<ProcessInfo>) -> (r: Option<Supervisor>)
        ensures
            match initial {
                Some(info) => r is Some && r->0.state_spec() == SupervisionState::Monitoring(pid)
                    && r->0.target_spec() == directory_of(info.path@),
                None => r is None,
            },
    {
        match initial {
            Some(info) => Some(
                Supervisor {
                    state: SupervisionState::Monitoring(pid),
                    target_directory: get_directory_from_path(info.path.as_str()),
                },
            ),
            None => None,
        }
    }

    /// The current state.
    pub fn state(&self) -> (r: SupervisionState)
        ensures
            r == self.state_spec(),
    {
        self.state
    }

    /// The directory in which successors are looked for.
    pub fn target_directory(&self) -> (r: &str)
        ensures
            r@ == self.target_spec(),
    {
        self.target_directory.as_str()
    }

    /// Takes the session through event `e`; the target directory never changes.
    pub fn handle(&mut self, e: SupervisionEvent) -> (r: SupervisionAction)
        ensures
            final(self).state_spec() == next_state(old(self).state_spec(), e),
            final(self).target_spec() == old(self).target_spec(),
            r == action_for(old(self).state_spec(), e),
    {
        let (next, action) = transition(self.state, e);
        self.state = next;
        action
    }

    /// Whether supervision is over.
    pub fn is_stopped(&self) -> (r: bool)
        ensures
            r == (self.state_spec() == SupervisionState::Stopped),
    {
        match self.state {
            SupervisionState::Stopped => true,
            _ => false,
        }
    }
}

proof fn lemma_run_append(s: SupervisionState, a: Seq<SupervisionEvent>, b: Seq<SupervisionEvent>)
    ensures
        run(s, a + b) == run(run(s, a), b),
    decreases b.len(),
{
    if b.len() == 0 {
        assert(a + b =~= a);
    } else {
        assert((a + b).drop_last() =~= a + b.drop_last());
        lemma_run_append(s, a, b.drop_last());
    }
}

proof fn lemma_run_unexpected(p: u32, events: Seq<SupervisionEvent>)
    requires
        forall|i: int| 0 <= i < events.len() ==> #[trigger] events[i] is UnexpectedStatus,
    ensures
        run(SupervisionState::Monitoring(p), events) == SupervisionState::Monitoring(p),
    decreases events.len(),
{
    if events.len() > 0 {
        assert(events.last() is UnexpectedStatus);
        lemma_run_unexpected(p, events.drop_last());
    }
}

proof fn lemma_run_stopped(events: Seq<SupervisionEvent>)
    ensures
        run(SupervisionState::Stopped, events) == SupervisionState::Stopped,
    decreases events.len(),
{
    if events.len() > 0 {
        lemma_run_stopped(events.drop_last());
    }
}

/// A watched process that never terminates stays watched: while its waits only
/// return unexpected statuses, every state reached is monitoring of that process.
pub proof fn lemma_monitoring_persists(p: u32, events: Seq<SupervisionEvent>)
    requires
        forall|i: int| 0 <= i < events.len() ==> #[trigger] events[i] is UnexpectedStatus,
    ensures
        forall|k: int|
            0 <= k <= events.len() ==> run(SupervisionState::Monitoring(p), #[trigger] events.take(k))
                == SupervisionState::Monitoring(p),
{
    assert forall|k: int| 0 <= k <= events.len() implies run(
        SupervisionState::Monitoring(p),
        #[trigger] events.take(k),
    ) == SupervisionState::Monitoring(p) by {
        let t = events.take(k);
        assert forall|i: int| 0 <= i < t.len() implies #[trigger] t[i] is UnexpectedStatus by {
            assert(t[i] == events[i]);
        }
        lemma_run_unexpected(p, t);
    }
}

/// A watched process that terminates with no process left under the target
/// directory ends supervision: the session passes through the search to the
/// stopped state, which it reaches once and which no later event leaves or
/// reports anything from.
pub proof fn lemma_stops_once(p: u32, later: Seq<SupervisionEvent>)
    ensures
        next_state(SupervisionState::Monitoring(p), SupervisionEvent::Terminated)
            == SupervisionState::SearchingSuccessor,
        run(
            SupervisionState::Monitoring(p),
            seq![SupervisionEvent::Terminated, SupervisionEvent::NoSuccessor],
        ) == SupervisionState::Stopped,
        forall|k: int|
            0 <= k <= later.len() ==> run(
                SupervisionState::Monitoring(p),
                seq![SupervisionEvent::Terminated, SupervisionEvent::NoSuccessor] + #[trigger] later.take(k),
            ) == SupervisionState::Stopped,
        forall|k: int|
            0 <= k < later.len() ==> action_for(SupervisionState::Stopped, #[trigger] later[k])
                == SupervisionAction::Ignore,
{
    let first = seq![SupervisionEvent::Terminated, SupervisionEvent::NoSuccessor];
    assert(first.drop_last() =~= seq![SupervisionEvent::Terminated]);
    assert(first.drop_last().drop_last() =~= Seq::<SupervisionEvent>::empty());
    assert(run(SupervisionState::Monitoring(p), first.drop_last().drop_last())
        == SupervisionState::Monitoring(p));
    assert(run(SupervisionState::Monitoring(p), first.drop_last())
        == SupervisionState::SearchingSuccessor);
    assert(run(SupervisionState::Monitoring(p), first) == SupervisionState::Stopped);
    assert forall|k: int| 0 <= k <= later.len() implies run(
        SupervisionState::Monitoring(p),
        first + #[trigger] later.take(k),
    ) == SupervisionState::Stopped by {
        lemma_run_append(SupervisionState::Monitoring(p), first, later.take(k));
        lemma_run_stopped(later.take(k));
    }
}

} // verus!
