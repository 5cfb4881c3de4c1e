use librarylink::launch::{after_activation, after_fallback, LaunchOutcome, LaunchStep};
use librarylink::locator::{Locator, LocatorStep, ProcessTable};
use librarylink::process::ProcessInfo;
use librarylink::supervisor::{
    transition, SupervisionAction, SupervisionEvent, SupervisionState, Supervisor,
};

fn started(pid: u32, path: &str) -> Supervisor {
    Supervisor::start(pid, &Some(ProcessInfo::from_path(path.to_string()))).unwrap()
}

#[test]
fn start_derives_target_directory() {
    let s = started(4321, "C:\\Apps\\Foo\\foo.exe");
    assert_eq!(s.state(), SupervisionState::Monitoring(4321));
    assert_eq!(s.target_directory(), "C:\\Apps\\Foo");
}

#[test]
fn unresolved_launch_is_not_supervised() {
    assert!(Supervisor::start(4321, &None).is_none());
}

#[test]
fn successor_hop_sequence() {
    let mut s = started(4321, "C:\\Apps\\Foo\\foo.exe");
    let mut states = vec![s.state()];
    assert_eq!(s.handle(SupervisionEvent::Terminated), SupervisionAction::ReportTermination(4321));
    states.push(s.state());
    let mut loc = Locator::new(&ProcessTable::Listed(vec![4, 4399], 8), s.target_directory());
    assert!(matches!(loc.step(), LocatorStep::Query(4)));
    loc.offer(&Some(ProcessInfo::from_path("C:\\Windows\\System32\\smss.exe".to_string())));
    assert!(matches!(loc.step(), LocatorStep::Query(4399)));
    loc.offer(&Some(ProcessInfo::from_path("C:\\Apps\\Foo\\foo-worker.exe".to_string())));
    let successor = match loc.step() {
        LocatorStep::Found(pid) => pid,
        _ => panic!("the worker lies under the target directory"),
    };
    assert_eq!(s.handle(SupervisionEvent::SuccessorFound(successor)), SupervisionAction::ReportSuccessor(4399));
    states.push(s.state());
    assert_eq!(
        states,
        vec![
            SupervisionState::Monitoring(4321),
            SupervisionState::SearchingSuccessor,
            SupervisionState::Monitoring(4399),
        ]
    );
    assert_eq!(s.target_directory(), "C:\\Apps\\Foo");
}

#[test]
fn unexpected_statuses_keep_monitoring() {
    let mut s = started(4321, "C:\\Apps\\Foo\\foo.exe");
    for status in [0x80u32, 0x102, 7] {
        assert_eq!(
            s.handle(SupervisionEvent::UnexpectedStatus(status)),
            SupervisionAction::ContinueWaiting(4321, status)
        );
        assert_eq!(s.state(), SupervisionState::Monitoring(4321));
    }
}

#[test]
fn termination_without_successor_stops_once() {
    let mut s = started(4321, "C:\\Apps\\Foo\\foo.exe");
    s.handle(SupervisionEvent::Terminated);
    assert!(!s.is_stopped());
    assert_eq!(s.handle(SupervisionEvent::NoSuccessor), SupervisionAction::ReportNoSuccessor);
    assert!(s.is_stopped());
    for e in [
        SupervisionEvent::NoSuccessor,
        SupervisionEvent::SuccessorFound(1),
        SupervisionEvent::Terminated,
        SupervisionEvent::OpenFailed,
    ] {
        assert_eq!(s.handle(e), SupervisionAction::Ignore);
        assert_eq!(s.state(), SupervisionState::Stopped);
    }
}

#[test]
fn open_failure_starts_search() {
    assert_eq!(
        transition(SupervisionState::Monitoring(9), SupervisionEvent::OpenFailed),
        (SupervisionState::SearchingSuccessor, SupervisionAction::ReportOpenFailure(9))
    );
}

#[test]
fn wait_failure_reports_code_and_searches() {
    assert_eq!(
        transition(SupervisionState::Monitoring(9), SupervisionEvent::WaitFailed(6)),
        (SupervisionState::SearchingSuccessor, SupervisionAction::ReportWaitFailure(9, 6))
    );
}

#[test]
fn events_out_of_place_change_nothing() {
    assert_eq!(
        transition(SupervisionState::Monitoring(9), SupervisionEvent::SuccessorFound(3)),
        (SupervisionState::Monitoring(9), SupervisionAction::Ignore)
    );
    assert_eq!(
        transition(SupervisionState::SearchingSuccessor, SupervisionEvent::Terminated),
        (SupervisionState::SearchingSuccessor, SupervisionAction::Ignore)
    );
}

#[test]
fn activation_success_is_supervisable() {
    match after_activation(Ok(4321)) {
        LaunchStep::Done(outcome) => {
            assert!(matches!(outcome, LaunchOutcome::FullySupervisable(4321)));
        }
        LaunchStep::TryFallback(_) => panic!("activation succeeded"),
    }
}

#[test]
fn fallback_success_is_unsupervisable() {
    let err = match after_activation(Err("activation rejected".to_string())) {
        LaunchStep::TryFallback(e) => e,
        LaunchStep::Done(_) => panic!("activation failed"),
    };
    assert_eq!(err, "activation rejected");
    let outcome = after_fallback(err, Ok(()));
    assert!(matches!(outcome, LaunchOutcome::LaunchedUnsupervisable));
}

#[test]
fn both_failures_are_reported() {
    let outcome = after_fallback("activation rejected".to_string(), Err("shell failed".to_string()));
    match outcome {
        LaunchOutcome::Failed(a, b) => {
            assert_eq!(a, "activation rejected");
            assert_eq!(b, "shell failed");
        }
        _ => panic!("both mechanisms failed"),
    }
}
