use betwall::updater::{
    apply, check_now, current_version, latest_update, record_check, report_if_later, shared,
    version_of_release, ApplyAction, ApplyEvent, Checker, CheckerAction, UpdateStatus,
};

fn name(s: &str) -> Option<String> {
    Some(s.to_string())
}

#[test]
fn nothing_is_known_at_the_start() {
    let status = shared();
    assert!(status.latest_version.is_none());
    assert!(status.last_error.is_none());
    assert!(!status.applying);
    assert!(UpdateStatus::default().latest_version.is_none());
    assert!(!current_version().is_empty());
}

#[test]
fn releases_are_named_after_versions() {
    assert_eq!(version_of_release("v1.2.3"), "1.2.3");
    assert_eq!(version_of_release("vv1"), "1");
    assert_eq!(version_of_release("1.2.3"), "1.2.3");
    assert_eq!(report_if_later("1".to_string(), Some(true)).as_deref(), Some("1"));
    assert!(report_if_later("1".to_string(), Some(false)).is_none());
    assert!(report_if_later("1".to_string(), None).is_none());
}

#[test]
fn only_later_versions_are_reported() {
    assert_eq!(latest_update(&name("v9.0.0")).as_deref(), Some("9.0.0"));
    assert_eq!(latest_update(&name("99.0.0")).as_deref(), Some("99.0.0"));
    assert!(latest_update(&name(current_version())).is_none());
    assert!(latest_update(&name("0.0.1")).is_none());
    assert!(latest_update(&name("no version")).is_none());
    assert!(latest_update(&None).is_none());
}

#[test]
fn looking_on_request_reports_and_remembers() {
    let mut status = shared();
    status.last_error = name("old");
    assert_eq!(check_now(&mut status, Ok(name("v9.0.0"))), Ok(true));
    assert_eq!(status.latest_version.as_deref(), Some("9.0.0"));
    assert!(status.last_error.is_none());
    assert_eq!(check_now(&mut status, Err("down".to_string())), Err("down".to_string()));
    assert_eq!(status.latest_version.as_deref(), Some("9.0.0"));
    assert!(status.last_error.is_none());
    assert_eq!(check_now(&mut status, Ok(None)), Ok(false));
    assert!(status.latest_version.is_none());
}

#[test]
fn failure_of_a_regular_look_is_noted() {
    let mut status = shared();
    record_check(&mut status, Ok(name("v9.0.0")));
    record_check(&mut status, Err("down".to_string()));
    assert_eq!(status.latest_version.as_deref(), Some("9.0.0"));
    assert_eq!(status.last_error.as_deref(), Some("down"));
    record_check(&mut status, Ok(None));
    assert!(status.last_error.is_none());
}

#[test]
fn looks_come_after_thirty_seconds_and_then_every_six_hours() {
    let mut checker = Checker::new();
    for _ in 0..6 {
        assert_eq!(checker.next(false), CheckerAction::Sleep);
    }
    assert_eq!(checker.next(false), CheckerAction::Look);
    for _ in 0..4320 {
        assert_eq!(checker.next(false), CheckerAction::Sleep);
    }
    assert_eq!(checker.next(false), CheckerAction::Look);
    assert_eq!(checker.next(true), CheckerAction::Exit);
    let mut short = Checker { left: 7 };
    assert_eq!(short.next(false), CheckerAction::Sleep);
    assert_eq!(short.next(false), CheckerAction::Sleep);
    assert_eq!(short.next(false), CheckerAction::Look);
}

#[test]
fn installing_is_noted() {
    let mut status = shared();
    status.latest_version = name("9.0.0");
    assert_eq!(apply(&mut status, ApplyEvent::Started), ApplyAction::Install);
    assert!(status.applying);
    let failed = ApplyEvent::Finished { result: Err("no disk".to_string()) };
    assert_eq!(apply(&mut status, failed), ApplyAction::Stay);
    assert!(!status.applying);
    assert_eq!(status.latest_version.as_deref(), Some("9.0.0"));
    assert_eq!(status.last_error.as_deref(), Some("no disk"));
    apply(&mut status, ApplyEvent::Started);
    let copy = status.clone();
    assert!(copy.applying);
    assert_eq!(apply(&mut status, ApplyEvent::Finished { result: Ok(()) }), ApplyAction::Restart);
    assert!(status.latest_version.is_none());
    assert!(status.last_error.is_none());
    assert!(!status.applying);
}
