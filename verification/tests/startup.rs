use bini_server::startup::{StartAction, StartEvent, StartStep, Startup};

fn site(found: bool) -> StartEvent {
    StartEvent::Site { found, path: "/srv/dist".to_string() }
}

fn node(printed: &str) -> StartEvent {
    StartEvent::NodeVersion(Some(printed.as_bytes().to_vec()))
}

fn searching(port: u16) -> StartStep {
    let step = Startup::begin(port);
    assert!(matches!(step.action, StartAction::FindSite));
    let step = step.state.step(site(true));
    assert!(matches!(step.action, StartAction::AskNodeVersion));
    step.state.step(node("v20.0.0\n"))
}

#[test]
fn startup_runs_through() {
    let step = searching(3000);
    assert!(matches!(step.action, StartAction::TryPort(3000)));
    let step = step.state.step(StartEvent::Bound);
    assert!(matches!(step.action, StartAction::TryPort(3001)));
    assert!(step.notice.is_none());
    let step = step.state.step(StartEvent::Bound);
    assert!(matches!(step.action, StartAction::LaunchNode(3001)));
    assert!(step.notice.is_none());
    let step = step.state.step(StartEvent::NodeStarted(Ok(())));
    assert!(matches!(step.action, StartAction::Serve { port: 3000, api_port: 3001 }));
}

#[test]
fn busy_ports_are_passed_over_with_a_warning() {
    let step = searching(3000).state.step(StartEvent::Refused);
    assert!(matches!(step.action, StartAction::TryPort(3001)));
    let step = step.state.step(StartEvent::Bound);
    assert_eq!(
        step.notice,
        Some("\n  \u{1b}[33m⚠\u{1b}[0m  Port 3000 in use — using 3001 instead.\n".to_string())
    );
    assert!(matches!(step.action, StartAction::TryPort(3002)));
    let step = step.state.step(StartEvent::Refused).state.step(StartEvent::Bound);
    assert_eq!(
        step.notice,
        Some("\n  \u{1b}[33m⚠\u{1b}[0m  Port 3002 in use — using 3003 instead.\n".to_string())
    );
    assert!(matches!(step.action, StartAction::LaunchNode(3003)));
}

#[test]
fn missing_site_ends_the_program() {
    let step = Startup::begin(3000).state.step(site(false));
    match step.action {
        StartAction::Fail(text) => assert_eq!(
            text,
            "\n  \u{1b}[31m✗\u{1b}[0m  dist/ not found at /srv/dist.\n      Run \u{1b}[36mnpm run build\u{1b}[0m first.\n\n"
        ),
        _ => panic!("went on"),
    }
    assert!(matches!(step.state, Startup::Stopped));
}

#[test]
fn old_or_missing_node_ends_the_program() {
    for event in [node("v18.0.0\n"), StartEvent::NodeVersion(None)] {
        let step = Startup::begin(3000).state.step(site(true)).state.step(event);
        assert!(matches!(step.action, StartAction::Fail(_)));
        let step = step.state.step(StartEvent::Bound);
        assert!(matches!(step.action, StartAction::Ignore));
        assert!(matches!(step.state, Startup::Stopped));
    }
}

#[test]
fn search_gives_up_after_a_hundred_ports() {
    let mut step = searching(3000);
    for _ in 0..99 {
        step = step.state.step(StartEvent::Refused);
    }
    assert!(matches!(step.action, StartAction::TryPort(3099)));
    let step = step.state.step(StartEvent::Refused);
    assert!(matches!(
        step.action,
        StartAction::Abort(text) if text == "No free port found in range 3000–3099"
    ));
}

#[test]
fn search_for_the_api_port_gives_up_too() {
    let mut step = searching(65533).state.step(StartEvent::Bound);
    assert!(matches!(step.action, StartAction::TryPort(65534)));
    step = step.state.step(StartEvent::Refused).state.step(StartEvent::Refused);
    assert!(matches!(
        step.action,
        StartAction::Abort(text) if text == "No free port found in range 65534–65535"
    ));
}

#[test]
fn last_port_leaves_none_for_the_api() {
    let step = searching(65535).state.step(StartEvent::Bound);
    assert!(matches!(
        step.action,
        StartAction::Abort(text) if text == "attempt to add with overflow"
    ));
}

#[test]
fn failed_launch_ends_the_program() {
    let step = searching(1).state.step(StartEvent::Bound).state.step(StartEvent::Bound);
    let step = step.state.step(StartEvent::NodeStarted(Err("why".to_string())));
    assert!(matches!(
        step.action,
        StartAction::Fail(text)
            if text == "\n  \u{1b}[31m✗\u{1b}[0m  Failed to start Node API process: why\n\n"
    ));
}

#[test]
fn events_out_of_turn_change_nothing() {
    let step = Startup::begin(3000).state.step(StartEvent::Bound);
    assert!(matches!(step.action, StartAction::Ignore));
    assert!(matches!(step.state, Startup::SiteCheck { default_port: 3000 }));
}

#[test]
fn server_comes_up_past_busy_ports() {
    let mut step = searching(3000);
    for event in [
        StartEvent::Refused,
        StartEvent::Refused,
        StartEvent::Bound,
        StartEvent::Refused,
        StartEvent::Bound,
        StartEvent::NodeStarted(Ok(())),
    ] {
        step = step.state.step(event);
    }
    assert!(matches!(step.action, StartAction::Serve { port: 3002, api_port: 3004 }));
    assert!(matches!(step.state, Startup::Serving { port: 3002, api_port: 3004 }));
}
