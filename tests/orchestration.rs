use network_monitor::{
    FatalError, Monitor, MonitorAction, MonitorEvent, MonitorPhase,
};

fn started(relays: Option<usize>) -> (Monitor, MonitorAction) {
    let mut monitor = Monitor::new();
    assert_eq!(monitor.step(MonitorEvent::Start), MonitorAction::Authenticate);
    assert_eq!(monitor.step(MonitorEvent::Authenticated(true)), MonitorAction::FetchTopology);
    let action = monitor.step(MonitorEvent::TopologyFetched(relays));
    (monitor, action)
}

#[test]
fn full_run_probes_each_relay_in_order() {
    let (mut monitor, action) = started(Some(3));
    assert_eq!(action, MonitorAction::SpawnListenerAndSanityCheck);
    assert_eq!(monitor.phase(), MonitorPhase::SanityChecking);
    assert_eq!(monitor.step(MonitorEvent::ProbeSent), MonitorAction::WaitForTick);
    let mut probed = Vec::new();
    for i in 0..3 {
        assert_eq!(monitor.phase(), MonitorPhase::Pacing(i));
        match monitor.step(MonitorEvent::TickElapsed) {
            MonitorAction::Probe(n) => probed.push(n),
            other => panic!("unexpected {:?}", other),
        }
        let next = monitor.step(MonitorEvent::ProbeSent);
        if i < 2 {
            assert_eq!(next, MonitorAction::WaitForTick);
        } else {
            assert_eq!(next, MonitorAction::WaitForInterrupt);
        }
    }
    assert_eq!(probed, vec![0, 1, 2]);
    assert_eq!(monitor.phase(), MonitorPhase::AwaitingInterrupt);
    assert_eq!(monitor.step(MonitorEvent::InterruptReceived), MonitorAction::Terminate);
    assert_eq!(monitor.phase(), MonitorPhase::Interrupted);
    assert_eq!(monitor.step(MonitorEvent::TickElapsed), MonitorAction::Nothing);
}

#[test]
fn failed_authentication_aborts() {
    let mut monitor = Monitor::new();
    monitor.step(MonitorEvent::Start);
    assert_eq!(
        monitor.step(MonitorEvent::Authenticated(false)),
        MonitorAction::Abort(FatalError::AuthenticationFailed)
    );
    assert_eq!(monitor.phase(), MonitorPhase::Aborted);
    assert_eq!(monitor.step(MonitorEvent::Start), MonitorAction::Nothing);
}

#[test]
fn missing_topology_aborts() {
    let (monitor, action) = started(None);
    assert_eq!(action, MonitorAction::Abort(FatalError::TopologyUnavailable));
    assert_eq!(monitor.phase(), MonitorPhase::Aborted);
}

#[test]
fn empty_topology_aborts() {
    let (_, action) = started(Some(0));
    assert_eq!(action, MonitorAction::Abort(FatalError::NoNodes));
}

#[test]
fn out_of_turn_events_change_nothing() {
    let mut monitor = Monitor::new();
    assert_eq!(monitor.step(MonitorEvent::TickElapsed), MonitorAction::Nothing);
    assert_eq!(monitor.phase(), MonitorPhase::Uninitialized);
    monitor.step(MonitorEvent::Start);
    assert_eq!(monitor.step(MonitorEvent::ProbeSent), MonitorAction::Nothing);
    assert_eq!(monitor.phase(), MonitorPhase::Authenticating);
}

#[test]
fn interrupt_during_sweep_terminates() {
    let (mut monitor, _) = started(Some(2));
    monitor.step(MonitorEvent::ProbeSent);
    monitor.step(MonitorEvent::TickElapsed);
    assert_eq!(monitor.step(MonitorEvent::InterruptReceived), MonitorAction::Terminate);
}
