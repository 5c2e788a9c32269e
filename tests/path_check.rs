use network_monitor::{
    build_packet_request, unique_path_key, Connection, NodeDescriptor, PacketConstructionError,
    PathChecker, PathStatus, ProbeDecision, Registration,
};

fn node(seed: u8) -> NodeDescriptor {
    NodeDescriptor { pub_key: [seed; 32], address: format!("10.1.0.{}:1789", seed) }
}

const OURS: [u8; 32] = [200u8; 32];

#[test]
fn registration_records_each_provider() {
    let d1 = node(1);
    let d2 = node(2);
    let (checker, outcomes) =
        PathChecker::new(OURS, &vec![(d1.pub_key, true), (d2.pub_key, false)]);
    assert_eq!(outcomes, vec![Registration::Registered, Registration::Unreachable]);
    assert_eq!(checker.provider_state(&d1.pub_key), Some(Connection::Connected));
    assert_eq!(checker.provider_state(&d2.pub_key), Some(Connection::Unreachable));
    let warnings = outcomes.iter().filter(|o| **o == Registration::Unreachable).count();
    assert_eq!(warnings, 1);
}

#[test]
fn duplicate_registration_is_reported_and_kept() {
    let d = node(3);
    let (checker, outcomes) =
        PathChecker::new(OURS, &vec![(d.pub_key, false), (d.pub_key, true)]);
    assert_eq!(outcomes, vec![Registration::Unreachable, Registration::AlreadyRegistered]);
    assert_eq!(checker.provider_state(&d.pub_key), Some(Connection::Unreachable));
}

#[test]
fn unreachable_provider_short_circuits() {
    let provider = node(9);
    let (mut checker, _) = PathChecker::new(OURS, &vec![(provider.pub_key, false)]);
    let path = vec![node(1), node(2), provider];
    let decision = checker.check_path(&path);
    assert!(matches!(decision, ProbeDecision::ProviderUnreachable));
    assert_eq!(checker.first_hop_state(&path[0].pub_key), None);
}

#[test]
fn unreachable_first_hop_short_circuits() {
    let provider = node(9);
    let (mut checker, _) = PathChecker::new(OURS, &vec![(provider.pub_key, true)]);
    let path = vec![node(1), node(2), provider];
    assert!(checker.record_first_hop_failure(&path[0].pub_key));
    let decision = checker.check_path(&path);
    assert!(matches!(decision, ProbeDecision::FirstHopUnreachable));
    assert_eq!(checker.first_hop_state(&path[0].pub_key), Some(Connection::Unreachable));
}

#[test]
fn unseen_first_hop_is_cached_and_probed() {
    let provider = node(9);
    let (mut checker, _) = PathChecker::new(OURS, &vec![(provider.pub_key, true)]);
    let path = vec![node(1), node(2), provider];
    assert_eq!(checker.first_hop_state(&path[0].pub_key), None);
    let decision = checker.check_path(&path);
    match decision {
        ProbeDecision::Send(req) => {
            assert_eq!(req.route, vec![[1u8; 32], [2u8; 32], [9u8; 32]]);
            assert_eq!(req.destination, OURS);
            assert_eq!(req.delays, vec![0u64, 0, 0]);
        }
        _ => panic!("expected a send"),
    }
    assert_eq!(checker.first_hop_state(&path[0].pub_key), Some(Connection::Connected));
    assert_eq!(checker.first_hop_state(&path[1].pub_key), None);
    assert!(!checker.record_first_hop_failure(&path[0].pub_key));
}

#[test]
fn send_results_set_path_status() {
    let provider = node(9);
    let (mut checker, _) = PathChecker::new(OURS, &vec![(provider.pub_key, true)]);
    let path = vec![node(1), provider];
    let first = unique_path_key(&path, 0);
    let second = unique_path_key(&path, 1);
    assert_eq!(checker.path_status(&first), None);
    assert!(checker.record_send_result(&first, true));
    assert!(!checker.record_send_result(&second, false));
    assert_eq!(checker.path_status(&first), Some(PathStatus::Pending));
    assert_eq!(checker.path_status(&second), Some(PathStatus::Unhealthy));
    checker.confirm_delivery(&first);
    assert_eq!(checker.path_status(&first), Some(PathStatus::Healthy));
}

#[test]
fn packet_request_errors() {
    assert!(matches!(
        build_packet_request(&Vec::new(), OURS, Vec::new()),
        Err(PacketConstructionError::EmptyPath)
    ));
    assert!(matches!(
        build_packet_request(&vec![node(1), node(2)], OURS, vec![0]),
        Err(PacketConstructionError::DelayCountMismatch)
    ));
    let req = build_packet_request(&vec![node(1), node(2)], OURS, vec![5, 6]).unwrap();
    assert_eq!(req.route, vec![[1u8; 32], [2u8; 32]]);
    assert_eq!(req.delays, vec![5u64, 6]);
    assert_eq!(req.destination, OURS);
}
