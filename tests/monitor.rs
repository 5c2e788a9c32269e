use network_monitor::{
    new_with_node, sweep_paths, unique_path_key, NodeDescriptor, PathChecker, ProbeDecision,
    SweepError, Validator, PACING_INTERVAL_SECS,
};

fn node(seed: u8) -> NodeDescriptor {
    NodeDescriptor { pub_key: [seed; 32], address: format!("10.2.0.{}:1789", seed) }
}

#[test]
fn sanity_check_then_sweep() {
    let (a, b, c) = (node(1), node(2), node(3));
    let (x, y, d) = (node(24), node(25), node(4));
    let trusted = vec![x.duplicate(), y.duplicate(), d.duplicate()];
    let (mut checker, _) = PathChecker::new([99u8; 32], &vec![(d.pub_key, true)]);

    assert!(matches!(checker.check_path(&trusted), ProbeDecision::Send(_)));

    let relays = vec![a.duplicate(), b.duplicate(), c.duplicate()];
    let paths = sweep_paths(&relays, &trusted).unwrap();
    assert_eq!(paths.len(), 3);
    let mut outcomes = Vec::new();
    let mut clock = 0u64;
    for (relay, path) in relays.iter().zip(paths.iter()) {
        clock += PACING_INTERVAL_SECS;
        assert_eq!(path[0].pub_key, relay.pub_key);
        assert_eq!(path[1].pub_key, y.pub_key);
        assert_eq!(path[2].pub_key, d.pub_key);
        let sent = matches!(checker.check_path(path), ProbeDecision::Send(_));
        outcomes.push((clock, unique_path_key(path, 0)[1], sent));
    }
    assert_eq!(outcomes, vec![(2, 1, true), (4, 2, true), (6, 3, true)]);
}

#[test]
fn substituted_path_replaces_first_relay() {
    let trusted = vec![node(24), node(25), node(4)];
    let path = new_with_node(&trusted, &node(7));
    assert_eq!(path, vec![node(7), node(25), node(4)]);
    assert_eq!(trusted[0], node(24));
}

#[test]
fn sweep_errors() {
    let trusted = vec![node(24), node(25), node(4)];
    assert_eq!(sweep_paths(&Vec::new(), &trusted).err(), Some(SweepError::NoNodes));
    assert_eq!(
        sweep_paths(&vec![node(1)], &vec![node(4)]).err(),
        Some(SweepError::ReferenceTooShort)
    );
}

#[test]
fn validator_starts_idle() {
    let _validator = Validator::new();
}
