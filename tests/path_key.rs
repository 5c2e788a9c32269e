use network_monitor::{path_key_to_node_keys, unique_path_key, NodeDescriptor};

fn node(seed: u8) -> NodeDescriptor {
    let mut key = [0u8; 32];
    for (i, b) in key.iter_mut().enumerate() {
        *b = seed.wrapping_mul(31).wrapping_add(i as u8);
    }
    NodeDescriptor { pub_key: key, address: format!("10.0.0.{}:1789", seed) }
}

#[test]
fn path_key_round_trip_gives_node_keys() {
    let path = vec![node(1), node(2), node(3)];
    for iteration in [0u8, 7, 255] {
        let key = unique_path_key(&path, iteration);
        let keys = path_key_to_node_keys(key);
        assert_eq!(keys, vec![path[0].pub_key, path[1].pub_key, path[2].pub_key]);
    }
}

#[test]
fn path_key_layout_and_length() {
    let path = vec![node(4), node(5)];
    let key = unique_path_key(&path, 9);
    assert_eq!(key.len(), 32 * 2 + 1);
    assert_eq!(key.len() % 32, 1);
    assert_eq!(key[0], 9);
    assert_eq!(&key[1..33], &path[0].pub_key[..]);
    assert_eq!(&key[33..65], &path[1].pub_key[..]);
}

#[test]
fn path_key_of_empty_path_is_iteration_byte() {
    let key = unique_path_key(&Vec::new(), 3);
    assert_eq!(key, vec![3u8]);
    assert!(path_key_to_node_keys(key).is_empty());
}

#[test]
fn path_key_differs_per_iteration() {
    let path = vec![node(6)];
    assert_ne!(unique_path_key(&path, 1), unique_path_key(&path, 2));
}

#[test]
fn node_keys_split_in_order() {
    let mut key = vec![0u8];
    key.extend((0u8..32).map(|b| b));
    key.extend((100u8..132).map(|b| b));
    let keys = path_key_to_node_keys(key);
    assert_eq!(keys.len(), 2);
    assert_eq!(keys[0][0], 0);
    assert_eq!(keys[0][31], 31);
    assert_eq!(keys[1][0], 100);
    assert_eq!(keys[1][31], 131);
}
