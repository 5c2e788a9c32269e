use network_monitor::{Fragment, ReassemblyError, ReassemblyState};

fn frag(set_id: u64, total: u8, index: u8, payload: &[u8]) -> Fragment {
    Fragment { set_id, total, index, payload: payload.to_vec() }
}

#[test]
fn interleaved_sets_reassemble_separately() {
    let mut state = ReassemblyState::new();
    let order = [
        frag(1, 3, 2, b"ld"),
        frag(2, 2, 1, b"bye"),
        frag(1, 3, 0, b"hel"),
        frag(2, 2, 0, b"good"),
        frag(1, 3, 1, b"lo wor"),
    ];
    let mut done = Vec::new();
    for f in order {
        if let Some(message) = state.insert_new_fragment(f).unwrap() {
            done.push(message);
        }
    }
    assert_eq!(done, vec![b"goodbye".to_vec(), b"hello world".to_vec()]);
}

#[test]
fn incomplete_set_yields_nothing() {
    let mut state = ReassemblyState::new();
    assert_eq!(state.insert_new_fragment(frag(5, 2, 0, b"a")), Ok(None));
    assert_eq!(state.insert_new_fragment(frag(5, 2, 1, b"b")), Ok(Some(b"ab".to_vec())));
    assert_eq!(state.insert_new_fragment(frag(5, 2, 1, b"c")), Ok(None));
}

#[test]
fn single_fragment_message_completes_at_once() {
    let mut state = ReassemblyState::new();
    assert_eq!(state.insert_new_fragment(frag(7, 1, 0, b"x")), Ok(Some(b"x".to_vec())));
}

#[test]
fn reassembly_errors() {
    let mut state = ReassemblyState::new();
    assert_eq!(
        state.insert_new_fragment(frag(1, 0, 0, b"a")),
        Err(ReassemblyError::MalformedFragment)
    );
    assert_eq!(
        state.insert_new_fragment(frag(1, 2, 2, b"a")),
        Err(ReassemblyError::MalformedFragment)
    );
    assert_eq!(state.insert_new_fragment(frag(1, 3, 0, b"a")), Ok(None));
    assert_eq!(
        state.insert_new_fragment(frag(1, 4, 1, b"b")),
        Err(ReassemblyError::TotalMismatch)
    );
    assert_eq!(
        state.insert_new_fragment(frag(1, 3, 0, b"c")),
        Err(ReassemblyError::DuplicateFragment)
    );
    assert_eq!(state.insert_new_fragment(frag(1, 3, 1, b"b")), Ok(None));
    assert_eq!(state.insert_new_fragment(frag(1, 3, 2, b"c")), Ok(Some(b"abc".to_vec())));
}
