use term_render::{Input, TerminalInput};

#[test]
fn drain_moves_every_pending_byte_in_order() {
    let mut q = Input::new();
    let mut snap = TerminalInput::new();
    for c in ['w', 'a', 'a', ' ', 'q'] {
        q.send(c);
    }
    q.drain(&mut snap);
    assert_eq!(snap.active_keys, vec!['w', 'a', 'a', ' ', 'q']);
}

#[test]
fn second_drain_with_no_new_bytes_is_empty() {
    let mut q = Input::new();
    let mut snap = TerminalInput::new();
    q.send('x');
    q.drain(&mut snap);
    assert_eq!(snap.active_keys, vec!['x']);
    q.drain(&mut snap);
    assert!(snap.active_keys.is_empty());
}

#[test]
fn drain_replaces_the_previous_snapshot() {
    let mut q = Input::new();
    let mut snap = TerminalInput::new();
    q.send('a');
    q.send('b');
    q.drain(&mut snap);
    q.send('c');
    q.drain(&mut snap);
    assert_eq!(snap.active_keys, vec!['c']);
}

#[test]
fn is_active_finds_received_keys() {
    let mut q = Input::new();
    let mut snap = TerminalInput::new();
    q.send('w');
    q.send(' ');
    q.drain(&mut snap);
    assert!(snap.is_active('w'));
    assert!(snap.is_active(' '));
    assert!(!snap.is_active('q'));
}
