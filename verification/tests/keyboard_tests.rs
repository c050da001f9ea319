use lazers::keyboard::{poll, pop_event, KeyCode, KeyState, Keyboard};

#[test]
fn poll_decodes_shift_and_skips_extended_codes() {
    let mut keyboard = Keyboard::new();
    // left shift down, 'a' down, an extended key, left shift up, 'a' down
    poll(&mut keyboard, &[0x2a, 0x1e, 0xe0, 0x1c, 0xaa, 0x1e]);

    let first = pop_event(&mut keyboard).unwrap();
    assert!(matches!(first.key, KeyCode::LeftShift));
    assert!(matches!(first.state, KeyState::Pressed));
    assert!(first.shift_active);

    let second = pop_event(&mut keyboard).unwrap();
    assert!(matches!(second.key, KeyCode::A));
    assert!(second.shift_active);

    let third = pop_event(&mut keyboard).unwrap();
    assert!(matches!(third.key, KeyCode::LeftShift));
    assert!(matches!(third.state, KeyState::Released));
    assert!(!third.shift_active);

    let fourth = pop_event(&mut keyboard).unwrap();
    assert!(matches!(fourth.key, KeyCode::A));
    assert!(!fourth.shift_active);

    assert!(pop_event(&mut keyboard).is_none());
}
