use hyprpanopticon::input::{key_action, scroll_action, InputAction, OverlayKey};

#[test]
fn key_table() {
    for k in [OverlayKey::Escape, OverlayKey::Q] {
        assert_eq!(key_action(k, 0), InputAction::Close);
    }
    for k in [OverlayKey::Left, OverlayKey::Up, OverlayKey::H, OverlayKey::K] {
        assert_eq!(key_action(k, 0), InputAction::Rotate(-1));
    }
    for k in [OverlayKey::Right, OverlayKey::Down, OverlayKey::L, OverlayKey::J] {
        assert_eq!(key_action(k, 0), InputAction::Rotate(1));
    }
    for k in [OverlayKey::Return, OverlayKey::KpEnter, OverlayKey::Space] {
        assert_eq!(key_action(k, 2), InputAction::Commit);
    }
    assert_eq!(key_action(OverlayKey::Other, 3), InputAction::Ignore);
}

#[test]
fn digits_toggle_specials() {
    assert_eq!(key_action(OverlayKey::Digit(1), 2), InputAction::ToggleSpecial(0));
    assert_eq!(key_action(OverlayKey::Digit(2), 2), InputAction::ToggleSpecial(1));
    assert_eq!(key_action(OverlayKey::Digit(3), 2), InputAction::Ignore);
    assert_eq!(key_action(OverlayKey::Digit(0), 2), InputAction::Ignore);
    assert_eq!(key_action(OverlayKey::Digit(9), 9), InputAction::ToggleSpecial(8));
}

#[test]
fn scroll_rotates_by_sign() {
    assert_eq!(scroll_action(1), InputAction::Rotate(1));
    assert_eq!(scroll_action(-1), InputAction::Rotate(-1));
    assert_eq!(scroll_action(0), InputAction::Ignore);
}
