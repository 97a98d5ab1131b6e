use hyprpanopticon::dispatch::{dispatch_for, special_for_digit, WorkspaceDispatch};

#[test]
fn special_workspaces_are_toggled_by_name() {
    match dispatch_for(-98, "scratch") {
        WorkspaceDispatch::ToggleSpecial(n) => assert_eq!(n, "scratch"),
        other => panic!("unexpected {other:?}"),
    }
}

#[test]
fn normal_workspaces_are_switched_to_by_id() {
    assert!(matches!(dispatch_for(3, "3"), WorkspaceDispatch::Switch(3)));
    assert!(matches!(dispatch_for(0, ""), WorkspaceDispatch::Switch(0)));
}

#[test]
fn digits_pick_specials_one_based() {
    assert_eq!(special_for_digit(1, 3), Some(0));
    assert_eq!(special_for_digit(3, 3), Some(2));
    assert_eq!(special_for_digit(4, 3), None);
    assert_eq!(special_for_digit(0, 3), None);
    assert_eq!(special_for_digit(1, 0), None);
}

use hyprpanopticon::preview::{badge_for, border_for, Badge, Border};

#[test]
fn badges() {
    assert_eq!(badge_for(Some(2), false), Some(Badge::Numbered(2)));
    assert_eq!(badge_for(Some(2), true), Some(Badge::Numbered(2)));
    assert_eq!(badge_for(None, true), Some(Badge::Name));
    assert_eq!(badge_for(None, false), None);
}

#[test]
fn borders() {
    assert_eq!(border_for(true, -98), Border::Focused);
    assert_eq!(border_for(false, -98), Border::Special);
    assert_eq!(border_for(false, 3), Border::Plain);
}
