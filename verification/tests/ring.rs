use hyprpanopticon::ring::{initial_focus, RingFocus};

#[test]
fn initial_focus_prefers_previous_then_active() {
    let ids = vec![1, 2, 3, 5];
    assert_eq!(initial_focus(&ids, Some(3), 1), 2);
    assert_eq!(initial_focus(&ids, Some(4), 5), 3);
    assert_eq!(initial_focus(&ids, None, 2), 1);
    assert_eq!(initial_focus(&ids, None, 9), 0);
    assert_eq!(initial_focus(&vec![], Some(1), 1), 0);
    assert_eq!(initial_focus(&vec![7, 7], None, 7), 0);
}

#[test]
fn rotation_wraps_around_the_ring() {
    let ids = vec![1, 2, 3, 4, 5, 6];
    let mut f = RingFocus::for_workspaces(&ids, None, 1);
    assert_eq!(f.focus(), 0);
    assert!(f.rotate(-1));
    assert_eq!(f.focus(), 5);
    assert!(f.rotate(1));
    assert_eq!(f.focus(), 0);
    assert!(f.rotate(2));
    assert_eq!(f.focus(), 2);
    assert!(!f.rotate(6));
    assert_eq!(f.focus(), 2);
    assert!(f.rotate(-13));
    assert_eq!(f.focus(), 1);
    assert!(f.rotate(i32::MIN));
    assert_eq!(f.focus(), ((1i64 + i32::MIN as i64).rem_euclid(6)) as usize);
}

#[test]
fn rotation_undoes() {
    let ids = vec![10, 20, 30, 40, 50];
    let mut f = RingFocus::for_workspaces(&ids, None, 30);
    let start = f.focus();
    f.rotate(7);
    f.rotate(-7);
    assert_eq!(f.focus(), start);
}

#[test]
fn single_and_empty_rings() {
    let mut one = RingFocus::for_workspaces(&vec![4], None, 4);
    assert!(!one.rotate(1));
    assert_eq!(one.focused(), Some(0));
    let mut none = RingFocus::for_workspaces(&vec![], None, 4);
    assert!(!none.rotate(1));
    assert_eq!(none.focused(), None);
    assert_eq!(none.len(), 0);
}

#[test]
fn set_focus_ignores_out_of_range_and_current() {
    let mut f = RingFocus::for_workspaces(&vec![1, 2, 3], None, 2);
    assert_eq!(f.focus(), 1);
    assert!(!f.set_focus(1));
    assert!(!f.set_focus(3));
    assert_eq!(f.focus(), 1);
    assert!(f.set_focus(2));
    assert_eq!(f.focused(), Some(2));
}
