use hyprpanopticon::refresh::{all_addrs, CaptureBudget, TextureCache};
use hyprpanopticon::snapshot::{assemble, ClientInfo, MonitorInfo, WorkspaceInfo};

fn sample() -> hyprpanopticon::snapshot::Snapshot {
    let monitors = vec![MonitorInfo {
        name: "DP-1".to_string(),
        focused: true,
        x: 0,
        y: 0,
        active_workspace: 1,
    }];
    let ws = |id: i32, name: &str| WorkspaceInfo {
        id,
        name: name.to_string(),
        monitor: "DP-1".to_string(),
    };
    let c = |addr: &str, w: i32, fh: i8| ClientInfo {
        address: addr.to_string(),
        mapped: true,
        workspace: w,
        at: (0, 0),
        size: (10, 10),
        class: "k".to_string(),
        title: "t".to_string(),
        focus_history_id: fh,
    };
    assemble(
        &monitors,
        &vec![ws(2, "2"), ws(-98, "special:s"), ws(1, "1")],
        &vec![c("0xa", -98, 0), c("0xb", 2, 0), c("0xc", 1, 0), c("0xd", 1, 3)],
        false,
    )
    .unwrap()
}

#[test]
fn all_addresses_normal_then_special() {
    let snap = sample();
    assert_eq!(all_addrs(&snap), vec![0xd, 0xc, 0xb, 0xa]);
    assert_eq!(snap.workspaces[0].window_addrs(), vec![0xd, 0xc]);
    assert!(snap.workspaces[0].has_window(0xc));
    assert!(!snap.workspaces[0].has_window(0xb));
}

#[test]
fn cache_keeps_alive_textures_and_reports_missing() {
    let mut cache: TextureCache<&str> = TextureCache::new();
    cache.insert(1, "one");
    cache.insert(2, "two");
    cache.insert(3, "three");
    cache.insert(2, "two again");
    assert_eq!(cache.get(2), Some(&"two again"));
    let alive = vec![3, 4, 2, 4, 5];
    cache.retain_alive(&alive);
    assert!(!cache.contains(1));
    assert_eq!(cache.get(3), Some(&"three"));
    assert_eq!(cache.missing(&alive), vec![4, 5]);
    cache.retain_alive(&vec![]);
    assert!(cache.get(3).is_none());
}

#[test]
fn budget_counts_requests_in_flight() {
    let mut b = CaptureBudget::new();
    assert!(b.idle());
    b.requested(3);
    assert_eq!(b.pending(), 3);
    b.answered();
    b.answered();
    assert!(!b.idle());
    b.answered();
    assert!(b.idle());
    b.answered();
    assert_eq!(b.pending(), 0);
}

use hyprpanopticon::refresh::{recapture_step, RecaptureStep};

#[test]
fn recapture_ticks() {
    let mut b = CaptureBudget::new();
    assert_eq!(recapture_step(false, &b, Some(1)), RecaptureStep::Stop);
    assert_eq!(recapture_step(true, &b, Some(1)), RecaptureStep::Recapture(1));
    assert_eq!(recapture_step(true, &b, None), RecaptureStep::Idle);
    b.requested(2);
    assert_eq!(recapture_step(true, &b, Some(1)), RecaptureStep::Wait);
    assert_eq!(recapture_step(false, &b, Some(1)), RecaptureStep::Stop);
}
