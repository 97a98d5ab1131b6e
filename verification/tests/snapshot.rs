use hyprpanopticon::snapshot::{assemble, ClientInfo, MonitorInfo, Rect, WorkspaceInfo};

fn mon(name: &str, focused: bool, x: i32, y: i32, active: i32) -> MonitorInfo {
    MonitorInfo { name: name.to_string(), focused, x, y, active_workspace: active }
}

fn ws(id: i32, name: &str, monitor: &str) -> WorkspaceInfo {
    WorkspaceInfo { id, name: name.to_string(), monitor: monitor.to_string() }
}

fn client(addr: &str, ws: i32, at: (i16, i16), size: (i16, i16), class: &str, fh: i8) -> ClientInfo {
    ClientInfo {
        address: addr.to_string(),
        mapped: true,
        workspace: ws,
        at,
        size,
        class: class.to_string(),
        title: format!("{class} window"),
        focus_history_id: fh,
    }
}

#[test]
fn no_monitor_no_snapshot() {
    assert!(assemble(&vec![], &vec![ws(1, "1", "DP-1")], &vec![], false).is_none());
}

#[test]
fn covers_the_focused_monitor() {
    let monitors = vec![mon("DP-1", false, 0, 0, 1), mon("HDMI-A-1", true, 1920, 0, 4)];
    let snap = assemble(&monitors, &vec![], &vec![], false).unwrap();
    assert_eq!(snap.monitor, 1);
    assert_eq!(snap.monitor_name, "HDMI-A-1");
    assert_eq!(snap.active_workspace, 4);
    assert!(snap.workspaces.is_empty());
    assert!(snap.specials.is_empty());
}

#[test]
fn falls_back_to_the_first_monitor() {
    let monitors = vec![mon("DP-1", false, 0, 0, 2), mon("DP-2", false, 1920, 0, 5)];
    let snap = assemble(&monitors, &vec![], &vec![], false).unwrap();
    assert_eq!(snap.monitor, 0);
    assert_eq!(snap.monitor_name, "DP-1");
    assert_eq!(snap.active_workspace, 2);
}

#[test]
fn workspaces_sorted_and_specials_renamed() {
    let monitors = vec![mon("DP-1", true, 0, 0, 1), mon("DP-2", false, 1920, 0, 3)];
    let workspaces = vec![
        ws(3, "three", "DP-2"),
        ws(-98, "special:scratch", "DP-1"),
        ws(1, "one", "DP-1"),
        ws(-99, "special:music", "DP-2"),
        ws(2, "two", "DP-1"),
        ws(0, "zero", "DP-1"),
        ws(-5, "plain", "DP-1"),
    ];
    let snap = assemble(&monitors, &workspaces, &vec![], false).unwrap();
    let ids: Vec<i32> = snap.workspaces.iter().map(|w| w.id).collect();
    assert_eq!(ids, vec![1, 2, 3]);
    assert_eq!(snap.workspaces[2].name, "three");
    assert_eq!(snap.workspaces[2].monitor, 1);
    assert_eq!(snap.workspaces[0].monitor, 0);
    let sids: Vec<i32> = snap.specials.iter().map(|w| w.id).collect();
    assert_eq!(sids, vec![-99, -98, -5]);
    let names: Vec<&str> = snap.specials.iter().map(|w| w.name.as_str()).collect();
    assert_eq!(names, vec!["music", "scratch", "plain"]);
}

#[test]
fn per_monitor_keeps_the_covered_monitor_only() {
    let monitors = vec![mon("DP-1", false, 0, 0, 1), mon("DP-2", true, 1920, 0, 3)];
    let workspaces = vec![ws(1, "1", "DP-1"), ws(3, "3", "DP-2"), ws(4, "4", "DP-2")];
    let snap = assemble(&monitors, &workspaces, &vec![], true).unwrap();
    let ids: Vec<i32> = snap.workspaces.iter().map(|w| w.id).collect();
    assert_eq!(ids, vec![3, 4]);
    assert!(snap.workspaces.iter().all(|w| w.monitor == snap.monitor));
    let all = assemble(&monitors, &workspaces, &vec![], false).unwrap();
    assert_eq!(all.workspaces.len(), 3);
}

#[test]
fn unknown_monitor_uses_the_covered_one() {
    let monitors = vec![mon("DP-1", false, 0, 0, 1), mon("DP-2", true, 1920, 0, 3)];
    let workspaces = vec![ws(7, "7", "gone")];
    let snap = assemble(&monitors, &workspaces, &vec![], false).unwrap();
    assert_eq!(snap.workspaces[0].monitor, 1);
}

#[test]
fn windows_are_placed_relative_to_their_monitor() {
    let monitors = vec![mon("DP-1", true, 0, 0, 1), mon("DP-2", false, 1920, -100, 2)];
    let workspaces = vec![ws(1, "1", "DP-1"), ws(2, "2", "DP-2")];
    let clients = vec![
        client("0x10", 2, (2000, 50), (800, 600), "kitty", 1),
        client("0x20", 1, (10, 20), (300, 400), "firefox", 0),
    ];
    let snap = assemble(&monitors, &workspaces, &clients, false).unwrap();
    let w1 = &snap.workspaces[0].windows;
    assert_eq!(w1.len(), 1);
    assert_eq!(w1[0].addr, 0x20);
    assert_eq!(w1[0].rect, Rect { x: 10, y: 20, w: 300, h: 400 });
    assert_eq!(w1[0].class, "firefox");
    let w2 = &snap.workspaces[1].windows;
    assert_eq!(w2[0].addr, 0x10);
    assert_eq!(w2[0].rect, Rect { x: 80, y: 150, w: 800, h: 600 });
    assert_eq!(w2[0].focus_order, 1);
    assert_eq!(w2[0].title, "kitty window");
}

#[test]
fn windows_drawn_least_recently_focused_first() {
    let monitors = vec![mon("DP-1", true, 0, 0, 1)];
    let workspaces = vec![ws(1, "1", "DP-1")];
    let clients = vec![
        client("0x1", 1, (0, 0), (10, 10), "a", 0),
        client("0x2", 1, (0, 0), (10, 10), "b", 2),
        client("0x3", 1, (0, 0), (10, 10), "c", -1),
        client("0x4", 1, (0, 0), (10, 10), "d", 1),
    ];
    let snap = assemble(&monitors, &workspaces, &clients, false).unwrap();
    let order: Vec<u64> = snap.workspaces[0].windows.iter().map(|w| w.addr).collect();
    // focus orders 0, 2, 0 (from -1), 1: ties keep their reported order.
    assert_eq!(order, vec![0x2, 0x4, 0x1, 0x3]);
}

#[test]
fn skipped_clients() {
    let monitors = vec![mon("DP-1", true, 0, 0, 1)];
    let workspaces = vec![ws(1, "1", "DP-1"), ws(-98, "special:s", "DP-1")];
    let mut unmapped = client("0x5", 1, (0, 0), (1, 1), "u", 0);
    unmapped.mapped = false;
    let clients = vec![
        unmapped,
        client("zz", 1, (0, 0), (1, 1), "bad", 0),
        client("0x6", 9, (0, 0), (1, 1), "nowhere", 0),
        client("0x7", -98, (0, 0), (1, 1), "special", 0),
    ];
    let snap = assemble(&monitors, &workspaces, &clients, false).unwrap();
    assert!(snap.workspaces[0].windows.is_empty());
    assert_eq!(snap.specials[0].windows.len(), 1);
    assert_eq!(snap.specials[0].windows[0].addr, 0x7);
    assert_eq!(snap.specials[0].name, "s");
}
