//! Assembly of one overview snapshot from what Hyprland reports: the monitor
//! to show, its normal and special workspaces in id order, and every mapped
//! window placed on its workspace with monitor-relative geometry.

use vstd::prelude::*;
use vstd::utf8::encode_utf8;
use crate::address::{parse_address, spec_parse_address};
use crate::sort::{is_stable_sort, lemma_stable_sort_map, sort_stable, stable_witness, Ranked};

verus! {

/// A monitor as Hyprland reports it: connector name, whether it has focus,
/// its origin in the global layout and its active workspace.
pub struct MonitorInfo {
    pub name: String,
    pub focused: bool,
    pub x: i32,
    pub y: i32,
    pub active_workspace: i32,
}

/// A workspace as Hyprland reports it, with the name of its monitor.
pub struct WorkspaceInfo {
    pub id: i32,
    pub name: String,
    pub monitor: String,
}

/// A client (window) as Hyprland reports it.
pub struct ClientInfo {
    pub address: String,
    pub mapped: bool,
    pub workspace: i32,
    pub at: (i16, i16),
    pub size: (i16, i16),
    pub class: String,
    pub title: String,
    /// 0 for the focused window, 1 for the one before, and so on.
    pub focus_history_id: i8,
}

/// A rectangle in logical pixels.
#[derive(Clone, Copy, Debug, PartialEq, Eq, Structural)]
pub struct Rect {
    pub x: i64,
    pub y: i64,
    pub w: i64,
    pub h: i64,
}

/// One window of a workspace preview.
#[derive(Clone, Debug)]
pub struct WindowThumb {
    pub addr: u64,
    /// Window rect relative to the origin of its workspace's monitor. May
    /// extend past that monitor's viewport; the preview clips it.
    pub rect: Rect,
    pub class: String,
    pub title: String,
    /// Stacking hint: focus history (lower = more recently focused, drawn last).
    pub focus_order: usize,
}

/// One workspace of the overview and its windows, drawn back to front.
#[derive(Clone, Debug)]
pub struct WorkspaceModel {
    pub id: i32,
    pub name: String,
    pub windows: Vec<WindowThumb>,
    /// Index (among the reported monitors) of the monitor whose viewport the
    /// workspace's window rects are relative to.
    pub monitor: usize,
}

/// What the overview shows.
#[derive(Clone, Debug)]
pub struct Snapshot {
    /// Index (among the reported monitors) of the monitor the overlay covers.
    pub monitor: usize,
    pub monitor_name: String,
    /// Normal workspaces (positive ids) sorted by id.
    pub workspaces: Vec<WorkspaceModel>,
    /// Special workspaces (negative ids) sorted by id, named without their
    /// `special:` prefix.
    pub specials: Vec<WorkspaceModel>,
    /// The active workspace of the covered monitor (initial ring focus).
    pub active_workspace: i32,
}

impl Ranked for WorkspaceModel {
    open spec fn rank(&self) -> int {
        self.id as int
    }

    fn rank_le(&self, other: &Self) -> (r: bool) {
        self.id <= other.id
    }
}

impl Ranked for WindowThumb {
    /// Least recently focused first.
    open spec fn rank(&self) -> int {
        -(self.focus_order as int)
    }

    fn rank_le(&self, other: &Self) -> (r: bool) {
        other.focus_order <= self.focus_order
    }
}

/// The first focused monitor, if any.
pub open spec fn focused_index(ms: Seq<MonitorInfo>) -> Option<int>
    decreases ms.len(),
{
    if ms.len() == 0 {
        None
    } else {
        match focused_index(ms.drop_last()) {
            Some(i) => Some(i),
            None => if ms.last().focused {
                Some(ms.len() - 1)
            } else {
                None
            },
        }
    }
}

/// The monitor the overlay covers: the focused one, else the first.
pub open spec fn chosen_monitor(ms: Seq<MonitorInfo>) -> int {
    match focused_index(ms) {
        Some(i) => i,
        None => 0,
    }
}

/// The last monitor named `name`, if any.
pub open spec fn last_named(ms: Seq<MonitorInfo>, name: Seq<char>) -> Option<int>
    decreases ms.len(),
{
    if ms.len() == 0 {
        None
    } else if ms.last().name@ == name {
        Some(ms.len() - 1)
    } else {
        last_named(ms.drop_last(), name)
    }
}

/// The monitor whose geometry stands for the covered monitor: monitors are
/// looked up by name, the last of a name winning.
pub open spec fn geometry_monitor(ms: Seq<MonitorInfo>) -> int {
    match last_named(ms, ms[chosen_monitor(ms)].name@) {
        Some(i) => i,
        None => chosen_monitor(ms),
    }
}

/// The monitor of a workspace on the monitor named `name`; the covered
/// monitor stands in for a name that no monitor has.
pub open spec fn workspace_monitor(ms: Seq<MonitorInfo>, name: Seq<char>) -> int {
    match last_named(ms, name) {
        Some(i) => i,
        None => geometry_monitor(ms),
    }
}

/// Whether workspace `w` is shown: always, unless only the covered
/// monitor's workspaces are.
pub open spec fn keeps(ms: Seq<MonitorInfo>, w: WorkspaceInfo, per_monitor: bool) -> bool {
    !per_monitor || w.monitor@ == ms[chosen_monitor(ms)].name@
}

/// `name` without its `special:` prefix, if it has one.
pub open spec fn strip_special(name: Seq<char>) -> Seq<char> {
    let p = "special:"@;
    if p.len() <= name.len() && name.take(p.len() as int) == p {
        name.skip(p.len() as int)
    } else {
        name
    }
}

/// Id, name and monitor of a workspace.
pub open spec fn shell_of(m: WorkspaceModel) -> (i32, Seq<char>, int) {
    (m.id, m.name@, m.monitor as int)
}

/// Id, name and monitor of each shown normal (`special == false`) or
/// special workspace, in the reported order.
pub open spec fn shells(
    ms: Seq<MonitorInfo>,
    ws: Seq<WorkspaceInfo>,
    per_monitor: bool,
    special: bool,
) -> Seq<(i32, Seq<char>, int)>
    decreases ws.len(),
{
    if ws.len() == 0 {
        seq![]
    } else {
        let prev = shells(ms, ws.drop_last(), per_monitor, special);
        let w = ws.last();
        if keeps(ms, w, per_monitor) && !special && w.id > 0 {
            prev.push((w.id, w.name@, workspace_monitor(ms, w.monitor@)))
        } else if keeps(ms, w, per_monitor) && special && w.id < 0 {
            prev.push((w.id, strip_special(w.name@), workspace_monitor(ms, w.monitor@)))
        } else {
            prev
        }
    }
}

/// Id and monitor of every shown workspace, in the reported order.
pub open spec fn kept_entries(
    ms: Seq<MonitorInfo>,
    ws: Seq<WorkspaceInfo>,
    per_monitor: bool,
) -> Seq<(i32, int)>
    decreases ws.len(),
{
    if ws.len() == 0 {
        seq![]
    } else {
        let prev = kept_entries(ms, ws.drop_last(), per_monitor);
        let w = ws.last();
        if keeps(ms, w, per_monitor) {
            prev.push((w.id, workspace_monitor(ms, w.monitor@)))
        } else {
            prev
        }
    }
}

/// The monitor of the last entry with workspace id `id`.
pub open spec fn last_entry(t: Seq<(i32, int)>, id: i32) -> Option<int>
    decreases t.len(),
{
    if t.len() == 0 {
        None
    } else if t.last().0 == id {
        Some(t.last().1)
    } else {
        last_entry(t.drop_last(), id)
    }
}

/// The monitor whose origin windows on workspace `id` are measured from:
/// that of the last shown workspace with this id.
pub open spec fn origin_monitor(
    ms: Seq<MonitorInfo>,
    ws: Seq<WorkspaceInfo>,
    per_monitor: bool,
    id: i32,
) -> Option<int> {
    last_entry(kept_entries(ms, ws, per_monitor), id)
}

/// Ids of the workspaces `models`.
pub open spec fn ids_of(models: Seq<WorkspaceModel>) -> Seq<i32> {
    models.map_values(|m: WorkspaceModel| m.id)
}

/// The first position holding `id`.
pub open spec fn first_position(ids: Seq<i32>, id: i32) -> Option<int>
    decreases ids.len(),
{
    if ids.len() == 0 {
        None
    } else {
        match first_position(ids.drop_last(), id) {
            Some(k) => Some(k),
            None => if ids.last() == id {
                Some(ids.len() - 1)
            } else {
                None
            },
        }
    }
}

/// Where a window on workspace `id` goes: the first normal workspace with
/// that id (`(false, k)`), else the first special one (`(true, k)`).
pub open spec fn home(normal: Seq<i32>, special: Seq<i32>, id: i32) -> Option<(bool, int)> {
    match first_position(normal, id) {
        Some(k) => Some((false, k)),
        None => match first_position(special, id) {
            Some(k) => Some((true, k)),
            None => None,
        },
    }
}

/// Stacking key of a focus history id: negative ids count as 0.
pub open spec fn focus_order_of(fh: i8) -> usize {
    if fh < 0 {
        0
    } else {
        fh as usize
    }
}

/// The preview of client `c` measured from the origin of monitor `o`.
pub open spec fn thumb_of(c: ClientInfo, o: MonitorInfo) -> WindowThumb {
    WindowThumb {
        addr: spec_parse_address(encode_utf8(c.address@)).unwrap(),
        rect: Rect {
            x: (c.at.0 as int - o.x as int) as i64,
            y: (c.at.1 as int - o.y as int) as i64,
            w: c.size.0 as i64,
            h: c.size.1 as i64,
        },
        class: c.class,
        title: c.title,
        focus_order: focus_order_of(c.focus_history_id),
    }
}

/// The windows that go to the workspace at `target`, in the reported order:
/// mapped clients whose workspace lands there and whose address parses.
pub open spec fn collected(
    ms: Seq<MonitorInfo>,
    ws: Seq<WorkspaceInfo>,
    per_monitor: bool,
    normal: Seq<i32>,
    special: Seq<i32>,
    cs: Seq<ClientInfo>,
    target: (bool, int),
) -> Seq<WindowThumb>
    decreases cs.len(),
{
    if cs.len() == 0 {
        seq![]
    } else {
        let prev = collected(ms, ws, per_monitor, normal, special, cs.drop_last(), target);
        let c = cs.last();
        if c.mapped && home(normal, special, c.workspace) == Some(target) && spec_parse_address(
            encode_utf8(c.address@),
        ) is Some {
            prev.push(thumb_of(c, ms[origin_monitor(ms, ws, per_monitor, c.workspace).unwrap()]))
        } else {
            prev
        }
    }
}

/// `snap` is the snapshot of monitors `ms`, workspaces `ws` and clients `cs`
/// (only the covered monitor's workspaces when `per_monitor`).
pub open spec fn spec_snapshot(
    ms: Seq<MonitorInfo>,
    ws: Seq<WorkspaceInfo>,
    cs: Seq<ClientInfo>,
    per_monitor: bool,
    snap: Snapshot,
) -> bool {
    let c = chosen_monitor(ms);
    let nids = ids_of(snap.workspaces@);
    let sids = ids_of(snap.specials@);
    &&& snap.monitor == geometry_monitor(ms)
    &&& snap.monitor_name@ == ms[c].name@
    &&& snap.active_workspace == ms[c].active_workspace
    &&& is_stable_sort(
        snap.workspaces@.map_values(|m: WorkspaceModel| shell_of(m)),
        shells(ms, ws, per_monitor, false),
        |s: (i32, Seq<char>, int)| s.0 as int,
    )
    &&& is_stable_sort(
        snap.specials@.map_values(|m: WorkspaceModel| shell_of(m)),
        shells(ms, ws, per_monitor, true),
        |s: (i32, Seq<char>, int)| s.0 as int,
    )
    &&& forall|k: int|
        0 <= k < snap.workspaces.len() ==> is_stable_sort(
            (#[trigger] snap.workspaces@[k]).windows@,
            collected(ms, ws, per_monitor, nids, sids, cs, (false, k)),
            |t: WindowThumb| t.rank(),
        )
    &&& forall|k: int|
        0 <= k < snap.specials.len() ==> is_stable_sort(
            (#[trigger] snap.specials@[k]).windows@,
            collected(ms, ws, per_monitor, nids, sids, cs, (true, k)),
            |t: WindowThumb| t.rank(),
        )
}

proof fn lemma_focused_prefix(s: Seq<MonitorInfo>, j: int)
    requires
        0 <= j <= s.len(),
        focused_index(s.take(j)) is Some,
    ensures
        focused_index(s) == focused_index(s.take(j)),
    decreases s.len(),
{
    if j < s.len() {
        assert(s.drop_last().take(j) =~= s.take(j));
        lemma_focused_prefix(s.drop_last(), j);
    } else {
        assert(s.take(j) =~= s);
    }
}

proof fn lemma_first_position_prefix(s: Seq<i32>, id: i32, j: int)
    requires
        0 <= j <= s.len(),
        first_position(s.take(j), id) is Some,
    ensures
        first_position(s, id) == first_position(s.take(j), id),
    decreases s.len(),
{
    if j < s.len() {
        assert(s.drop_last().take(j) =~= s.take(j));
        lemma_first_position_prefix(s.drop_last(), id, j);
    } else {
        assert(s.take(j) =~= s);
    }
}

proof fn lemma_first_position_hit(s: Seq<i32>, id: i32)
    ensures
        first_position(s, id) matches Some(k) ==> 0 <= k < s.len() && s[k] == id,
    decreases s.len(),
{
    if s.len() > 0 {
        lemma_first_position_hit(s.drop_last(), id);
    }
}

proof fn lemma_last_named_hit(ms: Seq<MonitorInfo>, name: Seq<char>)
    ensures
        last_named(ms, name) matches Some(k) ==> 0 <= k < ms.len() && ms[k].name@ == name,
    decreases ms.len(),
{
    if ms.len() > 0 {
        lemma_last_named_hit(ms.drop_last(), name);
    }
}

proof fn lemma_last_entry_push(t: Seq<(i32, int)>, e: (i32, int), id: i32)
    requires
        last_entry(t, id) is Some,
    ensures
        last_entry(t.push(e), id) is Some,
{
    assert(t.push(e).drop_last() =~= t);
}

/// Every shown workspace has an entry that windows on it are measured from.
proof fn lemma_shell_has_entry(
    ms: Seq<MonitorInfo>,
    ws: Seq<WorkspaceInfo>,
    per_monitor: bool,
    special: bool,
    j: int,
)
    requires
        0 <= j < shells(ms, ws, per_monitor, special).len(),
    ensures
        last_entry(
            kept_entries(ms, ws, per_monitor),
            shells(ms, ws, per_monitor, special)[j].0,
        ) is Some,
    decreases ws.len(),
{
    let prev = shells(ms, ws.drop_last(), per_monitor, special);
    let kprev = kept_entries(ms, ws.drop_last(), per_monitor);
    let w = ws.last();
    let id = shells(ms, ws, per_monitor, special)[j].0;
    if j < prev.len() {
        lemma_shell_has_entry(ms, ws.drop_last(), per_monitor, special, j);
        assert(prev[j].0 == id);
        if keeps(ms, w, per_monitor) {
            lemma_last_entry_push(kprev, (w.id, workspace_monitor(ms, w.monitor@)), id);
        }
    } else {
        let t = kept_entries(ms, ws, per_monitor);
        assert(t.last().0 == id);
    }
}

proof fn lemma_focused_bound(ms: Seq<MonitorInfo>)
    ensures
        focused_index(ms) matches Some(k) ==> 0 <= k < ms.len(),
    decreases ms.len(),
{
    if ms.len() > 0 {
        lemma_focused_bound(ms.drop_last());
    }
}

proof fn lemma_monitor_bound(ms: Seq<MonitorInfo>, name: Seq<char>)
    requires
        ms.len() > 0,
    ensures
        0 <= chosen_monitor(ms) < ms.len(),
        0 <= geometry_monitor(ms) < ms.len(),
        0 <= workspace_monitor(ms, name) < ms.len(),
{
    lemma_focused_bound(ms);
    lemma_last_named_hit(ms, name);
    lemma_last_named_hit(ms, ms[chosen_monitor(ms)].name@);
}

proof fn lemma_entries_bound(ms: Seq<MonitorInfo>, ws: Seq<WorkspaceInfo>, per_monitor: bool)
    requires
        ms.len() > 0,
    ensures
        forall|k: int|
            0 <= k < kept_entries(ms, ws, per_monitor).len() ==> 0 <= (#[trigger] kept_entries(
                ms,
                ws,
                per_monitor,
            )[k]).1 < ms.len(),
    decreases ws.len(),
{
    if ws.len() > 0 {
        lemma_entries_bound(ms, ws.drop_last(), per_monitor);
        lemma_monitor_bound(ms, ws.last().monitor@);
        let t = kept_entries(ms, ws, per_monitor);
        let prev = kept_entries(ms, ws.drop_last(), per_monitor);
        assert forall|k: int| 0 <= k < t.len() implies 0 <= (#[trigger] t[k]).1 < ms.len() by {
            if k < prev.len() {
                assert(t[k] == prev[k]);
            }
        }
    }
}

proof fn lemma_last_entry_bound(t: Seq<(i32, int)>, id: i32, n: int)
    requires
        forall|k: int| 0 <= k < t.len() ==> 0 <= (#[trigger] t[k]).1 < n,
    ensures
        last_entry(t, id) matches Some(m) ==> 0 <= m < n,
    decreases t.len(),
{
    if t.len() > 0 {
        lemma_last_entry_bound(t.drop_last(), id, n);
    }
}

fn chosen_index(ms: &Vec<MonitorInfo>) -> (r: usize)
    requires
        ms.len() > 0,
    ensures
        r == chosen_monitor(ms@),
        r < ms.len(),
{
    let mut i: usize = 0;
    while i < ms.len()
        invariant
            i <= ms.len(),
            focused_index(ms@.take(i as int)) is None,
        decreases ms.len() - i,
    {
        assert(ms@.take(i + 1).drop_last() =~= ms@.take(i as int));
        if ms[i].focused {
            proof {
                lemma_focused_prefix(ms@, i + 1);
            }
            return i;
        }
        i = i + 1;
    }
    assert(ms@.take(ms.len() as int) =~= ms@);
    0
}

fn last_named_index(ms: &Vec<MonitorInfo>, name: &String) -> (r: Option<usize>)
    ensures
        match r {
            Some(k) => last_named(ms@, name@) == Some(k as int),
            None => last_named(ms@, name@) is None,
        },
{
    let mut found: Option<usize> = None;
    let mut i: usize = 0;
    while i < ms.len()
        invariant
            i <= ms.len(),
            match found {
                Some(k) => last_named(ms@.take(i as int), name@) == Some(k as int),
                None => last_named(ms@.take(i as int), name@) is None,
            },
        decreases ms.len() - i,
    {
        assert(ms@.take(i + 1).drop_last() =~= ms@.take(i as int));
        if ms[i].name == *name {
            found = Some(i);
        }
        i = i + 1;
    }
    assert(ms@.take(ms.len() as int) =~= ms@);
    found
}

/// Workspace ids and monitors of `t`.
pub open spec fn entries_view(t: Seq<(i32, usize)>) -> Seq<(i32, int)> {
    t.map_values(|e: (i32, usize)| (e.0, e.1 as int))
}

fn last_entry_index(t: &Vec<(i32, usize)>, id: i32) -> (r: Option<usize>)
    ensures
        match r {
            Some(k) => last_entry(entries_view(t@), id) == Some(k as int),
            None => last_entry(entries_view(t@), id) is None,
        },
{
    let ghost v = entries_view(t@);
    let mut found: Option<usize> = None;
    let mut i: usize = 0;
    while i < t.len()
        invariant
            i <= t.len(),
            v == entries_view(t@),
            match found {
                Some(k) => last_entry(v.take(i as int), id) == Some(k as int),
                None => last_entry(v.take(i as int), id) is None,
            },
        decreases t.len() - i,
    {
        assert(v.take(i + 1).drop_last() =~= v.take(i as int));
        let (eid, emon) = t[i];
        if eid == id {
            found = Some(emon);
        }
        i = i + 1;
    }
    assert(v.take(t.len() as int) =~= v);
    found
}

fn first_index(models: &Vec<WorkspaceModel>, id: i32) -> (r: Option<usize>)
    ensures
        match r {
            Some(k) => first_position(ids_of(models@), id) == Some(k as int),
            None => first_position(ids_of(models@), id) is None,
        },
{
    let ghost ids = ids_of(models@);
    let mut i: usize = 0;
    while i < models.len()
        invariant
            i <= models.len(),
            ids == ids_of(models@),
            first_position(ids.take(i as int), id) is None,
        decreases models.len() - i,
    {
        assert(ids.take(i + 1).drop_last() =~= ids.take(i as int));
        if models[i].id == id {
            proof {
                lemma_first_position_prefix(ids, id, i + 1);
            }
            return Some(i);
        }
        i = i + 1;
    }
    assert(ids.take(models.len() as int) =~= ids);
    None
}

fn find_home(normal: &Vec<WorkspaceModel>, special: &Vec<WorkspaceModel>, id: i32) -> (r: Option<
    (bool, usize),
>)
    ensures
        match r {
            Some((sp, k)) => home(ids_of(normal@), ids_of(special@), id) == Some((sp, k as int)),
            None => home(ids_of(normal@), ids_of(special@), id) is None,
        },
{
    match first_index(normal, id) {
        Some(k) => Some((false, k)),
        None => match first_index(special, id) {
            Some(k) => Some((true, k)),
            None => None,
        },
    }
}

fn special_name(name: &String) -> (r: String)
    ensures
        r@ == strip_special(name@),
{
    let prefix = "special:";
    proof {
        reveal_strlit("special:");
    }
    assert(prefix@ == "special:"@);
    let s = name.as_str();
    let n = s.unicode_len();
    let p = prefix.unicode_len();
    if p > n {
        return name.clone();
    }
    let mut i: usize = 0;
    while i < p
        invariant
            i <= p <= n,
            p == prefix@.len(),
            prefix@ == "special:"@,
            n == s@.len(),
            s@ == name@,
            forall|j: int| 0 <= j < i ==> s@[j] == prefix@[j],
        decreases p - i,
    {
        if s.get_char(i) != prefix.get_char(i) {
            assert(s@.take(p as int)[i as int] != prefix@[i as int]);
            assert(s@.take(p as int) != prefix@);
            assert(prefix@ == "special:"@);
            return name.clone();
        }
        i = i + 1;
    }
    assert(s@.take(p as int) =~= prefix@);
    s.substring_char(p, n).to_owned()
}

proof fn lemma_shell_ids(ms: Seq<MonitorInfo>, ws: Seq<WorkspaceInfo>, per_monitor: bool)
    ensures
        forall|j: int|
            0 <= j < shells(ms, ws, per_monitor, false).len() ==> (#[trigger] shells(
                ms,
                ws,
                per_monitor,
                false,
            )[j]).0 > 0,
        forall|j: int|
            0 <= j < shells(ms, ws, per_monitor, true).len() ==> (#[trigger] shells(
                ms,
                ws,
                per_monitor,
                true,
            )[j]).0 < 0,
        per_monitor ==> forall|j: int, sp: bool|
            0 <= j < shells(ms, ws, per_monitor, sp).len() ==> (#[trigger] shells(
                ms,
                ws,
                per_monitor,
                sp,
            )[j]).2 == geometry_monitor(ms),
    decreases ws.len(),
{
    if ws.len() > 0 {
        lemma_shell_ids(ms, ws.drop_last(), per_monitor);
        assert forall|j: int, sp: bool|
            per_monitor && 0 <= j < shells(ms, ws, per_monitor, sp).len() implies (#[trigger] shells(
                ms,
                ws,
                per_monitor,
                sp,
            )[j]).2 == geometry_monitor(ms) by {
            let cur = shells(ms, ws, per_monitor, sp);
            let prev = shells(ms, ws.drop_last(), per_monitor, sp);
            if j < prev.len() {
                assert(cur[j] == prev[j]);
            }
        }
        let n = shells(ms, ws, per_monitor, false);
        let np = shells(ms, ws.drop_last(), per_monitor, false);
        let sp = shells(ms, ws, per_monitor, true);
        let spp = shells(ms, ws.drop_last(), per_monitor, true);
        assert forall|j: int| 0 <= j < n.len() implies (#[trigger] n[j]).0 > 0 by {
            if j < np.len() {
                assert(n[j] == np[j]);
            }
        }
        assert forall|j: int| 0 <= j < sp.len() implies (#[trigger] sp[j]).0 < 0 by {
            if j < spp.len() {
                assert(sp[j] == spp[j]);
            }
        }
    }
}

/// Every window collected for `target` is the preview of a mapped client
/// whose workspace lands at `target`.
proof fn lemma_collected_source(
    ms: Seq<MonitorInfo>,
    ws: Seq<WorkspaceInfo>,
    per_monitor: bool,
    normal: Seq<i32>,
    special: Seq<i32>,
    cs: Seq<ClientInfo>,
    target: (bool, int),
    i: int,
)
    requires
        0 <= i < collected(ms, ws, per_monitor, normal, special, cs, target).len(),
    ensures
        exists|j: int|
            0 <= j < cs.len() && (#[trigger] cs[j]).mapped && home(normal, special, cs[j].workspace)
                == Some(target) && collected(ms, ws, per_monitor, normal, special, cs, target)[i]
                == thumb_of(cs[j], ms[origin_monitor(ms, ws, per_monitor, cs[j].workspace).unwrap()]),
    decreases cs.len(),
{
    let prev = collected(ms, ws, per_monitor, normal, special, cs.drop_last(), target);
    let cur = collected(ms, ws, per_monitor, normal, special, cs, target);
    if i < prev.len() {
        lemma_collected_source(ms, ws, per_monitor, normal, special, cs.drop_last(), target, i);
        let j = choose|j: int|
            0 <= j < cs.drop_last().len() && (#[trigger] cs.drop_last()[j]).mapped && home(
                normal,
                special,
                cs.drop_last()[j].workspace,
            ) == Some(target) && prev[i] == thumb_of(
                cs.drop_last()[j],
                ms[origin_monitor(ms, ws, per_monitor, cs.drop_last()[j].workspace).unwrap()],
            );
        assert(cs.drop_last()[j] == cs[j]);
        assert(cur[i] == prev[i]);
    } else {
        assert(cs[cs.len() - 1] == cs.last());
    }
}

/// `t` is the preview of a mapped client on workspace `id`.
pub open spec fn window_of_client(
    ms: Seq<MonitorInfo>,
    ws: Seq<WorkspaceInfo>,
    cs: Seq<ClientInfo>,
    per_monitor: bool,
    id: i32,
    t: WindowThumb,
) -> bool {
    exists|j: int|
        0 <= j < cs.len() && (#[trigger] cs[j]).mapped && cs[j].workspace == id && t == thumb_of(
            cs[j],
            ms[origin_monitor(ms, ws, per_monitor, cs[j].workspace).unwrap()],
        )
}

/// The shape of every snapshot: normal workspaces have positive ids and
/// special ones negative ids, each list in id order; with `per_monitor`
/// every shown workspace is on the covered monitor; each workspace's windows
/// are drawn least recently focused first; and every window is the preview
/// of a mapped client on a workspace with that id.
///
/// Special workspaces stack their windows the same way as normal ones.
pub proof fn lemma_snapshot_shape(
    ms: Seq<MonitorInfo>,
    ws: Seq<WorkspaceInfo>,
    cs: Seq<ClientInfo>,
    per_monitor: bool,
    snap: Snapshot,
)
    requires
        spec_snapshot(ms, ws, cs, per_monitor, snap),
    ensures
        forall|k: int| 0 <= k < snap.workspaces.len() ==> (#[trigger] snap.workspaces@[k]).id > 0,
        forall|k: int| 0 <= k < snap.specials.len() ==> (#[trigger] snap.specials@[k]).id < 0,
        forall|a: int, b: int|
            0 <= a < b < snap.workspaces.len() ==> (#[trigger] snap.workspaces@[a]).id
                <= (#[trigger] snap.workspaces@[b]).id,
        forall|a: int, b: int|
            0 <= a < b < snap.specials.len() ==> (#[trigger] snap.specials@[a]).id
                <= (#[trigger] snap.specials@[b]).id,
        per_monitor ==> forall|k: int|
            0 <= k < snap.workspaces.len() ==> (#[trigger] snap.workspaces@[k]).monitor
                == snap.monitor,
        per_monitor ==> forall|k: int|
            0 <= k < snap.specials.len() ==> (#[trigger] snap.specials@[k]).monitor
                == snap.monitor,
        forall|k: int, a: int, b: int|
            0 <= k < snap.workspaces.len() && 0 <= a < b < snap.workspaces@[k].windows.len() ==> (
            #[trigger] snap.workspaces@[k].windows@[a]).focus_order
                >= (#[trigger] snap.workspaces@[k].windows@[b]).focus_order,
        forall|k: int, a: int, b: int|
            0 <= k < snap.specials.len() && 0 <= a < b < snap.specials@[k].windows.len() ==> (
            #[trigger] snap.specials@[k].windows@[a]).focus_order
                >= (#[trigger] snap.specials@[k].windows@[b]).focus_order,
        forall|k: int, i: int|
            0 <= k < snap.workspaces.len() && 0 <= i < snap.workspaces@[k].windows.len()
                ==> window_of_client(
                ms,
                ws,
                cs,
                per_monitor,
                snap.workspaces@[k].id,
                #[trigger] snap.workspaces@[k].windows@[i],
            ),
{
    let sv = |m: WorkspaceModel| shell_of(m);
    let ks = |s: (i32, Seq<char>, int)| s.0 as int;
    let kt = |t: WindowThumb| t.rank();
    let nids = ids_of(snap.workspaces@);
    let sids = ids_of(snap.specials@);
    lemma_shell_ids(ms, ws, per_monitor);
    let nm = snap.workspaces@.map_values(sv);
    let sm = snap.specials@.map_values(sv);
    let pn = choose|p: Seq<int>| #[trigger] stable_witness(nm, shells(ms, ws, per_monitor, false), ks, p);
    let ps = choose|p: Seq<int>| #[trigger] stable_witness(sm, shells(ms, ws, per_monitor, true), ks, p);
    assert forall|k: int| 0 <= k < snap.workspaces.len() implies (#[trigger] snap.workspaces@[k]).id
        > 0 by {
        assert(nm[k] == shells(ms, ws, per_monitor, false)[pn[k]]);
    }
    assert forall|k: int| 0 <= k < snap.specials.len() implies (#[trigger] snap.specials@[k]).id
        < 0 by {
        assert(sm[k] == shells(ms, ws, per_monitor, true)[ps[k]]);
    }
    if per_monitor {
        assert forall|k: int| 0 <= k < snap.workspaces.len() implies (
        #[trigger] snap.workspaces@[k]).monitor == snap.monitor by {
            assert(nm[k] == shells(ms, ws, per_monitor, false)[pn[k]]);
        }
        assert forall|k: int| 0 <= k < snap.specials.len() implies (
        #[trigger] snap.specials@[k]).monitor == snap.monitor by {
            assert(sm[k] == shells(ms, ws, per_monitor, true)[ps[k]]);
        }
    }
    assert forall|a: int, b: int| 0 <= a < b < snap.workspaces.len() implies (
    #[trigger] snap.workspaces@[a]).id <= (#[trigger] snap.workspaces@[b]).id by {
        assert(ks(nm[a]) <= ks(nm[b]));
    }
    assert forall|a: int, b: int| 0 <= a < b < snap.specials.len() implies (
    #[trigger] snap.specials@[a]).id <= (#[trigger] snap.specials@[b]).id by {
        assert(ks(sm[a]) <= ks(sm[b]));
    }
    assert forall|k: int, a: int, b: int|
        0 <= k < snap.workspaces.len() && 0 <= a < b < snap.workspaces@[k].windows.len() implies (
    #[trigger] snap.workspaces@[k].windows@[a]).focus_order
        >= (#[trigger] snap.workspaces@[k].windows@[b]).focus_order by {
        let w = snap.workspaces@[k];
        assert(is_stable_sort(w.windows@, collected(ms, ws, per_monitor, nids, sids, cs, (false, k)), kt));
        assert(kt(w.windows@[a]) <= kt(w.windows@[b]));
    }
    assert forall|k: int, a: int, b: int|
        0 <= k < snap.specials.len() && 0 <= a < b < snap.specials@[k].windows.len() implies (
    #[trigger] snap.specials@[k].windows@[a]).focus_order
        >= (#[trigger] snap.specials@[k].windows@[b]).focus_order by {
        let w = snap.specials@[k];
        assert(is_stable_sort(w.windows@, collected(ms, ws, per_monitor, nids, sids, cs, (true, k)), kt));
        assert(kt(w.windows@[a]) <= kt(w.windows@[b]));
    }
    assert forall|k: int, i: int|
        0 <= k < snap.workspaces.len() && 0 <= i < snap.workspaces@[k].windows.len()
            implies window_of_client(
            ms,
            ws,
            cs,
            per_monitor,
            snap.workspaces@[k].id,
            #[trigger] snap.workspaces@[k].windows@[i],
        ) by {
        let w = snap.workspaces@[k];
        let col = collected(ms, ws, per_monitor, nids, sids, cs, (false, k));
        assert(is_stable_sort(w.windows@, col, kt));
        let p = choose|p: Seq<int>| #[trigger] stable_witness(w.windows@, col, kt, p);
        assert(w.windows@[i] == col[p[i]]);
        lemma_collected_source(ms, ws, per_monitor, nids, sids, cs, (false, k), p[i]);
        let j = choose|j: int|
            0 <= j < cs.len() && (#[trigger] cs[j]).mapped && home(nids, sids, cs[j].workspace)
                == Some((false, k)) && col[p[i]] == thumb_of(
                cs[j],
                ms[origin_monitor(ms, ws, per_monitor, cs[j].workspace).unwrap()],
            );
        lemma_first_position_hit(nids, cs[j].workspace);
        assert(nids[k] == snap.workspaces@[k].id);
        assert(snap.workspaces@[k].windows@[i] == thumb_of(
            cs[j],
            ms[origin_monitor(ms, ws, per_monitor, cs[j].workspace).unwrap()],
        ));
    }
}

/// Client `c` is shown: it is mapped and its address parses.
pub open spec fn is_shown_client(c: ClientInfo) -> bool {
    c.mapped && spec_parse_address(encode_utf8(c.address@)) is Some
}

/// Number of shown clients on workspace `id`.
pub open spec fn shown_on(cs: Seq<ClientInfo>, id: i32) -> nat
    decreases cs.len(),
{
    if cs.len() == 0 {
        0
    } else {
        shown_on(cs.drop_last(), id) + if is_shown_client(cs.last()) && cs.last().workspace == id {
            1nat
        } else {
            0nat
        }
    }
}

/// No earlier workspace of `models` has the id of the one at `k`.
pub open spec fn first_of_its_id(models: Seq<WorkspaceModel>, k: int) -> bool {
    forall|q: int| 0 <= q < k ==> (#[trigger] models[q]).id != models[k].id
}

proof fn lemma_first_position_exact(s: Seq<i32>, id: i32, k: int)
    requires
        0 <= k < s.len(),
        s[k] == id,
        forall|q: int| 0 <= q < k ==> s[q] != id,
    ensures
        first_position(s, id) == Some(k),
    decreases s.len(),
{
    let d = s.drop_last();
    if k < s.len() - 1 {
        lemma_first_position_exact(d, id, k);
    } else {
        lemma_first_position_hit(d, id);
        if let Some(m) = first_position(d, id) {
            assert(d[m] == s[m]);
        }
    }
}

proof fn lemma_collected_contains(
    ms: Seq<MonitorInfo>,
    ws: Seq<WorkspaceInfo>,
    per_monitor: bool,
    normal: Seq<i32>,
    special: Seq<i32>,
    cs: Seq<ClientInfo>,
    target: (bool, int),
    j: int,
)
    requires
        0 <= j < cs.len(),
        is_shown_client(cs[j]),
        home(normal, special, cs[j].workspace) == Some(target),
    ensures
        collected(ms, ws, per_monitor, normal, special, cs, target).contains(
            thumb_of(cs[j], ms[origin_monitor(ms, ws, per_monitor, cs[j].workspace).unwrap()]),
        ),
    decreases cs.len(),
{
    let t = thumb_of(cs[j], ms[origin_monitor(ms, ws, per_monitor, cs[j].workspace).unwrap()]);
    let cur = collected(ms, ws, per_monitor, normal, special, cs, target);
    let prev = collected(ms, ws, per_monitor, normal, special, cs.drop_last(), target);
    if j < cs.len() - 1 {
        assert(cs.drop_last()[j] == cs[j]);
        lemma_collected_contains(ms, ws, per_monitor, normal, special, cs.drop_last(), target, j);
        let m = choose|m: int| 0 <= m < prev.len() && prev[m] == t;
        assert(cur[m] == t);
    } else {
        assert(cs.last() == cs[j]);
        assert(cur[cur.len() - 1] == t);
    }
}

proof fn lemma_collected_len(
    ms: Seq<MonitorInfo>,
    ws: Seq<WorkspaceInfo>,
    per_monitor: bool,
    normal: Seq<i32>,
    special: Seq<i32>,
    cs: Seq<ClientInfo>,
    target: (bool, int),
    id: i32,
)
    requires
        forall|w: i32| #[trigger] home(normal, special, w) == Some(target) <==> w == id,
    ensures
        collected(ms, ws, per_monitor, normal, special, cs, target).len() == shown_on(cs, id),
    decreases cs.len(),
{
    if cs.len() > 0 {
        lemma_collected_len(ms, ws, per_monitor, normal, special, cs.drop_last(), target, id);
        assert(home(normal, special, cs.last().workspace) == Some(target) <==> cs.last().workspace
            == id);
    }
}

proof fn lemma_home_normal(snap: Snapshot, k: int, w: i32)
    requires
        0 <= k < snap.workspaces.len(),
        first_of_its_id(snap.workspaces@, k),
    ensures
        home(ids_of(snap.workspaces@), ids_of(snap.specials@), w) == Some((false, k)) <==> w
            == snap.workspaces@[k].id,
{
    let nids = ids_of(snap.workspaces@);
    assert(nids[k] == snap.workspaces@[k].id);
    lemma_first_position_hit(nids, w);
    if w == nids[k] {
        assert forall|q: int| 0 <= q < k implies nids[q] != w by {
            assert(nids[q] == snap.workspaces@[q].id);
        }
        lemma_first_position_exact(nids, w, k);
    }
}

proof fn lemma_home_special(snap: Snapshot, k: int, w: i32)
    requires
        0 <= k < snap.specials.len(),
        first_of_its_id(snap.specials@, k),
        forall|q: int| 0 <= q < snap.workspaces.len() ==> (#[trigger] snap.workspaces@[q]).id > 0,
        forall|q: int| 0 <= q < snap.specials.len() ==> (#[trigger] snap.specials@[q]).id < 0,
    ensures
        home(ids_of(snap.workspaces@), ids_of(snap.specials@), w) == Some((true, k)) <==> w
            == snap.specials@[k].id,
{
    let nids = ids_of(snap.workspaces@);
    let sids = ids_of(snap.specials@);
    assert(sids[k] == snap.specials@[k].id);
    lemma_first_position_hit(nids, w);
    lemma_first_position_hit(sids, w);
    if w == sids[k] {
        if let Some(m) = first_position(nids, w) {
            assert(nids[m] == snap.workspaces@[m].id);
        }
        assert forall|q: int| 0 <= q < k implies sids[q] != w by {
            assert(sids[q] == snap.specials@[q].id);
        }
        lemma_first_position_exact(sids, w, k);
    }
}

/// Every shown client is in its workspace's preview: a mapped client whose
/// address parses is among the windows of the first shown workspace (normal
/// or special) with its workspace id, wherever the window lies; and that
/// workspace has exactly as many windows as there are such clients.
pub proof fn lemma_snapshot_complete(
    ms: Seq<MonitorInfo>,
    ws: Seq<WorkspaceInfo>,
    cs: Seq<ClientInfo>,
    per_monitor: bool,
    snap: Snapshot,
)
    requires
        spec_snapshot(ms, ws, cs, per_monitor, snap),
    ensures
        forall|j: int, k: int|
            0 <= j < cs.len() && 0 <= k < snap.workspaces.len() && is_shown_client(cs[j])
                && cs[j].workspace == snap.workspaces@[k].id && first_of_its_id(
                snap.workspaces@,
                k,
            ) ==> (#[trigger] snap.workspaces@[k]).windows@.contains(
                thumb_of(#[trigger] cs[j], ms[origin_monitor(ms, ws, per_monitor, cs[j].workspace).unwrap()]),
            ),
        forall|j: int, k: int|
            0 <= j < cs.len() && 0 <= k < snap.specials.len() && is_shown_client(cs[j])
                && cs[j].workspace == snap.specials@[k].id && first_of_its_id(snap.specials@, k)
                ==> (#[trigger] snap.specials@[k]).windows@.contains(
                thumb_of(#[trigger] cs[j], ms[origin_monitor(ms, ws, per_monitor, cs[j].workspace).unwrap()]),
            ),
        forall|k: int|
            0 <= k < snap.workspaces.len() && first_of_its_id(snap.workspaces@, k) ==> (
            #[trigger] snap.workspaces@[k]).windows.len() == shown_on(cs, snap.workspaces@[k].id),
        forall|k: int|
            0 <= k < snap.specials.len() && first_of_its_id(snap.specials@, k) ==> (
            #[trigger] snap.specials@[k]).windows.len() == shown_on(cs, snap.specials@[k].id),
{
    let kt = |t: WindowThumb| t.rank();
    let nids = ids_of(snap.workspaces@);
    let sids = ids_of(snap.specials@);
    lemma_snapshot_shape(ms, ws, cs, per_monitor, snap);
    assert forall|j: int, k: int|
        0 <= j < cs.len() && 0 <= k < snap.workspaces.len() && is_shown_client(cs[j])
            && cs[j].workspace == snap.workspaces@[k].id && first_of_its_id(snap.workspaces@, k)
            implies (#[trigger] snap.workspaces@[k]).windows@.contains(
        thumb_of(#[trigger] cs[j], ms[origin_monitor(ms, ws, per_monitor, cs[j].workspace).unwrap()]),
    ) by {
        let col = collected(ms, ws, per_monitor, nids, sids, cs, (false, k));
        let win = snap.workspaces@[k].windows@;
        lemma_home_normal(snap, k, cs[j].workspace);
        lemma_collected_contains(ms, ws, per_monitor, nids, sids, cs, (false, k), j);
        let t = thumb_of(cs[j], ms[origin_monitor(ms, ws, per_monitor, cs[j].workspace).unwrap()]);
        let m = choose|m: int| 0 <= m < col.len() && col[m] == t;
        assert(is_stable_sort(win, col, kt));
        let p = choose|p: Seq<int>| #[trigger] stable_witness(win, col, kt, p);
        crate::sort::lemma_witness_onto(win, col, kt, p, m);
    }
    assert forall|j: int, k: int|
        0 <= j < cs.len() && 0 <= k < snap.specials.len() && is_shown_client(cs[j])
            && cs[j].workspace == snap.specials@[k].id && first_of_its_id(snap.specials@, k)
            implies (#[trigger] snap.specials@[k]).windows@.contains(
        thumb_of(#[trigger] cs[j], ms[origin_monitor(ms, ws, per_monitor, cs[j].workspace).unwrap()]),
    ) by {
        let col = collected(ms, ws, per_monitor, nids, sids, cs, (true, k));
        let win = snap.specials@[k].windows@;
        lemma_home_special(snap, k, cs[j].workspace);
        lemma_collected_contains(ms, ws, per_monitor, nids, sids, cs, (true, k), j);
        let t = thumb_of(cs[j], ms[origin_monitor(ms, ws, per_monitor, cs[j].workspace).unwrap()]);
        let m = choose|m: int| 0 <= m < col.len() && col[m] == t;
        assert(is_stable_sort(win, col, kt));
        let p = choose|p: Seq<int>| #[trigger] stable_witness(win, col, kt, p);
        crate::sort::lemma_witness_onto(win, col, kt, p, m);
    }
    assert forall|k: int|
        0 <= k < snap.workspaces.len() && first_of_its_id(snap.workspaces@, k) implies (
        #[trigger] snap.workspaces@[k]).windows.len() == shown_on(cs, snap.workspaces@[k].id) by {
        let col = collected(ms, ws, per_monitor, nids, sids, cs, (false, k));
        let win = snap.workspaces@[k].windows@;
        assert forall|w: i32| #[trigger] home(nids, sids, w) == Some((false, k)) <==> w
            == snap.workspaces@[k].id by {
            lemma_home_normal(snap, k, w);
        }
        lemma_collected_len(ms, ws, per_monitor, nids, sids, cs, (false, k), snap.workspaces@[k].id);
        assert(is_stable_sort(win, col, kt));
        let p = choose|p: Seq<int>| #[trigger] stable_witness(win, col, kt, p);
    }
    assert forall|k: int|
        0 <= k < snap.specials.len() && first_of_its_id(snap.specials@, k) implies (
        #[trigger] snap.specials@[k]).windows.len() == shown_on(cs, snap.specials@[k].id) by {
        let col = collected(ms, ws, per_monitor, nids, sids, cs, (true, k));
        let win = snap.specials@[k].windows@;
        assert forall|w: i32| #[trigger] home(nids, sids, w) == Some((true, k)) <==> w
            == snap.specials@[k].id by {
            lemma_home_special(snap, k, w);
        }
        lemma_collected_len(ms, ws, per_monitor, nids, sids, cs, (true, k), snap.specials@[k].id);
        assert(is_stable_sort(win, col, kt));
        let p = choose|p: Seq<int>| #[trigger] stable_witness(win, col, kt, p);
    }
}

/// Assembles the overview of the monitors, workspaces and clients that
/// Hyprland reports; `None` when no monitor is reported.
///
/// The overlay covers the focused monitor, else the first. Every monitor's
/// workspaces are shown unless `per_monitor`, which keeps the covered
/// monitor's only. Normal (positive id) and special (negative id, named
/// without `special:`) workspaces are each sorted by id. Every mapped client
/// whose address parses goes to the first workspace with its id, normal
/// before special, with its rect measured from its workspace's monitor; each
/// workspace's windows are drawn least recently focused first.
pub fn assemble(
    monitors: &Vec<MonitorInfo>,
    workspaces: &Vec<WorkspaceInfo>,
    clients: &Vec<ClientInfo>,
    per_monitor: bool,
) -> (r: Option<Snapshot>)
    ensures
        r is None <==> monitors@.len() == 0,
        r matches Some(snap) ==> spec_snapshot(monitors@, workspaces@, clients@, per_monitor, snap),
{
    if monitors.len() == 0 {
        return None;
    }
    let ghost ms = monitors@;
    let ghost ws = workspaces@;
    let ghost cs = clients@;
    let c = chosen_index(monitors);
    let cname = &monitors[c].name;
    let geom = match last_named_index(monitors, cname) {
        Some(g) => g,
        None => c,
    };
    proof {
        lemma_last_named_hit(ms, cname@);
    }
    let ghost sv = |m: WorkspaceModel| shell_of(m);

    let mut normal: Vec<WorkspaceModel> = Vec::new();
    let mut special: Vec<WorkspaceModel> = Vec::new();
    let mut table: Vec<(i32, usize)> = Vec::new();
    let mut i: usize = 0;
    while i < workspaces.len()
        invariant
            ms == monitors@,
            ws == workspaces@,
            c == chosen_monitor(ms),
            c < ms.len(),
            cname@ == ms[c as int].name@,
            geom == geometry_monitor(ms),
            sv == (|m: WorkspaceModel| shell_of(m)),
            i <= ws.len(),
            normal@.map_values(sv) == shells(ms, ws.take(i as int), per_monitor, false),
            special@.map_values(sv) == shells(ms, ws.take(i as int), per_monitor, true),
            forall|k: int| 0 <= k < normal.len() ==> (#[trigger] normal@[k]).windows@.len() == 0,
            forall|k: int| 0 <= k < special.len() ==> (#[trigger] special@[k]).windows@.len() == 0,
            entries_view(table@) == kept_entries(ms, ws.take(i as int), per_monitor),
        decreases ws.len() - i,
    {
        let ghost pre = ws.take(i as int);
        assert(ws.take(i + 1).drop_last() =~= pre);
        let w = &workspaces[i];
        if !per_monitor || w.monitor == *cname {
            let wm = match last_named_index(monitors, &w.monitor) {
                Some(k) => k,
                None => geom,
            };
            let ghost tv = entries_view(table@);
            table.push((w.id, wm));
            assert(entries_view(table@) =~= tv.push((w.id, wm as int)));
            if w.id > 0 {
                let ghost nv = normal@.map_values(sv);
                let m = WorkspaceModel { id: w.id, name: w.name.clone(), windows: Vec::new(), monitor: wm };
                normal.push(m);
                assert(normal@.map_values(sv) =~= nv.push(shell_of(m)));
            } else if w.id < 0 {
                let ghost spv = special@.map_values(sv);
                let m = WorkspaceModel {
                    id: w.id,
                    name: special_name(&w.name),
                    windows: Vec::new(),
                    monitor: wm,
                };
                special.push(m);
                assert(special@.map_values(sv) =~= spv.push(shell_of(m)));
            }
        }
        i = i + 1;
    }
    assert(ws.take(ws.len() as int) =~= ws);
    let ghost key_shell = |s: (i32, Seq<char>, int)| s.0 as int;
    let ghost key_m = |x: WorkspaceModel| x.rank();
    let ghost built_normal = normal@;
    let ghost built_special = special@;
    sort_stable(&mut normal);
    sort_stable(&mut special);
    proof {
        lemma_stable_sort_map(normal@, built_normal, key_m, sv, key_shell);
        lemma_stable_sort_map(special@, built_special, key_m, sv, key_shell);
    }
    let ghost nids = ids_of(normal@);
    let ghost sids = ids_of(special@);
    let ghost nshells = normal@.map_values(sv);
    let ghost sshells = special@.map_values(sv);
    proof {
        let pn = choose|p: Seq<int>|
            #[trigger] stable_witness(normal@, built_normal, key_m, p);
        let ps = choose|p: Seq<int>|
            #[trigger] stable_witness(special@, built_special, key_m, p);
        assert forall|k: int| 0 <= k < normal.len() implies (#[trigger] normal@[k]).windows@.len()
            == 0 && last_entry(kept_entries(ms, ws, per_monitor), nids[k]) is Some by {
            assert(normal@[k] == built_normal[pn[k]]);
            assert(built_normal.map_values(sv)[pn[k]] == shell_of(built_normal[pn[k]]));
            lemma_shell_has_entry(ms, ws, per_monitor, false, pn[k]);
        }
        assert forall|k: int| 0 <= k < special.len() implies (#[trigger] special@[k]).windows@.len()
            == 0 && last_entry(kept_entries(ms, ws, per_monitor), sids[k]) is Some by {
            assert(special@[k] == built_special[ps[k]]);
            assert(built_special.map_values(sv)[ps[k]] == shell_of(built_special[ps[k]]));
            lemma_shell_has_entry(ms, ws, per_monitor, true, ps[k]);
        }
    }

    let mut j: usize = 0;
    while j < clients.len()
        invariant
            ms == monitors@,
            ws == workspaces@,
            cs == clients@,
            ms.len() > 0,
            sv == (|m: WorkspaceModel| shell_of(m)),
            j <= cs.len(),
            ids_of(normal@) == nids,
            ids_of(special@) == sids,
            normal@.map_values(sv) == nshells,
            special@.map_values(sv) == sshells,
            entries_view(table@) == kept_entries(ms, ws, per_monitor),
            forall|k: int|
                0 <= k < nids.len() ==> last_entry(kept_entries(ms, ws, per_monitor), #[trigger] nids[k]) is Some,
            forall|k: int|
                0 <= k < sids.len() ==> last_entry(kept_entries(ms, ws, per_monitor), #[trigger] sids[k]) is Some,
            forall|k: int|
                0 <= k < normal.len() ==> (#[trigger] normal@[k]).windows@ == collected(
                    ms,
                    ws,
                    per_monitor,
                    nids,
                    sids,
                    cs.take(j as int),
                    (false, k),
                ),
            forall|k: int|
                0 <= k < special.len() ==> (#[trigger] special@[k]).windows@ == collected(
                    ms,
                    ws,
                    per_monitor,
                    nids,
                    sids,
                    cs.take(j as int),
                    (true, k),
                ),
        decreases cs.len() - j,
    {
        let ghost pre = cs.take(j as int);
        assert(cs.take(j + 1).drop_last() =~= pre);
        let cl = &clients[j];
        let ghost old_normal = normal@;
        let ghost old_special = special@;
        let mut placed: Option<(bool, usize, WindowThumb)> = None;
        if cl.mapped {
            if let Some((sp, k)) = find_home(&normal, &special, cl.workspace) {
                if let Some(addr) = parse_address(cl.address.as_str()) {
                    proof {
                        if sp {
                            lemma_first_position_hit(sids, cl.workspace);
                        } else {
                            lemma_first_position_hit(nids, cl.workspace);
                        }
                    }
                    let o = match last_entry_index(&table, cl.workspace) {
                        Some(o) => o,
                        None => {
                            proof {
                                assert(false);
                            }
                            0
                        },
                    };
                    let ghost oi = origin_monitor(ms, ws, per_monitor, cl.workspace).unwrap();
                    assert(oi == o);
                    proof {
                        lemma_entries_bound(ms, ws, per_monitor);
                        lemma_last_entry_bound(
                            kept_entries(ms, ws, per_monitor),
                            cl.workspace,
                            ms.len() as int,
                        );
                    }
                    let om = &monitors[o];
                    let thumb = WindowThumb {
                        addr,
                        rect: Rect {
                            x: cl.at.0 as i64 - om.x as i64,
                            y: cl.at.1 as i64 - om.y as i64,
                            w: cl.size.0 as i64,
                            h: cl.size.1 as i64,
                        },
                        class: cl.class.clone(),
                        title: cl.title.clone(),
                        focus_order: if cl.focus_history_id < 0 {
                            0
                        } else {
                            cl.focus_history_id as usize
                        },
                    };
                    assert(thumb == thumb_of(*cl, ms[oi]));
                    placed = Some((sp, k, thumb));
                }
            }
        }
        match placed {
            Some((sp, k, thumb)) => {
                if sp {
                    special[k].windows.push(thumb);
                } else {
                    normal[k].windows.push(thumb);
                }
            },
            None => {},
        }
        j = j + 1;
    }
    assert(cs.take(cs.len() as int) =~= cs);

    let ghost key_t = |t: WindowThumb| t.rank();
    let mut k: usize = 0;
    while k < normal.len()
        invariant
            k <= normal.len(),
            ids_of(normal@) == nids,
            normal@.map_values(sv) == nshells,
            sv == (|m: WorkspaceModel| shell_of(m)),
            key_t == (|t: WindowThumb| t.rank()),
            forall|q: int|
                0 <= q < k ==> is_stable_sort(
                    (#[trigger] normal@[q]).windows@,
                    collected(ms, ws, per_monitor, nids, sids, cs, (false, q)),
                    key_t,
                ),
            forall|q: int|
                k <= q < normal.len() ==> (#[trigger] normal@[q]).windows@ == collected(
                    ms,
                    ws,
                    per_monitor,
                    nids,
                    sids,
                    cs,
                    (false, q),
                ),
        decreases normal.len() - k,
    {
        let ghost before = normal@;
        sort_stable(&mut normal[k].windows);
        proof {
            assert forall|q: int| 0 <= q < normal.len() && q != k implies #[trigger] normal@[q]
                == before[q] by {}
            assert(ids_of(normal@) =~= nids) by {
                assert forall|q: int| 0 <= q < normal.len() implies ids_of(normal@)[q] == nids[q] by {
                    assert(ids_of(before)[q] == nids[q]);
                }
            }
            assert(normal@.map_values(sv) =~= nshells) by {
                assert forall|q: int| 0 <= q < normal.len() implies normal@.map_values(sv)[q]
                    == nshells[q] by {
                    assert(before.map_values(sv)[q] == nshells[q]);
                }
            }
        }
        k = k + 1;
    }
    let mut k: usize = 0;
    while k < special.len()
        invariant
            k <= special.len(),
            ids_of(special@) == sids,
            special@.map_values(sv) == sshells,
            sv == (|m: WorkspaceModel| shell_of(m)),
            key_t == (|t: WindowThumb| t.rank()),
            forall|q: int|
                0 <= q < k ==> is_stable_sort(
                    (#[trigger] special@[q]).windows@,
                    collected(ms, ws, per_monitor, nids, sids, cs, (true, q)),
                    key_t,
                ),
            forall|q: int|
                k <= q < special.len() ==> (#[trigger] special@[q]).windows@ == collected(
                    ms,
                    ws,
                    per_monitor,
                    nids,
                    sids,
                    cs,
                    (true, q),
                ),
        decreases special.len() - k,
    {
        let ghost before = special@;
        sort_stable(&mut special[k].windows);
        proof {
            assert forall|q: int| 0 <= q < special.len() && q != k implies #[trigger] special@[q]
                == before[q] by {}
            assert(ids_of(special@) =~= sids) by {
                assert forall|q: int| 0 <= q < special.len() implies ids_of(special@)[q]
                    == sids[q] by {
                    assert(ids_of(before)[q] == sids[q]);
                }
            }
            assert(special@.map_values(sv) =~= sshells) by {
                assert forall|q: int| 0 <= q < special.len() implies special@.map_values(sv)[q]
                    == sshells[q] by {
                    assert(before.map_values(sv)[q] == sshells[q]);
                }
            }
        }
        k = k + 1;
    }
    let snap = Snapshot {
        monitor: geom,
        monitor_name: cname.clone(),
        workspaces: normal,
        specials: special,
        active_workspace: monitors[c].active_workspace,
    };
    Some(snap)
}

} // verus!
