//! What choosing a workspace asks of Hyprland.

use vstd::prelude::*;

verus! {

/// The compositor request that brings a workspace up.
#[derive(Debug)]
pub enum WorkspaceDispatch {
    /// Toggle the special workspace with this name (shown or hidden).
    ToggleSpecial(String),
    /// Switch to the normal workspace with this id.
    Switch(i32),
}

/// The request for the workspace with id `id` and name `name`: special
/// workspaces (negative ids) are toggled by name, others switched to by id.
pub fn dispatch_for(id: i32, name: &str) -> (d: WorkspaceDispatch)
    ensures
        id < 0 ==> (d matches WorkspaceDispatch::ToggleSpecial(n) && n@ == name@),
        id >= 0 ==> d == WorkspaceDispatch::Switch(id),
{
    if id < 0 {
        WorkspaceDispatch::ToggleSpecial(name.to_owned())
    } else {
        WorkspaceDispatch::Switch(id)
    }
}

/// The special workspace that digit key `digit` toggles among `count` special
/// workspaces: digit `d` picks the `d`-th (1-based), shown in its badge.
pub fn special_for_digit(digit: u32, count: usize) -> (r: Option<usize>)
    ensures
        r is Some <==> 1 <= digit && digit <= count,
        r matches Some(k) ==> k == digit - 1,
{
    if digit >= 1 && (digit as u64) <= (count as u64) {
        Some((digit - 1) as usize)
    } else {
        None
    }
}

} // verus!
