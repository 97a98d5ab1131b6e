//! Decisions behind the decoration of one workspace preview.

use vstd::prelude::*;

verus! {

/// The text of a preview's badge.
#[derive(Clone, Copy, Debug, PartialEq, Eq, Structural)]
pub enum Badge {
    /// `"{n}: {name}"`: a special workspace with its digit hotkey `n`.
    Numbered(usize),
    /// The workspace name alone.
    Name,
}

/// The badge of a preview: special previews always carry their hotkey
/// number; normal previews show their name only when labels are on.
pub fn badge_for(special_index: Option<usize>, show_label: bool) -> (b: Option<Badge>)
    ensures
        special_index matches Some(i) ==> b == Some(Badge::Numbered(i)),
        special_index is None ==> b == (if show_label {
            Some(Badge::Name)
        } else {
            None
        }),
{
    match special_index {
        Some(i) => Some(Badge::Numbered(i)),
        None => if show_label {
            Some(Badge::Name)
        } else {
            None
        },
    }
}

/// The border of a preview.
#[derive(Clone, Copy, Debug, PartialEq, Eq, Structural)]
pub enum Border {
    /// Accent border of the ring-focused preview.
    Focused,
    /// Amber border of a special workspace.
    Special,
    /// Subtle border of every other preview.
    Plain,
}

/// The border of the preview of workspace `id`: the ring focus wins over
/// being special (negative id).
pub fn border_for(ring_focused: bool, id: i32) -> (b: Border)
    ensures
        b == (if ring_focused {
            Border::Focused
        } else if id < 0 {
            Border::Special
        } else {
            Border::Plain
        }),
{
    if ring_focused {
        Border::Focused
    } else if id < 0 {
        Border::Special
    } else {
        Border::Plain
    }
}

} // verus!
