//! What keys and scroll steps do while the overlay is open.

use vstd::prelude::*;
use crate::dispatch::special_for_digit;

verus! {

/// The keys the overlay tells apart. `Digit` is any key that types the
/// decimal digit it carries (main row or keypad).
#[derive(Clone, Copy, Debug, PartialEq, Eq, Structural)]
pub enum OverlayKey {
    Escape,
    Q,
    Left,
    Up,
    H,
    K,
    Right,
    Down,
    L,
    J,
    Return,
    KpEnter,
    Space,
    Digit(u32),
    Other,
}

/// What an input does.
#[derive(Clone, Copy, Debug, PartialEq, Eq, Structural)]
pub enum InputAction {
    /// Close the overlay without switching.
    Close,
    /// Rotate the ring focus by this many steps (positive: clockwise).
    Rotate(i32),
    /// Switch to the focused workspace and close.
    Commit,
    /// Toggle the special workspace at this position and close.
    ToggleSpecial(usize),
    /// Not handled here; the key goes on to other handlers.
    Ignore,
}

/// The overlay's key table with `specials` special workspaces: `Esc`/`q`
/// close; `←` `↑` / `h` `k` rotate counter-clockwise; `→` `↓` / `l` `j`
/// rotate clockwise; `Enter` (either) / `Space` commit; digit `d` toggles the
/// `d`-th special workspace if there is one; anything else is ignored.
pub open spec fn spec_key_action(key: OverlayKey, specials: usize) -> InputAction {
    match key {
        OverlayKey::Escape | OverlayKey::Q => InputAction::Close,
        OverlayKey::Left | OverlayKey::Up | OverlayKey::H | OverlayKey::K => InputAction::Rotate(-1i32),
        OverlayKey::Right | OverlayKey::Down | OverlayKey::L | OverlayKey::J => InputAction::Rotate(1i32),
        OverlayKey::Return | OverlayKey::KpEnter | OverlayKey::Space => InputAction::Commit,
        OverlayKey::Digit(d) => if 1 <= d && d <= specials {
            InputAction::ToggleSpecial((d - 1) as usize)
        } else {
            InputAction::Ignore
        },
        OverlayKey::Other => InputAction::Ignore,
    }
}

/// What pressing `key` does with `specials` special workspaces shown.
pub fn key_action(key: OverlayKey, specials: usize) -> (a: InputAction)
    ensures
        a == spec_key_action(key, specials),
{
    match key {
        OverlayKey::Escape | OverlayKey::Q => InputAction::Close,
        OverlayKey::Left | OverlayKey::Up | OverlayKey::H | OverlayKey::K => InputAction::Rotate(-1i32),
        OverlayKey::Right | OverlayKey::Down | OverlayKey::L | OverlayKey::J => InputAction::Rotate(1i32),
        OverlayKey::Return | OverlayKey::KpEnter | OverlayKey::Space => InputAction::Commit,
        OverlayKey::Digit(d) => match special_for_digit(d, specials) {
            Some(k) => InputAction::ToggleSpecial(k),
            None => InputAction::Ignore,
        },
        OverlayKey::Other => InputAction::Ignore,
    }
}

/// What one scroll detent does, given the sign of its vertical delta
/// (positive: down): down rotates clockwise, up counter-clockwise, and a
/// zero delta does nothing.
pub fn scroll_action(dy_sign: i8) -> (a: InputAction)
    ensures
        a == (if dy_sign > 0 {
            InputAction::Rotate(1i32)
        } else if dy_sign < 0 {
            InputAction::Rotate(-1i32)
        } else {
            InputAction::Ignore
        }),
{
    if dy_sign > 0 {
        InputAction::Rotate(1i32)
    } else if dy_sign < 0 {
        InputAction::Rotate(-1i32)
    } else {
        InputAction::Ignore
    }
}

/// The key table does not depend on how many specials are shown, except
/// for digits: for every count `n`, `Esc`/`q` close, `←` `↑` `h` `k` rotate
/// one step counter-clockwise, `→` `↓` `l` `j` one step clockwise, `Enter`,
/// keypad `Enter` and `Space` commit, other keys are ignored; digit `d`
/// toggles the `d`-th special exactly when `1 <= d <= n`.
pub proof fn lemma_key_table(n: usize)
    ensures
        spec_key_action(OverlayKey::Escape, n) == InputAction::Close,
        spec_key_action(OverlayKey::Q, n) == InputAction::Close,
        spec_key_action(OverlayKey::Left, n) == InputAction::Rotate(-1i32),
        spec_key_action(OverlayKey::Up, n) == InputAction::Rotate(-1i32),
        spec_key_action(OverlayKey::H, n) == InputAction::Rotate(-1i32),
        spec_key_action(OverlayKey::K, n) == InputAction::Rotate(-1i32),
        spec_key_action(OverlayKey::Right, n) == InputAction::Rotate(1i32),
        spec_key_action(OverlayKey::Down, n) == InputAction::Rotate(1i32),
        spec_key_action(OverlayKey::L, n) == InputAction::Rotate(1i32),
        spec_key_action(OverlayKey::J, n) == InputAction::Rotate(1i32),
        spec_key_action(OverlayKey::Return, n) == InputAction::Commit,
        spec_key_action(OverlayKey::KpEnter, n) == InputAction::Commit,
        spec_key_action(OverlayKey::Space, n) == InputAction::Commit,
        spec_key_action(OverlayKey::Other, n) == InputAction::Ignore,
        forall|d: u32|
            #[trigger] spec_key_action(OverlayKey::Digit(d), n) == (if 1 <= d <= n {
                InputAction::ToggleSpecial((d - 1) as usize)
            } else {
                InputAction::Ignore
            }),
        forall|key: OverlayKey, m: usize|
            !(key is Digit) ==> #[trigger] spec_key_action(key, n) == #[trigger] spec_key_action(
                key,
                m,
            ),
{
}

} // verus!
