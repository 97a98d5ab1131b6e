//! Which preview of the ring has focus, and how rotation moves it.

use vstd::prelude::*;

verus! {

/// The first position of `id` in `ids`.
pub open spec fn position_of(ids: Seq<i32>, id: i32) -> Option<int>
    decreases ids.len(),
{
    if ids.len() == 0 {
        None
    } else {
        match position_of(ids.drop_last(), id) {
            Some(k) => Some(k),
            None => if ids.last() == id {
                Some(ids.len() - 1)
            } else {
                None
            },
        }
    }
}

/// The ring focus for workspaces `ids`: the previously focused workspace
/// `prev` if it is still there, else the active workspace `active`, else the
/// first preview.
pub open spec fn spec_initial_focus(ids: Seq<i32>, prev: Option<i32>, active: i32) -> int {
    match prev {
        Some(p) if position_of(ids, p) is Some => position_of(ids, p).unwrap(),
        _ => match position_of(ids, active) {
            Some(k) => k,
            None => 0,
        },
    }
}

/// Focus after rotating `delta` steps from `focus` on a ring of `len > 0`.
pub open spec fn spec_rotated(focus: int, len: int, delta: int) -> int {
    (focus + delta) % len
}

pub proof fn lemma_position_of(ids: Seq<i32>, id: i32)
    ensures
        position_of(ids, id) matches Some(k) ==> 0 <= k < ids.len() && ids[k] == id && forall|
            j: int,
        | 0 <= j < k ==> ids[j] != id,
        position_of(ids, id) is None ==> forall|j: int| 0 <= j < ids.len() ==> ids[j] != id,
    decreases ids.len(),
{
    if ids.len() > 0 {
        let d = ids.drop_last();
        lemma_position_of(d, id);
        assert forall|j: int| 0 <= j < d.len() implies d[j] == ids[j] by {}
    }
}

proof fn lemma_position_prefix(s: Seq<i32>, id: i32, j: int)
    requires
        0 <= j <= s.len(),
        position_of(s.take(j), id) is Some,
    ensures
        position_of(s, id) == position_of(s.take(j), id),
    decreases s.len(),
{
    if j < s.len() {
        assert(s.drop_last().take(j) =~= s.take(j));
        lemma_position_prefix(s.drop_last(), id, j);
    } else {
        assert(s.take(j) =~= s);
    }
}

fn find_position(ids: &Vec<i32>, id: i32) -> (r: Option<usize>)
    ensures
        match r {
            Some(k) => position_of(ids@, id) == Some(k as int),
            None => position_of(ids@, id) is None,
        },
{
    let mut i: usize = 0;
    while i < ids.len()
        invariant
            i <= ids.len(),
            position_of(ids@.take(i as int), id) is None,
        decreases ids.len() - i,
    {
        assert(ids@.take(i + 1).drop_last() =~= ids@.take(i as int));
        if ids[i] == id {
            proof {
                lemma_position_prefix(ids@, id, i + 1);
            }
            return Some(i);
        }
        i = i + 1;
    }
    assert(ids@.take(ids.len() as int) =~= ids@);
    None
}

/// Index of the preview that gets focus when the ring shows the workspaces
/// `ids`: the previously focused workspace `prev` if it is still there, else
/// the active workspace `active`, else the first preview.
pub fn initial_focus(ids: &Vec<i32>, prev: Option<i32>, active: i32) -> (r: usize)
    ensures
        r == spec_initial_focus(ids@, prev, active),
        ids.len() > 0 ==> r < ids.len(),
        ids.len() == 0 ==> r == 0,
{
    proof {
        lemma_position_of(ids@, active);
        if let Some(p) = prev {
            lemma_position_of(ids@, p);
        }
    }
    if let Some(p) = prev {
        if let Some(k) = find_position(ids, p) {
            return k;
        }
    }
    match find_position(ids, active) {
        Some(k) => k,
        None => 0,
    }
}

/// The focused position on a ring of previews.
pub struct RingFocus {
    len: usize,
    focus: usize,
}

impl RingFocus {
    #[verifier::type_invariant]
    spec fn wf(self) -> bool {
        if self.len == 0 {
            self.focus == 0
        } else {
            self.focus < self.len
        }
    }

    /// Number of previews on the ring.
    pub closed spec fn spec_len(self) -> int {
        self.len as int
    }

    /// Position of the focused preview (0 on an empty ring).
    pub closed spec fn spec_focus(self) -> int {
        self.focus as int
    }

    /// Focus for a ring showing the workspaces `ids` (see `initial_focus`).
    pub fn for_workspaces(ids: &Vec<i32>, prev: Option<i32>, active: i32) -> (r: Self)
        ensures
            r.spec_len() == ids.len(),
            r.spec_focus() == spec_initial_focus(ids@, prev, active),
    {
        let focus = initial_focus(ids, prev, active);
        RingFocus { len: ids.len(), focus }
    }

    /// Number of previews on the ring.
    pub fn len(&self) -> (n: usize)
        ensures
            n == self.spec_len(),
    {
        self.len
    }

    /// Position of the focused preview (0 on an empty ring).
    pub fn focus(&self) -> (f: usize)
        ensures
            f == self.spec_focus(),
            self.spec_len() == 0 ==> f == 0,
            self.spec_len() > 0 ==> f < self.spec_len(),
    {
        proof {
            use_type_invariant(self);
        }
        self.focus
    }

    /// The focused preview, if the ring has any.
    pub fn focused(&self) -> (r: Option<usize>)
        ensures
            self.spec_len() == 0 ==> r is None,
            self.spec_len() > 0 ==> r == Some(self.spec_focus() as usize),
    {
        if self.len == 0 {
            None
        } else {
            Some(self.focus)
        }
    }

    /// Moves the focus to preview `idx`. Returns whether the focus changed:
    /// an empty ring, an index past its end and the current focus change
    /// nothing.
    pub fn set_focus(&mut self, idx: usize) -> (changed: bool)
        ensures
            final(self).spec_len() == old(self).spec_len(),
            changed == (idx < old(self).spec_len() && idx != old(self).spec_focus()),
            final(self).spec_focus() == (if changed {
                idx as int
            } else {
                old(self).spec_focus()
            }),
    {
        if self.len == 0 || idx >= self.len || idx == self.focus {
            return false;
        }
        self.focus = idx;
        true
    }

    /// Rotates the focus `delta` steps around the ring (positive: clockwise).
    /// Returns whether the focus changed; an empty ring does not rotate.
    pub fn rotate(&mut self, delta: i32) -> (changed: bool)
        ensures
            final(self).spec_len() == old(self).spec_len(),
            old(self).spec_len() == 0 ==> final(self).spec_focus() == old(self).spec_focus(),
            old(self).spec_len() > 0 ==> final(self).spec_focus() == spec_rotated(
                old(self).spec_focus(),
                old(self).spec_len(),
                delta as int,
            ),
            changed == (final(self).spec_focus() != old(self).spec_focus()),
    {
        proof {
            use_type_invariant(&*self);
        }
        if self.len == 0 {
            return false;
        }
        let sum: i128 = self.focus as i128 + delta as i128;
        let idx = match sum.checked_rem_euclid(self.len as i128) {
            Some(r) => r,
            None => {
                proof {
                    assert(false);
                }
                0
            },
        };
        assert(0 <= idx < self.len);
        self.set_focus(idx as usize)
    }
}

/// Rotation moves around the ring in a fixed direction: the new focus is on
/// the ring and differs from `focus + delta` by whole turns of `len`;
/// one step clockwise goes to the next preview (wrapping to the first) and
/// one step counter-clockwise to the previous one (wrapping to the last),
/// on rings of every length.
pub proof fn lemma_rotate_direction(focus: int, len: int, delta: int)
    requires
        0 <= focus < len,
    ensures
        0 <= spec_rotated(focus, len, delta) < len,
        (spec_rotated(focus, len, delta) - (focus + delta)) % len == 0,
        spec_rotated(focus, len, 1) == (if focus + 1 == len {
            0
        } else {
            focus + 1
        }),
        spec_rotated(focus, len, -1) == (if focus == 0 {
            len - 1
        } else {
            focus - 1
        }),
{
    let r = spec_rotated(focus, len, delta);
    vstd::arithmetic::div_mod::lemma_fundamental_div_mod(focus + delta, len);
    assert(r == focus + delta + (-((focus + delta) / len)) * len) by (nonlinear_arith)
        requires
            focus + delta == len * ((focus + delta) / len) + (focus + delta) % len,
            r == (focus + delta) % len,
    ;
    vstd::arithmetic::div_mod::lemma_mod_bound(focus + delta, len);
    vstd::arithmetic::div_mod::lemma_mod_multiples_basic(-((focus + delta) / len), len);
    assert(r - (focus + delta) == (-((focus + delta) / len)) * len);
    if focus + 1 == len {
        vstd::arithmetic::div_mod::lemma_mod_self_0(len);
    } else {
        vstd::arithmetic::div_mod::lemma_small_mod((focus + 1) as nat, len as nat);
    }
    if focus == 0 {
        vstd::arithmetic::div_mod::lemma_mod_sub_multiples_vanish(len - 1, len);
        vstd::arithmetic::div_mod::lemma_small_mod((len - 1) as nat, len as nat);
        assert(-len + (len - 1) == -1);
    } else {
        vstd::arithmetic::div_mod::lemma_small_mod((focus - 1) as nat, len as nat);
    }
}

/// Rotating by `a` and then by `b` is rotating by `a + b`.
pub proof fn lemma_rotate_compose(focus: int, len: int, a: int, b: int)
    requires
        len > 0,
    ensures
        spec_rotated(spec_rotated(focus, len, a), len, b) == spec_rotated(focus, len, a + b),
{
    let x = focus + a;
    vstd::arithmetic::div_mod::lemma_add_mod_noop(x, b, len);
    vstd::arithmetic::div_mod::lemma_add_mod_noop(x % len, b, len);
    vstd::arithmetic::div_mod::lemma_mod_twice(x, len);
    assert(x + b == focus + (a + b));
}

/// Rotating back by the same number of steps returns to the focus.
pub proof fn lemma_rotate_inverse(focus: int, len: int, delta: int)
    requires
        0 <= focus < len,
    ensures
        spec_rotated(spec_rotated(focus, len, delta), len, -delta) == focus,
{
    lemma_rotate_compose(focus, len, delta, -delta);
    vstd::arithmetic::div_mod::lemma_small_mod(focus as nat, len as nat);
}

/// A full turn, `len` steps either way, leaves the focus where it was.
pub proof fn lemma_rotate_full_turn(focus: int, len: int)
    requires
        0 <= focus < len,
    ensures
        spec_rotated(focus, len, len) == focus,
        spec_rotated(focus, len, -len) == focus,
{
    vstd::arithmetic::div_mod::lemma_mod_add_multiples_vanish(focus, len);
    vstd::arithmetic::div_mod::lemma_mod_sub_multiples_vanish(focus, len);
    vstd::arithmetic::div_mod::lemma_small_mod(focus as nat, len as nat);
}

/// A refresh keeps the focus on the previously focused workspace whenever
/// that workspace is still shown.
pub proof fn lemma_focus_kept(ids: Seq<i32>, prev: i32, active: i32)
    requires
        ids.contains(prev),
    ensures
        0 <= spec_initial_focus(ids, Some(prev), active) < ids.len(),
        ids[spec_initial_focus(ids, Some(prev), active)] == prev,
{
    lemma_position_of(ids, prev);
}

} // verus!
