//! Bookkeeping of the overlay's live refresh: which windows a snapshot
//! shows, which captured textures stay valid, which windows still need a
//! capture, and how many captures are in flight.

use vstd::prelude::*;
use std::collections::HashMap;
use crate::snapshot::{Snapshot, WindowThumb, WorkspaceModel};

verus! {

broadcast use vstd::std_specs::hash::group_hash_axioms;

/// Addresses of the windows of `w`, back to front.
pub open spec fn window_addrs_of(w: WorkspaceModel) -> Seq<u64> {
    w.windows@.map_values(|t: WindowThumb| t.addr)
}

/// Addresses of every window of the workspaces `ms`, workspace by workspace.
pub open spec fn addrs_of(ms: Seq<WorkspaceModel>) -> Seq<u64>
    decreases ms.len(),
{
    if ms.len() == 0 {
        seq![]
    } else {
        addrs_of(ms.drop_last()) + window_addrs_of(ms.last())
    }
}

/// Addresses of every window in `s`: normal workspaces first, then specials.
pub open spec fn snapshot_addrs(s: Snapshot) -> Seq<u64> {
    addrs_of(s.workspaces@) + addrs_of(s.specials@)
}

impl WorkspaceModel {
    /// Addresses of this workspace's windows, back to front.
    pub fn window_addrs(&self) -> (r: Vec<u64>)
        ensures
            r@ == window_addrs_of(*self),
    {
        let mut r: Vec<u64> = Vec::new();
        let mut i: usize = 0;
        while i < self.windows.len()
            invariant
                i <= self.windows.len(),
                r@ == self.windows@.take(i as int).map_values(|t: WindowThumb| t.addr),
            decreases self.windows.len() - i,
        {
            r.push(self.windows[i].addr);
            i = i + 1;
            assert(r@ =~= self.windows@.take(i as int).map_values(|t: WindowThumb| t.addr));
        }
        assert(self.windows@.take(i as int) =~= self.windows@);
        r
    }

    /// Whether a window with address `addr` is on this workspace.
    pub fn has_window(&self, addr: u64) -> (r: bool)
        ensures
            r == window_addrs_of(*self).contains(addr),
    {
        let mut i: usize = 0;
        while i < self.windows.len()
            invariant
                i <= self.windows.len(),
                forall|j: int| 0 <= j < i ==> (#[trigger] self.windows@[j]).addr != addr,
            decreases self.windows.len() - i,
        {
            if self.windows[i].addr == addr {
                assert(window_addrs_of(*self)[i as int] == addr);
                return true;
            }
            i = i + 1;
        }
        assert forall|j: int| 0 <= j < window_addrs_of(*self).len() implies window_addrs_of(
            *self,
        )[j] != addr by {
            assert(self.windows@[j].addr != addr);
        }
        false
    }
}

fn append_addrs(out: &mut Vec<u64>, ms: &Vec<WorkspaceModel>)
    ensures
        final(out)@ == old(out)@ + addrs_of(ms@),
{
    let mut i: usize = 0;
    while i < ms.len()
        invariant
            i <= ms.len(),
            out@ == old(out)@ + addrs_of(ms@.take(i as int)),
        decreases ms.len() - i,
    {
        assert(ms@.take(i + 1).drop_last() =~= ms@.take(i as int));
        let a = ms[i].window_addrs();
        let mut k: usize = 0;
        let ghost base = out@;
        while k < a.len()
            invariant
                k <= a.len(),
                out@ == base + a@.take(k as int),
            decreases a.len() - k,
        {
            out.push(a[k]);
            k = k + 1;
            assert(out@ =~= base + a@.take(k as int));
        }
        assert(a@.take(k as int) =~= a@);
        i = i + 1;
        assert(out@ =~= old(out)@ + addrs_of(ms@.take(i as int)));
    }
    assert(ms@.take(i as int) =~= ms@);
}

/// Addresses of every window the snapshot shows: those of the normal
/// workspaces in ring order, then those of the special workspaces.
pub fn all_addrs(s: &Snapshot) -> (r: Vec<u64>)
    ensures
        r@ == snapshot_addrs(*s),
{
    let mut r: Vec<u64> = Vec::new();
    append_addrs(&mut r, &s.workspaces);
    append_addrs(&mut r, &s.specials);
    assert(r@ =~= snapshot_addrs(*s));
    r
}

/// Captured textures by window address, kept across snapshot refreshes.
#[verifier::reject_recursive_types(T)]
pub struct TextureCache<T> {
    map: HashMap<u64, T>,
}

impl<T> View for TextureCache<T> {
    type V = Map<u64, T>;

    closed spec fn view(&self) -> Map<u64, T> {
        self.map@
    }
}

proof fn lemma_push_contains(s: Seq<u64>, a: u64, x: u64)
    ensures
        s.push(a).contains(x) <==> s.contains(x) || x == a,
{
    if s.push(a).contains(x) {
        let j = choose|j: int| 0 <= j < s.push(a).len() && s.push(a)[j] == x;
        if j < s.len() {
            assert(s[j] == x);
        }
    }
    if s.contains(x) {
        let j = choose|j: int| 0 <= j < s.len() && s[j] == x;
        assert(s.push(a)[j] == x);
    }
    if x == a {
        assert(s.push(a)[s.len() as int] == x);
    }
}

fn vec_contains(v: &Vec<u64>, x: u64) -> (r: bool)
    ensures
        r == v@.contains(x),
{
    let mut i: usize = 0;
    while i < v.len()
        invariant
            i <= v.len(),
            forall|j: int| 0 <= j < i ==> v@[j] != x,
        decreases v.len() - i,
    {
        if v[i] == x {
            return true;
        }
        i = i + 1;
    }
    false
}

/// The windows of `alive` outside `cached`, each once, in the order of their
/// first appearance.
pub open spec fn missing_from(alive: Seq<u64>, cached: Set<u64>) -> Seq<u64>
    decreases alive.len(),
{
    if alive.len() == 0 {
        seq![]
    } else {
        let prev = missing_from(alive.drop_last(), cached);
        let a = alive.last();
        if !cached.contains(a) && !prev.contains(a) {
            prev.push(a)
        } else {
            prev
        }
    }
}

impl<T> TextureCache<T> {
    /// An empty cache.
    pub fn new() -> (c: Self)
        ensures
            c@ == Map::<u64, T>::empty(),
    {
        TextureCache { map: HashMap::new() }
    }

    /// Stores the texture delivered for window `addr`, replacing an older one.
    pub fn insert(&mut self, addr: u64, texture: T)
        ensures
            final(self)@ == old(self)@.insert(addr, texture),
    {
        self.map.insert(addr, texture);
    }

    /// The texture stored for window `addr`, if any.
    pub fn get(&self, addr: u64) -> (r: Option<&T>)
        ensures
            match r {
                Some(t) => self@.contains_key(addr) && *t == self@[addr],
                None => !self@.contains_key(addr),
            },
    {
        self.map.get(&addr)
    }

    /// Whether a texture is stored for window `addr`.
    pub fn contains(&self, addr: u64) -> (r: bool)
        ensures
            r == self@.contains_key(addr),
    {
        self.map.contains_key(&addr)
    }

    /// Drops the textures of windows that are not in `alive`.
    pub fn retain_alive(&mut self, alive: &Vec<u64>)
        ensures
            final(self)@ == old(self)@.restrict(alive@.to_set()),
    {
        let ghost orig = self.map@;
        let mut kept: HashMap<u64, T> = HashMap::new();
        let mut i: usize = 0;
        while i < alive.len()
            invariant
                i <= alive.len(),
                kept@ == orig.restrict(alive@.take(i as int).to_set()),
                self.map@ == orig.remove_keys(alive@.take(i as int).to_set()),
            decreases alive.len() - i,
        {
            let a = alive[i];
            let ghost before_kept = kept@;
            let ghost before_map = self.map@;
            let ghost prev = alive@.take(i as int);
            let ghost next = alive@.take(i + 1);
            assert(next =~= prev.push(a));
            assert(next.to_set() =~= prev.to_set().insert(a)) by {
                assert forall|x: u64| next.contains(x) <==> prev.contains(x) || x == a by {
                    lemma_push_contains(prev, a, x);
                }
            }
            match self.map.remove(&a) {
                Some(t) => {
                    kept.insert(a, t);
                },
                None => {},
            }
            i = i + 1;
            assert(kept@ =~= orig.restrict(alive@.take(i as int).to_set()));
            assert(self.map@ =~= orig.remove_keys(alive@.take(i as int).to_set()));
        }
        assert(alive@.take(alive.len() as int) =~= alive@);
        self.map = kept;
    }

    /// Windows in `alive` without a texture, each once, in the order in which
    /// they first appear in `alive`.
    pub fn missing(&self, alive: &Vec<u64>) -> (r: Vec<u64>)
        ensures
            r@ == missing_from(alive@, self@.dom()),
            r@.no_duplicates(),
            forall|a: u64| r@.contains(a) <==> alive@.contains(a) && !self@.contains_key(a),
    {
        let mut r: Vec<u64> = Vec::new();
        let mut i: usize = 0;
        while i < alive.len()
            invariant
                i <= alive.len(),
                r@ == missing_from(alive@.take(i as int), self@.dom()),
                r@.no_duplicates(),
                forall|a: u64|
                    r@.contains(a) <==> alive@.take(i as int).contains(a) && !self@.contains_key(a),
            decreases alive.len() - i,
        {
            let a = alive[i];
            let ghost prev = alive@.take(i as int);
            let ghost r0 = r@;
            assert(alive@.take(i + 1) =~= prev.push(a));
            assert(alive@.take(i + 1).drop_last() =~= prev);
            if !self.map.contains_key(&a) && !vec_contains(&r, a) {
                r.push(a);
            }
            i = i + 1;
            assert forall|b: u64|
                r@.contains(b) <==> alive@.take(i as int).contains(b) && !self@.contains_key(b) by {
                lemma_push_contains(prev, a, b);
                lemma_push_contains(r0, a, b);
            }
        }
        assert(alive@.take(alive.len() as int) =~= alive@);
        r
    }
}

/// After a refresh, every window that the new snapshot shows either keeps
/// its texture or is asked for again, and no texture of a vanished window is
/// kept.
pub proof fn lemma_refresh_covers<T>(cache: Map<u64, T>, alive: Seq<u64>, missing: Seq<u64>)
    requires
        forall|a: u64|
            missing.contains(a) <==> alive.contains(a) && !cache.restrict(
                alive.to_set(),
            ).contains_key(a),
    ensures
        forall|a: u64|
            alive.contains(a) ==> cache.restrict(alive.to_set()).contains_key(a)
                || missing.contains(a),
        forall|a: u64| cache.restrict(alive.to_set()).contains_key(a) ==> alive.contains(a),
{
}

/// Captures requested from the worker and not yet answered. The periodic
/// refresh holds back while any are in flight, so it never outruns the
/// sequential worker.
pub struct CaptureBudget {
    pending: usize,
}

impl CaptureBudget {
    /// No capture in flight.
    pub fn new() -> (b: Self)
        ensures
            b.spec_pending() == 0,
    {
        CaptureBudget { pending: 0 }
    }

    /// Number of captures in flight.
    pub closed spec fn spec_pending(self) -> nat {
        self.pending as nat
    }

    /// Number of captures in flight.
    pub fn pending(&self) -> (n: usize)
        ensures
            n == self.spec_pending(),
    {
        self.pending
    }

    /// Records `n` more requested captures.
    pub fn requested(&mut self, n: usize)
        requires
            old(self).spec_pending() + n <= usize::MAX,
        ensures
            final(self).spec_pending() == old(self).spec_pending() + n,
    {
        self.pending = self.pending + n;
    }

    /// Records one answered capture; an answer with nothing in flight
    /// changes nothing.
    pub fn answered(&mut self)
        ensures
            final(self).spec_pending() == (if old(self).spec_pending() == 0 {
                0
            } else {
                old(self).spec_pending() - 1
            }),
    {
        self.pending = self.pending.saturating_sub(1);
    }

    /// Whether every requested capture has been answered.
    pub fn idle(&self) -> (r: bool)
        ensures
            r == (self.spec_pending() == 0),
    {
        self.pending == 0
    }
}

/// What the periodic re-capture does on one tick.
#[derive(Clone, Copy, Debug, PartialEq, Eq, Structural)]
pub enum RecaptureStep {
    /// The overlay is gone: stop ticking.
    Stop,
    /// Captures are still in flight: skip this tick.
    Wait,
    /// Re-capture the windows of the ring preview at this position.
    Recapture(usize),
    /// Nothing is focused: keep ticking.
    Idle,
}

/// One tick of the re-capture timer: stop once the overlay is hidden, hold
/// back while captures are in flight, else re-capture the ring-focused
/// preview, if any.
pub fn recapture_step(visible: bool, budget: &CaptureBudget, focused: Option<usize>) -> (s:
    RecaptureStep)
    ensures
        s == (if !visible {
            RecaptureStep::Stop
        } else if budget.spec_pending() > 0 {
            RecaptureStep::Wait
        } else {
            match focused {
                Some(k) => RecaptureStep::Recapture(k),
                None => RecaptureStep::Idle,
            }
        }),
{
    if !visible {
        RecaptureStep::Stop
    } else if !budget.idle() {
        RecaptureStep::Wait
    } else {
        match focused {
            Some(k) => RecaptureStep::Recapture(k),
            None => RecaptureStep::Idle,
        }
    }
}

} // verus!
