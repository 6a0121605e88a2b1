//! Decisions of the snap engine: which zones a window ends up spanning,
//! where iteration and focus cycling go next, what a restore does, and the
//! per-window snap state they read and update.
use vstd::prelude::*;
use std::collections::HashMap;
use crate::geometry::{deflate, deflated, iterate_index, iterate_spec, IterateDir, PixelRect};
use crate::zones::Error;

verus! {

broadcast use vstd::std_specs::hash::group_hash_axioms;

// ---------------------------------------------------------------------
// Per-window state.
// ---------------------------------------------------------------------

/// What the daemon remembers about one window.
#[derive(Debug, Default)]
pub struct WindowState {
    /// Rect the window had right before its first snap — used to restore it.
    pub pre_snap: Option<PixelRect>,
    /// Zone indices the window is currently snapped across (empty = not snapped).
    pub zones: Vec<u32>,
}

impl View for WindowState {
    type V = (Option<PixelRect>, Seq<u32>);

    open spec fn view(&self) -> (Option<PixelRect>, Seq<u32>) {
        (self.pre_snap, self.zones@)
    }
}

pub(crate) fn copy_zones(z: &[u32]) -> (r: Vec<u32>)
    ensures
        r@ == z@,
{
    let mut r: Vec<u32> = Vec::new();
    let mut i: usize = 0;
    while i < z.len()
        invariant
            i <= z@.len(),
            r@ == z@.take(i as int),
        decreases z.len() - i,
    {
        r.push(z[i]);
        i = i + 1;
        assert(z@.take(i as int) == z@.take((i - 1) as int).push(z@[i - 1]));
    }
    assert(z@.take(z@.len() as int) =~= z@);
    r
}

impl WindowState {
    /// A window the daemon knows nothing about.
    pub fn unknown() -> (s: WindowState)
        ensures
            s@ == (None::<PixelRect>, Seq::<u32>::empty()),
    {
        WindowState { pre_snap: None, zones: Vec::new() }
    }

    /// An independent copy.
    pub fn duplicate(&self) -> (s: WindowState)
        ensures
            s@ == self@,
    {
        WindowState { pre_snap: self.pre_snap, zones: copy_zones(self.zones.as_slice()) }
    }
}

/// The state of window `id` in `m`: the stored one, or the empty state.
pub open spec fn state_in(m: Map<u64, (Option<PixelRect>, Seq<u32>)>, id: u64) -> (
    Option<PixelRect>,
    Seq<u32>,
) {
    if m.contains_key(id) {
        m[id]
    } else {
        (None, Seq::empty())
    }
}

/// `m` after window `id` is recorded as spanning `zones`.
pub open spec fn with_zones(
    m: Map<u64, (Option<PixelRect>, Seq<u32>)>,
    id: u64,
    zones: Seq<u32>,
) -> Map<u64, (Option<PixelRect>, Seq<u32>)> {
    m.insert(id, (state_in(m, id).0, zones))
}

/// `m` after the pre-snap rect of `id` is recorded, unless one already is.
pub open spec fn with_pre_snap(
    m: Map<u64, (Option<PixelRect>, Seq<u32>)>,
    id: u64,
    rect: PixelRect,
) -> Map<u64, (Option<PixelRect>, Seq<u32>)> {
    let s = state_in(m, id);
    m.insert(id, (if s.0 is Some { s.0 } else { Some(rect) }, s.1))
}

/// Snap state of every window the daemon has touched.
pub struct WindowStateMap {
    states: HashMap<u64, WindowState>,
}

impl View for WindowStateMap {
    type V = Map<u64, (Option<PixelRect>, Seq<u32>)>;

    closed spec fn view(&self) -> Map<u64, (Option<PixelRect>, Seq<u32>)> {
        self.states@.map_values(|s: WindowState| s@)
    }
}

impl WindowStateMap {
    /// No window is tracked.
    pub fn new() -> (m: WindowStateMap)
        ensures
            m@ == Map::<u64, (Option<PixelRect>, Seq<u32>)>::empty(),
    {
        let m = WindowStateMap { states: HashMap::new() };
        assert(m@ =~= Map::<u64, (Option<PixelRect>, Seq<u32>)>::empty());
        m
    }

    /// The state of window `id` (empty for an unknown window).
    pub fn get(&self, id: u64) -> (s: WindowState)
        ensures
            s@ == state_in(self@, id),
    {
        match self.states.get(&id) {
            Some(st) => st.duplicate(),
            None => WindowState::unknown(),
        }
    }

    /// Records the zones window `id` spans, keeping its pre-snap rect.
    pub fn set_zones(&mut self, id: u64, zones: Vec<u32>)
        ensures
            final(self)@ == with_zones(old(self)@, id, zones@),
    {
        let pre = match self.states.get(&id) {
            Some(st) => st.pre_snap,
            None => None,
        };
        let ghost before = self.states@;
        let ghost zv = zones@;
        self.states.insert(id, WindowState { pre_snap: pre, zones });
        assert(self@ =~= with_zones(before.map_values(|s: WindowState| s@), id, zv));
    }

    /// Records the pre-snap rect of window `id` unless one is recorded.
    pub fn ensure_pre_snap(&mut self, id: u64, rect: PixelRect)
        ensures
            final(self)@ == with_pre_snap(old(self)@, id, rect),
    {
        let st = match self.states.get(&id) {
            Some(st) => st.duplicate(),
            None => WindowState::unknown(),
        };
        let pre = match st.pre_snap {
            Some(p) => Some(p),
            None => Some(rect),
        };
        let ghost before = self.states@;
        let ghost zv = st.zones@;
        self.states.insert(id, WindowState { pre_snap: pre, zones: st.zones });
        assert(self@ =~= with_pre_snap(before.map_values(|s: WindowState| s@), id, rect));
    }

    /// Forgets window `id`.
    pub fn forget(&mut self, id: u64)
        ensures
            final(self)@ == old(self)@.remove(id),
    {
        let ghost before = self.states@;
        self.states.remove(&id);
        assert(self@ =~= before.map_values(|s: WindowState| s@).remove(id));
    }
}

/// What a window's state reads after its zones are set: the zones just
/// set, and the pre-snap rect it had; other windows are untouched.
pub proof fn lemma_set_zones_then_get(
    m: Map<u64, (Option<PixelRect>, Seq<u32>)>,
    id: u64,
    other: u64,
    zones: Seq<u32>,
)
    ensures
        state_in(with_zones(m, id, zones), id) == (state_in(m, id).0, zones),
        other != id ==> state_in(with_zones(m, id, zones), other) == state_in(m, other),
{
}

/// The pre-snap rect is recorded once: later records leave it unchanged.
pub proof fn lemma_pre_snap_set_once(
    m: Map<u64, (Option<PixelRect>, Seq<u32>)>,
    id: u64,
    r1: PixelRect,
    r2: PixelRect,
)
    ensures
        state_in(with_pre_snap(with_pre_snap(m, id, r1), id, r2), id).0 == if state_in(m, id).0 is Some {
            state_in(m, id).0
        } else {
            Some(r1)
        },
        state_in(with_pre_snap(m, id, r1), id).1 == state_in(m, id).1,
{
}

/// A forgotten window reads as unknown; other windows are untouched.
pub proof fn lemma_forget_then_get(m: Map<u64, (Option<PixelRect>, Seq<u32>)>, id: u64, other: u64)
    ensures
        state_in(m.remove(id), id) == (None::<PixelRect>, Seq::<u32>::empty()),
        other != id ==> state_in(m.remove(id), other) == state_in(m, other),
{
}

// ---------------------------------------------------------------------
// Zone sets.
// ---------------------------------------------------------------------

/// `s` is strictly increasing.
pub open spec fn strictly_increasing(s: Seq<u32>) -> bool {
    forall|i: int, j: int| 0 <= i < j < s.len() ==> #[trigger] s[i] < #[trigger] s[j]
}

/// The zones a window spans after snapping to `zone_index`: with `span`
/// the zone joins the current set, without it the zone replaces it.
pub open spec fn target_zones(current: Seq<u32>, zone_index: u32, span: bool) -> Set<u32> {
    (if span { current.to_set() } else { Set::empty() }).insert(zone_index)
}

fn insert_sorted(v: &mut Vec<u32>, x: u32)
    requires
        strictly_increasing(old(v)@),
    ensures
        strictly_increasing(final(v)@),
        final(v)@.to_set() == old(v)@.to_set().insert(x),
{
    let mut p: usize = 0;
    while p < v.len() && v[p] < x
        invariant
            p <= v@.len(),
            forall|k: int| 0 <= k < p ==> v@[k] < x,
        decreases v.len() - p,
    {
        p = p + 1;
    }
    let ghost before = v@;
    if p < v.len() && v[p] == x {
        assert(before.to_set().insert(x) =~= before.to_set()) by {
            assert(before.contains(x)) by {
                assert(before[p as int] == x);
            }
        }
        return;
    }
    v.insert(p, x);
    proof {
        assert(v@ == before.insert(p as int, x));
        assert forall|i: int, j: int| 0 <= i < j < v@.len() implies #[trigger] v@[i] < #[trigger] v@[j] by {
            if j < p {
                assert(v@[i] == before[i] && v@[j] == before[j]);
            } else if j == p {
                assert(v@[i] == before[i]);
            } else if i < p {
                assert(v@[i] == before[i] && v@[j] == before[j - 1]);
            } else if i == p {
                assert(v@[j] == before[j - 1]);
                if j - 1 > p {
                    assert(before[p as int] < before[j - 1]);
                }
            } else {
                assert(v@[i] == before[i - 1] && v@[j] == before[j - 1]);
            }
        }
        assert forall|y: u32| v@.to_set().contains(y) <==> before.to_set().insert(x).contains(y) by {
            if v@.contains(y) {
                let k = choose|k: int| 0 <= k < v@.len() && v@[k] == y;
                if k < p {
                    assert(before[k] == y);
                } else if k > p {
                    assert(before[k - 1] == y);
                }
            }
            if before.contains(y) {
                let k = choose|k: int| 0 <= k < before.len() && before[k] == y;
                if k < p {
                    assert(v@[k] == y);
                } else {
                    assert(v@[k + 1] == y);
                }
            }
            if y == x {
                assert(v@[p as int] == x);
            }
        }
        assert(v@.to_set() =~= before.to_set().insert(x));
    }
}

/// Every tracked window's zone set is sorted and free of duplicates.
pub open spec fn zone_sets_sorted(m: Map<u64, (Option<PixelRect>, Seq<u32>)>) -> bool {
    forall|id: u64| #[trigger] m.contains_key(id) ==> strictly_increasing(m[id].1)
}

/// The state operations keep every zone set sorted and duplicate-free,
/// provided the sets recorded by `set_zones` are (as `plan_zone_set`'s
/// are).
pub proof fn lemma_state_keeps_zone_sets_sorted(
    m: Map<u64, (Option<PixelRect>, Seq<u32>)>,
    id: u64,
    zones: Seq<u32>,
    rect: PixelRect,
)
    requires
        zone_sets_sorted(m),
        strictly_increasing(zones),
    ensures
        zone_sets_sorted(with_zones(m, id, zones)),
        zone_sets_sorted(with_pre_snap(m, id, rect)),
        zone_sets_sorted(m.remove(id)),
{
    assert forall|k: u64| #[trigger] with_pre_snap(m, id, rect).contains_key(k) implies strictly_increasing(
        with_pre_snap(m, id, rect)[k].1,
    ) by {
        if k != id {
            assert(m.contains_key(k));
        } else if m.contains_key(id) {
            assert(strictly_increasing(m[id].1));
        }
    }
    assert forall|k: u64| #[trigger] with_zones(m, id, zones).contains_key(k) implies strictly_increasing(
        with_zones(m, id, zones)[k].1,
    ) by {
        if k != id {
            assert(m.contains_key(k));
        }
    }
    assert forall|k: u64| #[trigger] m.remove(id).contains_key(k) implies strictly_increasing(m.remove(id)[k].1) by {
        assert(m.contains_key(k));
    }
}

/// Compute the target set of zone indices for a snap: sorted, without
/// duplicates.
pub fn plan_zone_set(current: &[u32], zone_index: u32, span: bool) -> (r: Vec<u32>)
    ensures
        strictly_increasing(r@),
        r@.to_set() == target_zones(current@, zone_index, span),
{
    let mut r: Vec<u32> = Vec::new();
    assert(r@.to_set() =~= Set::<u32>::empty());
    if span {
        let mut i: usize = 0;
        while i < current.len()
            invariant
                i <= current@.len(),
                strictly_increasing(r@),
                r@.to_set() == current@.take(i as int).to_set(),
            decreases current.len() - i,
        {
            insert_sorted(&mut r, current[i]);
            proof {
                assert(current@.take(i + 1) =~= current@.take(i as int).push(current@[i as int]));
                assert(current@.take(i + 1).to_set() =~= current@.take(i as int).to_set().insert(current@[i as int])) by {
                    assert forall|y: u32| current@.take(i + 1).to_set().contains(y) <==> current@.take(i as int).to_set().insert(current@[i as int]).contains(y) by {
                        let t = current@.take(i as int);
                        if t.push(current@[i as int]).contains(y) {
                            let k = choose|k: int| 0 <= k < t.len() + 1 && t.push(current@[i as int])[k] == y;
                            if k < t.len() {
                                assert(t[k] == y);
                            }
                        }
                        if t.contains(y) {
                            let k = choose|k: int| 0 <= k < t.len() && t[k] == y;
                            assert(t.push(current@[i as int])[k] == y);
                        }
                        if y == current@[i as int] {
                            assert(t.push(current@[i as int])[t.len() as int] == y);
                        }
                    }
                }
            }
            i = i + 1;
        }
        assert(current@.take(current@.len() as int) =~= current@);
    }
    insert_sorted(&mut r, zone_index);
    r
}

/// Two strictly increasing sequences with the same elements are equal.
pub proof fn lemma_sorted_sets_equal(a: Seq<u32>, b: Seq<u32>)
    requires
        strictly_increasing(a),
        strictly_increasing(b),
        a.to_set() == b.to_set(),
    ensures
        a == b,
    decreases a.len() + b.len(),
{
    if a.len() == 0 || b.len() == 0 {
        if a.len() > 0 {
            assert(a.to_set().contains(a[0]));
            assert(!b.contains(a[0]));
        }
        if b.len() > 0 {
            assert(b.to_set().contains(b[0]));
            assert(!a.contains(b[0]));
        }
        assert(a =~= b);
    } else {
        let la = a.last();
        let lb = b.last();
        assert(a.to_set().contains(la));
        assert(b.contains(la));
        assert(b.to_set().contains(lb));
        assert(a.contains(lb));
        let ka = choose|k: int| 0 <= k < b.len() && b[k] == la;
        let kb = choose|k: int| 0 <= k < a.len() && a[k] == lb;
        assert(la <= lb) by {
            if ka < b.len() - 1 {
                assert(b[ka] < b[b.len() - 1]);
            }
        }
        assert(lb <= la) by {
            if kb < a.len() - 1 {
                assert(a[kb] < a[a.len() - 1]);
            }
        }
        let a2 = a.drop_last();
        let b2 = b.drop_last();
        assert(strictly_increasing(a2));
        assert(strictly_increasing(b2));
        assert forall|y: u32| a2.to_set().contains(y) <==> b2.to_set().contains(y) by {
            if a2.contains(y) {
                let k = choose|k: int| 0 <= k < a2.len() && a2[k] == y;
                assert(a[k] == y && y < la);
                assert(a.contains(y));
                assert(a.to_set().contains(y));
                assert(b.to_set().contains(y));
                assert(b.contains(y));
                let j = choose|j: int| 0 <= j < b.len() && b[j] == y;
                if j == b.len() - 1 {
                    assert(false);
                }
                assert(b2[j] == y);
            }
            if b2.contains(y) {
                let k = choose|k: int| 0 <= k < b2.len() && b2[k] == y;
                assert(b[k] == y && y < lb);
                assert(b.contains(y));
                assert(b.to_set().contains(y));
                assert(a.to_set().contains(y));
                assert(a.contains(y));
                let j = choose|j: int| 0 <= j < a.len() && a[j] == y;
                if j == a.len() - 1 {
                    assert(false);
                }
                assert(a2[j] == y);
            }
        }
        assert(a2.to_set() =~= b2.to_set());
        lemma_sorted_sets_equal(a2, b2);
        assert(a =~= a2.push(la));
        assert(b =~= b2.push(lb));
    }
}

/// Snapping again to a zone the window already spans, with `span`, leaves
/// its zone set as it is; snapping without `span` always leaves exactly
/// the one zone.
pub proof fn lemma_zone_set_idempotent(current: Seq<u32>, z: u32, r: Seq<u32>)
    requires
        strictly_increasing(current),
        current.contains(z),
        strictly_increasing(r),
        r.to_set() == target_zones(current, z, true),
    ensures
        r == current,
{
    assert(current.to_set().insert(z) =~= current.to_set());
    lemma_sorted_sets_equal(r, current);
}

/// Without `span` the window ends up in exactly the zone it was snapped to.
pub proof fn lemma_zone_set_replace(current: Seq<u32>, z: u32, r: Seq<u32>)
    requires
        strictly_increasing(r),
        r.to_set() == target_zones(current, z, false),
    ensures
        r == seq![z],
{
    assert(seq![z].to_set() =~= Set::<u32>::empty().insert(z)) by {
        assert forall|y: u32| seq![z].to_set().contains(y) <==> y == z by {
            if y == z {
                assert(seq![z][0] == z);
            }
        }
    }
    lemma_sorted_sets_equal(r, seq![z]);
}

/// A zone index must name one of the layout's zones (1-based).
pub fn check_zone_index(zone_index: u32, zone_count: u32) -> (r: Result<(), Error>)
    ensures
        r is Ok <==> (1 <= zone_index <= zone_count),
        r matches Err(e) ==> (e matches Error::InvalidZoneIndex(i, n) && i == zone_index && n
            == zone_count),
{
    if zone_index == 0 || zone_index > zone_count {
        Err(Error::InvalidZoneIndex(zone_index, zone_count))
    } else {
        Ok(())
    }
}

/// Whether the window's pre-snap rect is still to be captured: only on its
/// first snap.
pub fn needs_pre_snap(state: &WindowState) -> (b: bool)
    ensures
        b == (state.zones@.len() == 0),
{
    state.zones.len() == 0
}

// ---------------------------------------------------------------------
// Target rectangle.
// ---------------------------------------------------------------------

/// Pixel target of a snap: the zone rect projected onto the work area
/// (`projected`, relative to the work area), shifted by the work area's
/// origin, then shrunk by `gap` on every side.
pub fn snap_rect(work_area: PixelRect, projected: PixelRect, gap: i32) -> (r: PixelRect)
    requires
        i32::MIN <= work_area.x + projected.x <= i32::MAX,
        i32::MIN <= work_area.y + projected.y <= i32::MAX,
        i32::MIN <= 2 * gap <= i32::MAX,
        i32::MIN <= work_area.x + projected.x + gap <= i32::MAX,
        i32::MIN <= work_area.y + projected.y + gap <= i32::MAX,
        i32::MIN <= projected.w - 2 * gap <= i32::MAX,
        i32::MIN <= projected.h - 2 * gap <= i32::MAX,
    ensures
        (r.x as int, r.y as int, r.w as int, r.h as int) == deflated(
            PixelRect {
                x: (work_area.x + projected.x) as i32,
                y: (work_area.y + projected.y) as i32,
                w: projected.w,
                h: projected.h,
            },
            gap as int,
        ),
{
    deflate(
        PixelRect {
            x: work_area.x + projected.x,
            y: work_area.y + projected.y,
            w: projected.w,
            h: projected.h,
        },
        gap,
    )
}

/// The rect cycled through: the zone rect projected onto the work area,
/// shifted by the work area's origin.
pub fn cycle_rect(work_area: PixelRect, projected: PixelRect) -> (r: PixelRect)
    requires
        i32::MIN <= work_area.x + projected.x <= i32::MAX,
        i32::MIN <= work_area.y + projected.y <= i32::MAX,
    ensures
        r.x == work_area.x + projected.x,
        r.y == work_area.y + projected.y,
        r.w == projected.w,
        r.h == projected.h,
{
    PixelRect {
        x: work_area.x + projected.x,
        y: work_area.y + projected.y,
        w: projected.w,
        h: projected.h,
    }
}

// ---------------------------------------------------------------------
// Iteration, cycling, restore, activator focus.
// ---------------------------------------------------------------------

/// The zone a window counts as being on for iteration: its only zone, or
/// 0 when it is unsnapped or spans several.
pub open spec fn iteration_start(zones: Seq<u32>) -> u32 {
    if zones.len() == 1 { zones[0] } else { 0 }
}

/// Next zone for indexed iteration from the window's current zones.
pub fn iterate_target(zones: &[u32], zone_count: u32, dir: IterateDir) -> (r: u32)
    requires
        zone_count > 0,
        dir == IterateDir::Prev && iteration_start(zones@) != 0 ==> iteration_start(zones@)
            + zone_count <= u32::MAX,
    ensures
        r == iterate_spec(iteration_start(zones@) as int, zone_count as int, dir),
        1 <= r <= zone_count,
{
    let current_index = if zones.len() == 1 { zones[0] } else { 0 };
    iterate_index(current_index, zone_count, dir)
}

/// Position of `id` in `ids`, 0 when absent.
pub open spec fn position_or_zero(ids: Seq<u64>, id: u64) -> int {
    if ids.contains(id) {
        choose|k: int| 0 <= k < ids.len() && ids[k] == id && forall|j: int| 0 <= j < k ==> ids[j] != id
    } else {
        0
    }
}

/// Window activated when cycling focus among `ids`: the one after the
/// focused window (`direction >= 0`) or before it, wrapping; none when
/// fewer than two windows share the zone.
pub open spec fn cycle_spec(ids: Seq<u64>, focused: u64, direction: i32) -> Option<u64> {
    if ids.len() < 2 {
        None
    } else {
        let pos = position_or_zero(ids, focused);
        let n = ids.len() as int;
        let next = if direction >= 0 { (pos + 1) % n } else { (pos + n - 1) % n };
        Some(ids[next])
    }
}

/// Pick the window to activate when cycling focus within a zone.
pub fn cycle_target(ids: &[u64], focused: u64, direction: i32) -> (r: Option<u64>)
    ensures
        r == cycle_spec(ids@, focused, direction),
{
    let n = ids.len();
    if n < 2 {
        return None;
    }
    let mut pos: usize = 0;
    let mut i: usize = 0;
    let mut found = false;
    while i < n && !found
        invariant
            n == ids@.len(),
            i <= n,
            !found ==> forall|j: int| 0 <= j < i ==> ids@[j] != focused,
            found ==> pos < n && ids@[pos as int] == focused && forall|j: int|
                0 <= j < pos ==> ids@[j] != focused,
            !found ==> pos == 0,
        decreases n - i + (if found { 0int } else { 1int }),
    {
        if ids[i] == focused {
            pos = i;
            found = true;
        } else {
            i = i + 1;
        }
    }
    proof {
        if found {
            assert(ids@.contains(focused));
            let k = position_or_zero(ids@, focused);
            if k < pos {
                assert(ids@[k] != focused);
            } else if k > pos {
                assert(ids@[pos as int] != focused);
            }
        } else {
            assert(!ids@.contains(focused));
        }
    }
    let next = if direction >= 0 {
        (pos + 1) % n
    } else if pos == 0 {
        n - 1
    } else {
        pos - 1
    };
    assert(direction < 0 ==> next == (pos + n - 1) % (n as int)) by (nonlinear_arith)
        requires
            pos < n,
            n >= 2,
            direction < 0 ==> next == (if pos == 0 { n - 1 } else { pos - 1 }),
    {
        if direction < 0 {
            if pos == 0 {
                assert((pos + n - 1) % (n as int) == n - 1);
            } else {
                assert((pos + n - 1) % (n as int) == pos - 1);
            }
        }
    }
    Some(ids[next])
}

/// Cycling forward then backward (or backward then forward) within the
/// same windows brings focus back, when the windows are distinct and the
/// focused one is among them.
pub proof fn lemma_cycle_back_and_forth(ids: Seq<u64>, focused: u64, d1: i32, d2: i32)
    requires
        ids.len() >= 2,
        ids.contains(focused),
        forall|i: int, j: int| 0 <= i < j < ids.len() ==> ids[i] != ids[j],
        (d1 >= 0) != (d2 >= 0),
    ensures
        cycle_spec(ids, cycle_spec(ids, focused, d1).unwrap(), d2) == Some(focused),
{
    let n = ids.len() as int;
    let pos = position_or_zero(ids, focused);
    let next = if d1 >= 0 { (pos + 1) % n } else { (pos + n - 1) % n };
    assert(0 <= pos < n);
    assert(0 <= next < n) by (nonlinear_arith)
        requires next == (if d1 >= 0 { (pos + 1) % n } else { (pos + n - 1) % n }), n >= 2;
    let w = ids[next];
    assert(ids.contains(w));
    let p2 = position_or_zero(ids, w);
    assert(p2 == next) by {
        if p2 != next {
            assert(ids[p2] == w);
        }
    }
    let back = if d2 >= 0 { (p2 + 1) % n } else { (p2 + n - 1) % n };
    assert(back == pos) by (nonlinear_arith)
        requires
            0 <= pos < n,
            n >= 2,
            p2 == (if d1 >= 0 { (pos + 1) % n } else { (pos + n - 1) % n }),
            back == (if d2 >= 0 { (p2 + 1) % n } else { (p2 + n - 1) % n }),
            (d1 >= 0) != (d2 >= 0),
    {
        if d1 >= 0 {
            if pos + 1 < n {
                assert((pos + 1) % n == pos + 1);
                assert((pos + 1 + n - 1) % n == pos);
            } else {
                assert((pos + 1) % n == 0);
                assert((0 + n - 1) % n == n - 1);
            }
        } else {
            if pos >= 1 {
                assert((pos + n - 1) % n == pos - 1);
                assert((pos - 1 + 1) % n == pos);
            } else {
                assert((pos + n - 1) % n == n - 1);
                assert((n - 1 + 1) % n == 0);
            }
        }
    }
}

/// What restoring the focused window does.
#[derive(Debug, PartialEq, Eq)]
pub enum RestoreAction {
    /// Move the window back to its pre-snap rect and forget its state.
    MoveTo(PixelRect),
    /// Let the compositor unmaximize it.
    Unmaximize,
}

/// Restore the focused window to its pre-snap rect when it is snapped and
/// one was captured; otherwise fall back to the compositor's unmaximize.
pub fn plan_restore(state: &WindowState) -> (a: RestoreAction)
    ensures
        a == (if state.zones@.len() > 0 && state.pre_snap is Some {
            RestoreAction::MoveTo(state.pre_snap.unwrap())
        } else {
            RestoreAction::Unmaximize
        }),
{
    if state.zones.len() > 0 {
        if let Some(pre) = state.pre_snap {
            return RestoreAction::MoveTo(pre);
        }
    }
    RestoreAction::Unmaximize
}

/// How long, in milliseconds, a window stashed by the activator overlay
/// stays the snap target.
pub const ACTIVATOR_FOCUS_TTL_MS: u64 = 3500;

/// The pre-overlay focused window, if one was stashed no more than
/// `ACTIVATOR_FOCUS_TTL_MS` milliseconds ago (`stash` holds the window and
/// the milliseconds elapsed since it was stashed).
pub fn activator_target(stash: Option<(u64, u64)>) -> (r: Option<u64>)
    ensures
        r == match stash {
            Some((id, elapsed)) => if elapsed <= 3500 { Some(id) } else { None },
            None => None,
        },
{
    match stash {
        Some((id, elapsed)) => if elapsed <= ACTIVATOR_FOCUS_TTL_MS {
            Some(id)
        } else {
            None
        },
        None => None,
    }
}

} // verus!
