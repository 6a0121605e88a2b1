//! The order of the snap engine's work, as state machines: each step takes
//! the stage reached and the outcome of the work last asked for, updates
//! the per-window snap state, and says which work comes next.
use vstd::prelude::*;
use crate::geometry::{deflated, iterate_spec, IterateDir, PixelRect};
use crate::snap::{
    activator_target, copy_zones, cycle_rect, cycle_spec, cycle_target, iterate_target,
    iteration_start, plan_restore, plan_zone_set, snap_rect, state_in, strictly_increasing,
    target_zones, with_pre_snap, with_zones, RestoreAction, WindowStateMap,
};
use crate::zones::Error;

verus! {

// ---------------------------------------------------------------------
// Snapping the focused window to a zone.
// ---------------------------------------------------------------------

/// How far a snap has got.
pub enum SnapStage {
    /// No snap under way.
    Idle,
    /// Waiting for the `paused` setting.
    Pausing { zone_index: u32, span: bool },
    /// Waiting for the window stashed by the activator overlay.
    Stash { zone_index: u32, span: bool },
    /// Waiting for the focused window.
    Focus { zone_index: u32, span: bool },
    /// Waiting for the zone count of the active layout.
    Layout { window: u64, zone_index: u32, span: bool },
    /// Waiting for the geometry of the zones the window will span.
    Target { window: u64, zones: Vec<u32>, first: bool },
    /// Waiting for the window's current frame (its first snap only).
    Frame { window: u64, zones: Vec<u32>, target: PixelRect },
    /// Waiting for the move to be done.
    Moving { window: u64, zones: Vec<u32> },
}

/// The outcome of the work a snap step asked for.
pub enum SnapEvent {
    /// A snap to `zone_index` is requested.
    Start { zone_index: u32, span: bool },
    /// The `paused` setting.
    Paused(bool),
    /// The activator stash: the window and the milliseconds since it was
    /// stashed.
    Stash(Option<(u64, u64)>),
    /// The focused window.
    Window(u64),
    /// The number of zones of the active layout.
    ZoneCount(u32),
    /// The work area, the zones' union projected onto it, and the gap.
    Geometry { work_area: PixelRect, projected: PixelRect, gap: i32 },
    /// The window's frame, if it could be read.
    Frame(Option<PixelRect>),
    /// The window was moved.
    Moved,
}

/// The work a snap step asks for next.
pub enum SnapAction {
    /// Read the `paused` setting.
    ReadPaused,
    /// Take the activator stash (it is single use).
    TakeStash,
    /// Ask for the focused window.
    FindFocusedWindow,
    /// Resolve the active layout of the target monitor.
    ResolveLayout,
    /// Project the union of these zones onto the work area.
    ComputeGeometry(Vec<u32>),
    /// Read the window's frame.
    ReadFrame(u64),
    /// Move and resize the window.
    Move(u64, PixelRect),
    /// The snap is over, with this result.
    Finish(Result<(), Error>),
}

/// Whether `event` is the outcome a snap at `stage` waits for.
pub open spec fn snap_accepts(stage: SnapStage, event: SnapEvent) -> bool {
    match stage {
        SnapStage::Idle => event is Start,
        SnapStage::Pausing { .. } => event is Paused,
        SnapStage::Stash { .. } => event is Stash,
        SnapStage::Focus { .. } => event is Window,
        SnapStage::Layout { .. } => event is ZoneCount,
        SnapStage::Target { .. } => event is Geometry,
        SnapStage::Frame { .. } => event is Frame,
        SnapStage::Moving { .. } => event is Moved,
    }
}

/// The shifted and deflated target stays in the `i32` range.
pub open spec fn geometry_fits(work_area: PixelRect, projected: PixelRect, gap: i32) -> bool {
    &&& i32::MIN <= work_area.x + projected.x <= i32::MAX
    &&& i32::MIN <= work_area.y + projected.y <= i32::MAX
    &&& i32::MIN <= 2 * gap <= i32::MAX
    &&& i32::MIN <= work_area.x + projected.x + gap <= i32::MAX
    &&& i32::MIN <= work_area.y + projected.y + gap <= i32::MAX
    &&& i32::MIN <= projected.w - 2 * gap <= i32::MAX
    &&& i32::MIN <= projected.h - 2 * gap <= i32::MAX
}

/// The snap target: `projected` shifted by the work area's origin and
/// shrunk by `gap` on every side.
pub open spec fn snap_target(work_area: PixelRect, projected: PixelRect, gap: i32) -> (int, int, int, int) {
    deflated(
        PixelRect {
            x: (work_area.x + projected.x) as i32,
            y: (work_area.y + projected.y) as i32,
            w: projected.w,
            h: projected.h,
        },
        gap as int,
    )
}

/// The window stashed by the activator, if it is still fresh.
pub open spec fn stashed_window(stash: Option<(u64, u64)>) -> Option<u64> {
    match stash {
        Some((id, elapsed)) => if elapsed <= 3500 { Some(id) } else { None },
        None => None,
    }
}

/// One step of a snap. A paused daemon finishes at once; an index outside
/// the layout finishes with `InvalidZoneIndex`; the zone set is planned
/// from the window's current state; on the window's first snap its frame
/// is read and kept as the pre-snap rect before the move; the zone set is
/// recorded only once the move is done. Only those two steps change the
/// snap state. `None` when `event` is not the outcome `stage` waits for.
pub fn snap_step(map: &mut WindowStateMap, stage: SnapStage, event: SnapEvent) -> (r: Option<
    (SnapStage, SnapAction),
>)
    requires
        event matches SnapEvent::Geometry { work_area, projected, gap } ==> geometry_fits(
            work_area,
            projected,
            gap,
        ),
    ensures
        r is None <==> !snap_accepts(stage, event),
        r is None ==> final(map)@ == old(map)@,
        match (stage, event) {
            (SnapStage::Idle, SnapEvent::Start { zone_index, span }) => {
                &&& r matches Some((SnapStage::Pausing { zone_index: z, span: s }, SnapAction::ReadPaused))
                    && z == zone_index && s == span
                &&& final(map)@ == old(map)@
            },
            (SnapStage::Pausing { zone_index, span }, SnapEvent::Paused(paused)) => {
                &&& paused ==> (r matches Some((SnapStage::Idle, SnapAction::Finish(res))) && res is Ok)
                &&& !paused ==> (r matches Some((SnapStage::Stash { zone_index: z, span: s }, SnapAction::TakeStash))
                    && z == zone_index && s == span)
                &&& final(map)@ == old(map)@
            },
            (SnapStage::Stash { zone_index, span }, SnapEvent::Stash(stash)) => {
                &&& match stashed_window(stash) {
                    Some(w) => r matches Some((SnapStage::Layout { window, zone_index: z, span: s }, SnapAction::ResolveLayout))
                        && window == w && z == zone_index && s == span,
                    None => r matches Some((SnapStage::Focus { zone_index: z, span: s }, SnapAction::FindFocusedWindow))
                        && z == zone_index && s == span,
                }
                &&& final(map)@ == old(map)@
            },
            (SnapStage::Focus { zone_index, span }, SnapEvent::Window(w)) => {
                &&& r matches Some((SnapStage::Layout { window, zone_index: z, span: s }, SnapAction::ResolveLayout))
                    && window == w && z == zone_index && s == span
                &&& final(map)@ == old(map)@
            },
            (SnapStage::Layout { window, zone_index, span }, SnapEvent::ZoneCount(n)) => {
                &&& !(1 <= zone_index <= n) ==> (r matches Some((SnapStage::Idle, SnapAction::Finish(res)))
                    && res matches Err(e) && e matches Error::InvalidZoneIndex(i, c) && i == zone_index
                    && c == n)
                &&& (1 <= zone_index <= n) ==> (r matches Some((SnapStage::Target { window: w, zones, first }, SnapAction::ComputeGeometry(asked)))
                    && w == window
                    && strictly_increasing(zones@)
                    && zones@.to_set() == target_zones(state_in(old(map)@, window).1, zone_index, span)
                    && asked@ == zones@
                    && first == (state_in(old(map)@, window).1.len() == 0))
                &&& final(map)@ == old(map)@
            },
            (SnapStage::Target { window, zones, first }, SnapEvent::Geometry { work_area, projected, gap }) => {
                &&& first ==> (r matches Some((SnapStage::Frame { window: w, zones: zs, target }, SnapAction::ReadFrame(read)))
                    && w == window && zs@ == zones@ && read == window
                    && (target.x as int, target.y as int, target.w as int, target.h as int)
                        == snap_target(work_area, projected, gap))
                &&& !first ==> (r matches Some((SnapStage::Moving { window: w, zones: zs }, SnapAction::Move(moved, target)))
                    && w == window && zs@ == zones@ && moved == window
                    && (target.x as int, target.y as int, target.w as int, target.h as int)
                        == snap_target(work_area, projected, gap))
                &&& final(map)@ == old(map)@
            },
            (SnapStage::Frame { window, zones, target }, SnapEvent::Frame(frame)) => {
                &&& r matches Some((SnapStage::Moving { window: w, zones: zs }, SnapAction::Move(moved, t)))
                    && w == window && zs@ == zones@ && moved == window && t == target
                &&& final(map)@ == match frame {
                    Some(rect) => with_pre_snap(old(map)@, window, rect),
                    None => old(map)@,
                }
            },
            (SnapStage::Moving { window, zones }, SnapEvent::Moved) => {
                &&& r matches Some((SnapStage::Idle, SnapAction::Finish(res))) && res is Ok
                &&& final(map)@ == with_zones(old(map)@, window, zones@)
            },
            _ => true,
        },
{
    match (stage, event) {
        (SnapStage::Idle, SnapEvent::Start { zone_index, span }) => {
            Some((SnapStage::Pausing { zone_index, span }, SnapAction::ReadPaused))
        },
        (SnapStage::Pausing { zone_index, span }, SnapEvent::Paused(paused)) => {
            if paused {
                Some((SnapStage::Idle, SnapAction::Finish(Ok(()))))
            } else {
                Some((SnapStage::Stash { zone_index, span }, SnapAction::TakeStash))
            }
        },
        (SnapStage::Stash { zone_index, span }, SnapEvent::Stash(stash)) => {
            match activator_target(stash) {
                Some(window) => Some(
                    (SnapStage::Layout { window, zone_index, span }, SnapAction::ResolveLayout),
                ),
                None => Some((SnapStage::Focus { zone_index, span }, SnapAction::FindFocusedWindow)),
            }
        },
        (SnapStage::Focus { zone_index, span }, SnapEvent::Window(window)) => {
            Some((SnapStage::Layout { window, zone_index, span }, SnapAction::ResolveLayout))
        },
        (SnapStage::Layout { window, zone_index, span }, SnapEvent::ZoneCount(n)) => {
            if zone_index == 0 || zone_index > n {
                Some((SnapStage::Idle, SnapAction::Finish(Err(Error::InvalidZoneIndex(zone_index, n)))))
            } else {
                let state = map.get(window);
                let first = state.zones.len() == 0;
                let zones = plan_zone_set(state.zones.as_slice(), zone_index, span);
                let asked = copy_zones(zones.as_slice());
                Some((SnapStage::Target { window, zones, first }, SnapAction::ComputeGeometry(asked)))
            }
        },
        (SnapStage::Target { window, zones, first }, SnapEvent::Geometry { work_area, projected, gap }) => {
            let target = snap_rect(work_area, projected, gap);
            if first {
                Some((SnapStage::Frame { window, zones, target }, SnapAction::ReadFrame(window)))
            } else {
                Some((SnapStage::Moving { window, zones }, SnapAction::Move(window, target)))
            }
        },
        (SnapStage::Frame { window, zones, target }, SnapEvent::Frame(frame)) => {
            match frame {
                Some(rect) => map.ensure_pre_snap(window, rect),
                None => {},
            }
            Some((SnapStage::Moving { window, zones }, SnapAction::Move(window, target)))
        },
        (SnapStage::Moving { window, zones }, SnapEvent::Moved) => {
            map.set_zones(window, zones);
            Some((SnapStage::Idle, SnapAction::Finish(Ok(()))))
        },
        _ => None,
    }
}

/// The state a whole snap of window `w` leaves, from the state `m` it found
/// at its layout step: on a first snap the frame read (if any) becomes the
/// pre-snap rect, then the planned zones are recorded.
pub open spec fn after_snap(
    m: Map<u64, (Option<PixelRect>, Seq<u32>)>,
    w: u64,
    zones: Seq<u32>,
    frame: Option<PixelRect>,
) -> Map<u64, (Option<PixelRect>, Seq<u32>)> {
    let first = state_in(m, w).1.len() == 0;
    let m1 = if first {
        match frame {
            Some(rect) => with_pre_snap(m, w, rect),
            None => m,
        }
    } else {
        m
    };
    with_zones(m1, w, zones)
}

/// After a snap the window spans exactly the planned zones; its pre-snap
/// rect is the one it had, or, on its first snap, the frame read then, and
/// a later snap or span never overwrites it; other windows are untouched.
pub proof fn lemma_snap_effects(
    m: Map<u64, (Option<PixelRect>, Seq<u32>)>,
    w: u64,
    other: u64,
    zones: Seq<u32>,
    frame: Option<PixelRect>,
)
    ensures
        state_in(after_snap(m, w, zones, frame), w).1 == zones,
        state_in(after_snap(m, w, zones, frame), w).0 == (if state_in(m, w).0 is Some {
            state_in(m, w).0
        } else if state_in(m, w).1.len() == 0 {
            frame
        } else {
            None
        }),
        other != w ==> state_in(after_snap(m, w, zones, frame), other) == state_in(m, other),
{
}

// ---------------------------------------------------------------------
// Iterating the focused window through the zones.
// ---------------------------------------------------------------------

/// How far an iteration has got.
pub enum IterateStage {
    /// No iteration under way.
    Idle,
    /// Waiting for the `paused` setting.
    Pausing(IterateDir),
    /// Waiting for the focused window.
    Focus(IterateDir),
    /// Waiting for the zone count of the active layout.
    Layout(u64, IterateDir),
}

/// The outcome of the work an iteration step asked for.
pub enum IterateEvent {
    /// An iteration in this direction is requested.
    Start(IterateDir),
    /// The `paused` setting.
    Paused(bool),
    /// The focused window.
    Window(u64),
    /// The number of zones of the active layout.
    ZoneCount(u32),
}

/// The work an iteration step asks for next.
#[derive(Debug, PartialEq, Eq, Structural)]
pub enum IterateAction {
    /// Read the `paused` setting.
    ReadPaused,
    /// Ask for the focused window.
    FindFocusedWindow,
    /// Resolve the active layout of the target monitor.
    ResolveLayout,
    /// Snap the focused window to this zone, replacing its zone set; the
    /// result of that snap is the iteration's result.
    Snap(u32),
    /// The iteration is over and did nothing.
    Finish,
}

/// Whether `event` is the outcome an iteration at `stage` waits for.
pub open spec fn iterate_accepts(stage: IterateStage, event: IterateEvent) -> bool {
    match stage {
        IterateStage::Idle => event is Start,
        IterateStage::Pausing(_) => event is Paused,
        IterateStage::Focus(_) => event is Window,
        IterateStage::Layout(_, _) => event is ZoneCount,
    }
}

/// One step of an iteration. A paused daemon finishes at once; a layout
/// without zones finishes with nothing done; otherwise the iteration is a
/// snap, without span, to the zone `iterate_index` gives from the zone
/// the window counts as being on (its only zone, 0 when unsnapped or
/// spanning several). Nothing here changes the snap state. `None` when
/// `event` is not the outcome `stage` waits for.
pub fn iterate_step(map: &WindowStateMap, stage: IterateStage, event: IterateEvent) -> (r: Option<
    (IterateStage, IterateAction),
>)
    requires
        stage matches IterateStage::Layout(window, dir) ==> (event matches IterateEvent::ZoneCount(n)
            ==> (dir == IterateDir::Prev && n > 0 && iteration_start(state_in(map@, window).1) != 0
            ==> iteration_start(state_in(map@, window).1) + n <= u32::MAX)),
    ensures
        r is None <==> !iterate_accepts(stage, event),
        match (stage, event) {
            (IterateStage::Idle, IterateEvent::Start(dir)) => r == Some(
                (IterateStage::Pausing(dir), IterateAction::ReadPaused),
            ),
            (IterateStage::Pausing(dir), IterateEvent::Paused(paused)) => r == Some(
                if paused {
                    (IterateStage::Idle, IterateAction::Finish)
                } else {
                    (IterateStage::Focus(dir), IterateAction::FindFocusedWindow)
                },
            ),
            (IterateStage::Focus(dir), IterateEvent::Window(w)) => r == Some(
                (IterateStage::Layout(w, dir), IterateAction::ResolveLayout),
            ),
            (IterateStage::Layout(window, dir), IterateEvent::ZoneCount(n)) => r == Some(
                if n == 0 {
                    (IterateStage::Idle, IterateAction::Finish)
                } else {
                    (
                        IterateStage::Idle,
                        IterateAction::Snap(
                            iterate_spec(
                                iteration_start(state_in(map@, window).1) as int,
                                n as int,
                                dir,
                            ) as u32,
                        ),
                    )
                },
            ),
            _ => true,
        },
{
    match (stage, event) {
        (IterateStage::Idle, IterateEvent::Start(dir)) => Some(
            (IterateStage::Pausing(dir), IterateAction::ReadPaused),
        ),
        (IterateStage::Pausing(dir), IterateEvent::Paused(paused)) => {
            if paused {
                Some((IterateStage::Idle, IterateAction::Finish))
            } else {
                Some((IterateStage::Focus(dir), IterateAction::FindFocusedWindow))
            }
        },
        (IterateStage::Focus(dir), IterateEvent::Window(window)) => Some(
            (IterateStage::Layout(window, dir), IterateAction::ResolveLayout),
        ),
        (IterateStage::Layout(window, dir), IterateEvent::ZoneCount(n)) => {
            if n == 0 {
                Some((IterateStage::Idle, IterateAction::Finish))
            } else {
                let state = map.get(window);
                let target = iterate_target(state.zones.as_slice(), n, dir);
                Some((IterateStage::Idle, IterateAction::Snap(target)))
            }
        },
        _ => None,
    }
}

// ---------------------------------------------------------------------
// Cycling focus among the windows of the focused window's zones.
// ---------------------------------------------------------------------

/// How far a focus cycle has got.
pub enum CycleStage {
    /// No cycle under way.
    Idle,
    /// Waiting for the `paused` setting.
    Pausing(i32),
    /// Waiting for the focused window.
    Focus(i32),
    /// Waiting for the zone numbers of the active layout.
    Layout { window: u64, direction: i32, zones: Vec<u32> },
    /// Waiting for the geometry of the window's zones.
    Target { window: u64, direction: i32 },
    /// Waiting for the windows centred in that area.
    Windows { window: u64, direction: i32 },
}

/// The outcome of the work a cycle step asked for.
pub enum CycleEvent {
    /// A cycle in this direction (`>= 0` forward) is requested.
    Start(i32),
    /// The `paused` setting.
    Paused(bool),
    /// The focused window.
    Window(u64),
    /// The zone numbers of the active layout.
    LayoutZones(Vec<u32>),
    /// The work area and the zones' union projected onto it.
    Geometry { work_area: PixelRect, projected: PixelRect },
    /// The windows centred in the cycling area, in the compositor's order.
    Windows(Vec<u64>),
}

/// The work a cycle step asks for next.
pub enum CycleAction {
    /// Read the `paused` setting.
    ReadPaused,
    /// Ask for the focused window.
    FindFocusedWindow,
    /// Resolve the active layout of the target monitor.
    ResolveLayout,
    /// Project the union of these zones onto the work area.
    ComputeGeometry(Vec<u32>),
    /// List the windows centred in this area.
    ListWindows(PixelRect),
    /// Activate this window; the cycle is then over.
    Activate(u64),
    /// The cycle is over and did nothing.
    Finish,
}

/// Whether `event` is the outcome a cycle at `stage` waits for.
pub open spec fn cycle_accepts(stage: CycleStage, event: CycleEvent) -> bool {
    match stage {
        CycleStage::Idle => event is Start,
        CycleStage::Pausing(_) => event is Paused,
        CycleStage::Focus(_) => event is Window,
        CycleStage::Layout { .. } => event is LayoutZones,
        CycleStage::Target { .. } => event is Geometry,
        CycleStage::Windows { .. } => event is Windows,
    }
}

/// The zones of `zones` that the layout numbered `layout` has, in order.
pub open spec fn zones_in(zones: Seq<u32>, layout: Seq<u32>) -> Seq<u32>
    decreases zones.len(),
{
    if zones.len() == 0 {
        seq![]
    } else {
        let p = zones_in(zones.drop_last(), layout);
        if layout.contains(zones.last()) {
            p.push(zones.last())
        } else {
            p
        }
    }
}

fn has_zone(layout: &[u32], z: u32) -> (b: bool)
    ensures
        b == layout@.contains(z),
{
    let mut i: usize = 0;
    while i < layout.len()
        invariant
            i <= layout@.len(),
            forall|k: int| 0 <= k < i ==> layout@[k] != z,
        decreases layout.len() - i,
    {
        if layout[i] == z {
            assert(layout@[i as int] == z);
            return true;
        }
        i = i + 1;
    }
    false
}

fn zones_in_layout(zones: &[u32], layout: &[u32]) -> (r: Vec<u32>)
    ensures
        r@ == zones_in(zones@, layout@),
{
    let mut out: Vec<u32> = Vec::new();
    let mut i: usize = 0;
    while i < zones.len()
        invariant
            i <= zones@.len(),
            out@ == zones_in(zones@.take(i as int), layout@),
        decreases zones.len() - i,
    {
        let z = zones[i];
        assert(zones@.take(i + 1).drop_last() =~= zones@.take(i as int));
        assert(zones@.take(i + 1).last() == z);
        if has_zone(layout, z) {
            out.push(z);
        }
        i = i + 1;
    }
    assert(zones@.take(zones@.len() as int) =~= zones@);
    out
}

/// One step of a focus cycle. A paused daemon finishes at once; so does a
/// window that is not snapped, and one none of whose zones is in the
/// active layout; otherwise the windows centred in the union of those
/// zones are listed, and the one after (or before) the focused window is
/// activated, when there are at least two. Nothing here changes the snap
/// state. `None` when `event` is not the outcome `stage` waits for.
pub fn cycle_step(map: &WindowStateMap, stage: CycleStage, event: CycleEvent) -> (r: Option<
    (CycleStage, CycleAction),
>)
    requires
        event matches CycleEvent::Geometry { work_area, projected } ==> (i32::MIN <= work_area.x
            + projected.x <= i32::MAX && i32::MIN <= work_area.y + projected.y <= i32::MAX),
    ensures
        r is None <==> !cycle_accepts(stage, event),
        match (stage, event) {
            (CycleStage::Idle, CycleEvent::Start(d)) => r matches Some(
                (CycleStage::Pausing(d2), CycleAction::ReadPaused),
            ) && d2 == d,
            (CycleStage::Pausing(d), CycleEvent::Paused(paused)) => {
                &&& paused ==> (r matches Some((CycleStage::Idle, CycleAction::Finish)))
                &&& !paused ==> (r matches Some((CycleStage::Focus(d2), CycleAction::FindFocusedWindow))
                    && d2 == d)
            },
            (CycleStage::Focus(d), CycleEvent::Window(w)) => {
                &&& state_in(map@, w).1.len() == 0 ==> (r matches Some((CycleStage::Idle, CycleAction::Finish)))
                &&& state_in(map@, w).1.len() > 0 ==> (r matches Some((CycleStage::Layout { window, direction, zones }, CycleAction::ResolveLayout))
                    && window == w && direction == d && zones@ == state_in(map@, w).1)
            },
            (CycleStage::Layout { window, direction, zones }, CycleEvent::LayoutZones(layout)) => {
                &&& zones_in(zones@, layout@).len() == 0 ==> (r matches Some((CycleStage::Idle, CycleAction::Finish)))
                &&& zones_in(zones@, layout@).len() > 0 ==> (r matches Some((CycleStage::Target { window: w, direction: d }, CycleAction::ComputeGeometry(asked)))
                    && w == window && d == direction && asked@ == zones_in(zones@, layout@))
            },
            (CycleStage::Target { window, direction }, CycleEvent::Geometry { work_area, projected }) => {
                r matches Some((CycleStage::Windows { window: w, direction: d }, CycleAction::ListWindows(area)))
                    && w == window && d == direction
                    && area.x == work_area.x + projected.x && area.y == work_area.y + projected.y
                    && area.w == projected.w && area.h == projected.h
            },
            (CycleStage::Windows { window, direction }, CycleEvent::Windows(ids)) => match cycle_spec(ids@, window, direction) {
                Some(next) => r matches Some((CycleStage::Idle, CycleAction::Activate(a))) && a == next,
                None => r matches Some((CycleStage::Idle, CycleAction::Finish)),
            },
            _ => true,
        },
{
    match (stage, event) {
        (CycleStage::Idle, CycleEvent::Start(d)) => Some((CycleStage::Pausing(d), CycleAction::ReadPaused)),
        (CycleStage::Pausing(d), CycleEvent::Paused(paused)) => {
            if paused {
                Some((CycleStage::Idle, CycleAction::Finish))
            } else {
                Some((CycleStage::Focus(d), CycleAction::FindFocusedWindow))
            }
        },
        (CycleStage::Focus(direction), CycleEvent::Window(window)) => {
            let state = map.get(window);
            if state.zones.len() == 0 {
                Some((CycleStage::Idle, CycleAction::Finish))
            } else {
                Some((CycleStage::Layout { window, direction, zones: state.zones }, CycleAction::ResolveLayout))
            }
        },
        (CycleStage::Layout { window, direction, zones }, CycleEvent::LayoutZones(layout)) => {
            let present = zones_in_layout(zones.as_slice(), layout.as_slice());
            if present.len() == 0 {
                Some((CycleStage::Idle, CycleAction::Finish))
            } else {
                Some((CycleStage::Target { window, direction }, CycleAction::ComputeGeometry(present)))
            }
        },
        (CycleStage::Target { window, direction }, CycleEvent::Geometry { work_area, projected }) => {
            let area = cycle_rect(work_area, projected);
            Some((CycleStage::Windows { window, direction }, CycleAction::ListWindows(area)))
        },
        (CycleStage::Windows { window, direction }, CycleEvent::Windows(ids)) => {
            match cycle_target(ids.as_slice(), window, direction) {
                Some(next) => Some((CycleStage::Idle, CycleAction::Activate(next))),
                None => Some((CycleStage::Idle, CycleAction::Finish)),
            }
        },
        _ => None,
    }
}

// ---------------------------------------------------------------------
// Restoring the focused window.
// ---------------------------------------------------------------------

/// How far a restore has got.
pub enum RestoreStage {
    /// No restore under way.
    Idle,
    /// Waiting for the `paused` setting.
    Pausing,
    /// Waiting for the focused window.
    Focus,
    /// Waiting for the window to be moved back.
    Moving(u64),
}

/// The outcome of the work a restore step asked for.
pub enum RestoreEvent {
    /// A restore is requested.
    Start,
    /// The `paused` setting.
    Paused(bool),
    /// The focused window.
    Window(u64),
    /// The window was moved back.
    Moved,
}

/// The work a restore step asks for next.
pub enum RestoreWork {
    /// Read the `paused` setting.
    ReadPaused,
    /// Ask for the focused window.
    FindFocusedWindow,
    /// Move and resize the window to its pre-snap rect.
    Move(u64, PixelRect),
    /// Let the compositor unmaximize the window; the restore is then over.
    Unmaximize(u64),
    /// The restore is over.
    Finish,
}

/// Whether `event` is the outcome a restore at `stage` waits for.
pub open spec fn restore_accepts(stage: RestoreStage, event: RestoreEvent) -> bool {
    match stage {
        RestoreStage::Idle => event is Start,
        RestoreStage::Pausing => event is Paused,
        RestoreStage::Focus => event is Window,
        RestoreStage::Moving(_) => event is Moved,
    }
}

/// One step of a restore. A paused daemon finishes at once. A snapped
/// window with a pre-snap rect is moved back to it, and once the move is
/// done its snap state is forgotten; any other window is left to the
/// compositor's unmaximize with its state unchanged. `None` when `event`
/// is not the outcome `stage` waits for.
pub fn restore_step(map: &mut WindowStateMap, stage: RestoreStage, event: RestoreEvent) -> (r: Option<
    (RestoreStage, RestoreWork),
>)
    ensures
        r is None <==> !restore_accepts(stage, event),
        match (stage, event) {
            (RestoreStage::Idle, RestoreEvent::Start) => {
                &&& r matches Some((RestoreStage::Pausing, RestoreWork::ReadPaused))
                &&& final(map)@ == old(map)@
            },
            (RestoreStage::Pausing, RestoreEvent::Paused(paused)) => {
                &&& paused ==> (r matches Some((RestoreStage::Idle, RestoreWork::Finish)))
                &&& !paused ==> (r matches Some((RestoreStage::Focus, RestoreWork::FindFocusedWindow)))
                &&& final(map)@ == old(map)@
            },
            (RestoreStage::Focus, RestoreEvent::Window(w)) => {
                &&& (state_in(old(map)@, w).1.len() > 0 && state_in(old(map)@, w).0 is Some) ==> (r matches Some((RestoreStage::Moving(m), RestoreWork::Move(moved, rect)))
                    && m == w && moved == w && Some(rect) == state_in(old(map)@, w).0)
                &&& !(state_in(old(map)@, w).1.len() > 0 && state_in(old(map)@, w).0 is Some) ==> (r matches Some((RestoreStage::Idle, RestoreWork::Unmaximize(u))) && u == w)
                &&& final(map)@ == old(map)@
            },
            (RestoreStage::Moving(w), RestoreEvent::Moved) => {
                &&& r matches Some((RestoreStage::Idle, RestoreWork::Finish))
                &&& final(map)@ == old(map)@.remove(w)
            },
            _ => final(map)@ == old(map)@,
        },
{
    match (stage, event) {
        (RestoreStage::Idle, RestoreEvent::Start) => Some((RestoreStage::Pausing, RestoreWork::ReadPaused)),
        (RestoreStage::Pausing, RestoreEvent::Paused(paused)) => {
            if paused {
                Some((RestoreStage::Idle, RestoreWork::Finish))
            } else {
                Some((RestoreStage::Focus, RestoreWork::FindFocusedWindow))
            }
        },
        (RestoreStage::Focus, RestoreEvent::Window(window)) => {
            let state = map.get(window);
            match plan_restore(&state) {
                RestoreAction::MoveTo(rect) => Some((RestoreStage::Moving(window), RestoreWork::Move(window, rect))),
                RestoreAction::Unmaximize => Some((RestoreStage::Idle, RestoreWork::Unmaximize(window))),
            }
        },
        (RestoreStage::Moving(window), RestoreEvent::Moved) => {
            map.forget(window);
            Some((RestoreStage::Idle, RestoreWork::Finish))
        },
        _ => None,
    }
}

} // verus!
