use gnome_power_toys::engine::{
    cycle_step, iterate_step, restore_step, snap_step, CycleAction, CycleEvent, CycleStage, IterateAction,
    IterateEvent, IterateStage, RestoreEvent, RestoreStage, RestoreWork, SnapAction, SnapEvent, SnapStage,
};
use gnome_power_toys::geometry::{IterateDir, PixelRect};
use gnome_power_toys::snap::WindowStateMap;
use gnome_power_toys::zones::Error;

const WORK_AREA: PixelRect = PixelRect { x: 0, y: 0, w: 1920, h: 1080 };
const FRAME: PixelRect = PixelRect { x: 200, y: 150, w: 800, h: 600 };

/// Runs a snap on a two-zone 50/50 layout with window 42 focused and no
/// activator stash; returns the moves and the result.
fn run_snap(m: &mut WindowStateMap, zone_index: u32, span: bool, paused: bool) -> (Vec<PixelRect>, Result<(), Error>) {
    let mut stage = SnapStage::Idle;
    let mut event = SnapEvent::Start { zone_index, span };
    let mut moves = Vec::new();
    loop {
        let (next, action) = snap_step(m, stage, event).expect("in order");
        stage = next;
        event = match action {
            SnapAction::ReadPaused => SnapEvent::Paused(paused),
            SnapAction::TakeStash => SnapEvent::Stash(None),
            SnapAction::FindFocusedWindow => SnapEvent::Window(42),
            SnapAction::ResolveLayout => SnapEvent::ZoneCount(2),
            SnapAction::ComputeGeometry(zones) => {
                let x = if zones.contains(&1) { 0 } else { 960 };
                let w = 960 * zones.len() as i32;
                SnapEvent::Geometry { work_area: WORK_AREA, projected: PixelRect { x, y: 0, w, h: 1080 }, gap: 0 }
            }
            SnapAction::ReadFrame(id) => {
                assert_eq!(id, 42);
                SnapEvent::Frame(Some(FRAME))
            }
            SnapAction::Move(id, rect) => {
                assert_eq!(id, 42);
                moves.push(rect);
                SnapEvent::Moved
            }
            SnapAction::Finish(r) => return (moves, r),
        };
    }
}

#[test]
fn snap_step_moves_window_to_zone_one() {
    let mut m = WindowStateMap::new();
    let (moves, r) = run_snap(&mut m, 1, false, false);
    assert!(r.is_ok());
    assert_eq!(moves, vec![PixelRect { x: 0, y: 0, w: 960, h: 1080 }]);
    let s = m.get(42);
    assert_eq!(s.zones, vec![1]);
    assert_eq!(s.pre_snap, Some(FRAME));
}

#[test]
fn snap_step_paused_does_nothing() {
    let mut m = WindowStateMap::new();
    let (moves, r) = run_snap(&mut m, 1, false, true);
    assert!(r.is_ok());
    assert!(moves.is_empty());
    assert!(m.get(42).zones.is_empty());
}

#[test]
fn snap_step_rejects_invalid_index() {
    let mut m = WindowStateMap::new();
    let (moves, r) = run_snap(&mut m, 3, false, false);
    assert!(matches!(r, Err(Error::InvalidZoneIndex(3, 2))));
    assert!(moves.is_empty());
    assert!(m.get(42).zones.is_empty());
}

#[test]
fn snap_step_span_then_replace() {
    let mut m = WindowStateMap::new();
    run_snap(&mut m, 1, false, false);
    let (moves, _) = run_snap(&mut m, 2, true, false);
    assert_eq!(moves, vec![PixelRect { x: 0, y: 0, w: 1920, h: 1080 }]);
    assert_eq!(m.get(42).zones, vec![1, 2]);
    run_snap(&mut m, 2, false, false);
    assert_eq!(m.get(42).zones, vec![2]);
    assert_eq!(m.get(42).pre_snap, Some(FRAME));
}

#[test]
fn snap_step_prefers_fresh_activator_stash() {
    let mut m = WindowStateMap::new();
    let (_, a) = snap_step(&mut m, SnapStage::Stash { zone_index: 1, span: false }, SnapEvent::Stash(Some((7, 100)))).unwrap();
    assert!(matches!(a, SnapAction::ResolveLayout));
    let (stage, a) =
        snap_step(&mut m, SnapStage::Stash { zone_index: 1, span: false }, SnapEvent::Stash(Some((7, 3501)))).unwrap();
    assert!(matches!(a, SnapAction::FindFocusedWindow));
    assert!(matches!(stage, SnapStage::Focus { zone_index: 1, span: false }));
}

#[test]
fn snap_step_out_of_order_is_refused() {
    let mut m = WindowStateMap::new();
    assert!(snap_step(&mut m, SnapStage::Idle, SnapEvent::Moved).is_none());
}

fn iterate(m: &WindowStateMap, window: u64, dir: IterateDir, zones: u32) -> IterateAction {
    iterate_step(m, IterateStage::Layout(window, dir), IterateEvent::ZoneCount(zones)).unwrap().1
}

#[test]
fn iterate_step_targets() {
    let mut m = WindowStateMap::new();
    assert_eq!(iterate(&m, 42, IterateDir::Next, 2), IterateAction::Snap(1));
    assert_eq!(iterate(&m, 42, IterateDir::Prev, 2), IterateAction::Snap(2));
    m.set_zones(42, vec![2]);
    assert_eq!(iterate(&m, 42, IterateDir::Next, 2), IterateAction::Snap(1));
    assert_eq!(iterate(&m, 42, IterateDir::Next, 3), IterateAction::Snap(3));
    m.set_zones(42, vec![1, 2]);
    assert_eq!(iterate(&m, 42, IterateDir::Next, 3), IterateAction::Snap(1));
    assert_eq!(iterate(&m, 42, IterateDir::Next, 0), IterateAction::Finish);
}

#[test]
fn iterate_step_paused_finishes() {
    let m = WindowStateMap::new();
    let (_, a) = iterate_step(&m, IterateStage::Pausing(IterateDir::Next), IterateEvent::Paused(true)).unwrap();
    assert_eq!(a, IterateAction::Finish);
}

/// Runs a focus cycle for window 42 on a two-zone layout; returns the
/// activated window, if any, and whether the windows were listed.
fn run_cycle(m: &WindowStateMap, direction: i32, layout: Vec<u32>, ids: Vec<u64>) -> (Option<u64>, bool) {
    let mut stage = CycleStage::Idle;
    let mut event = CycleEvent::Start(direction);
    let mut listed = false;
    loop {
        let (next, action) = cycle_step(m, stage, event).expect("in order");
        stage = next;
        event = match action {
            CycleAction::ReadPaused => CycleEvent::Paused(false),
            CycleAction::FindFocusedWindow => CycleEvent::Window(42),
            CycleAction::ResolveLayout => CycleEvent::LayoutZones(layout.clone()),
            CycleAction::ComputeGeometry(_) => CycleEvent::Geometry {
                work_area: WORK_AREA,
                projected: PixelRect { x: 0, y: 0, w: 960, h: 1080 },
            },
            CycleAction::ListWindows(area) => {
                assert_eq!(area, PixelRect { x: 0, y: 0, w: 960, h: 1080 });
                listed = true;
                CycleEvent::Windows(ids.clone())
            }
            CycleAction::Activate(w) => return (Some(w), listed),
            CycleAction::Finish => return (None, listed),
        };
    }
}

#[test]
fn cycle_step_activates_next_and_previous() {
    let mut m = WindowStateMap::new();
    m.set_zones(42, vec![1]);
    assert_eq!(run_cycle(&m, 1, vec![1, 2], vec![10, 42, 11]), (Some(11), true));
    assert_eq!(run_cycle(&m, -1, vec![1, 2], vec![10, 42, 11]), (Some(10), true));
    assert_eq!(run_cycle(&m, 1, vec![1, 2], vec![42]), (None, true));
}

#[test]
fn cycle_step_unsnapped_or_foreign_zones_do_nothing() {
    let mut m = WindowStateMap::new();
    assert_eq!(run_cycle(&m, 1, vec![1, 2], vec![10, 42]), (None, false));
    m.set_zones(42, vec![3]);
    assert_eq!(run_cycle(&m, 1, vec![1, 2], vec![10, 42]), (None, false));
}

#[test]
fn restore_step_moves_back_and_forgets() {
    let mut m = WindowStateMap::new();
    m.ensure_pre_snap(42, FRAME);
    m.set_zones(42, vec![1]);
    let (stage, work) = restore_step(&mut m, RestoreStage::Focus, RestoreEvent::Window(42)).unwrap();
    assert!(matches!(work, RestoreWork::Move(42, r) if r == FRAME));
    assert_eq!(m.get(42).zones, vec![1]);
    let (_, work) = restore_step(&mut m, stage, RestoreEvent::Moved).unwrap();
    assert!(matches!(work, RestoreWork::Finish));
    let s = m.get(42);
    assert!(s.zones.is_empty() && s.pre_snap.is_none());
}

#[test]
fn restore_step_unmaximizes_without_pre_snap() {
    let mut m = WindowStateMap::new();
    m.set_zones(42, vec![1]);
    let (_, work) = restore_step(&mut m, RestoreStage::Focus, RestoreEvent::Window(42)).unwrap();
    assert!(matches!(work, RestoreWork::Unmaximize(42)));
    assert_eq!(m.get(42).zones, vec![1]);
}
