use gnome_power_toys::geometry::{deflate, IterateDir, PixelRect};
use gnome_power_toys::snap::{
    activator_target, check_zone_index, cycle_rect, cycle_target, iterate_target,
    needs_pre_snap, plan_restore, plan_zone_set, snap_rect, RestoreAction, WindowState,
    WindowStateMap, ACTIVATOR_FOCUS_TTL_MS,
};
use gnome_power_toys::zones::{
    check_not_preset, focused_in, monitor_info_from, pauses, paused_value, primary_monitor_key,
    setting_bool, setting_int, shim_focused, shim_move_result, target_monitor,
    windows_centered_in, zone_position, DisplayMode, Error, LayoutSummary, LayoutSummaryWire,
    MonitorInfo, MonitorInfoWire,
};

fn monitor(key: &str, primary: bool) -> MonitorInfo {
    MonitorInfo {
        monitor_key: key.to_string(),
        connector: key.to_string(),
        name: key.to_string(),
        width_px: 1920,
        height_px: 1080,
        is_primary: primary,
    }
}

// ---- zone sets ----

#[test]
fn span_adds_zone_to_current_set() {
    assert_eq!(plan_zone_set(&[1], 2, true), vec![1, 2]);
}

#[test]
fn plain_snap_replaces_current_set() {
    assert_eq!(plan_zone_set(&[1, 3], 2, false), vec![2]);
}

#[test]
fn span_with_same_zone_is_idempotent() {
    assert_eq!(plan_zone_set(&[2], 2, true), vec![2]);
    assert_eq!(plan_zone_set(&[3, 1, 2], 2, true), vec![1, 2, 3]);
}

#[test]
fn zone_index_must_be_in_range() {
    assert!(check_zone_index(1, 4).is_ok());
    assert!(check_zone_index(4, 4).is_ok());
    assert!(matches!(check_zone_index(0, 4), Err(Error::InvalidZoneIndex(0, 4))));
    assert!(matches!(check_zone_index(5, 4), Err(Error::InvalidZoneIndex(5, 4))));
}

#[test]
fn zone_position_finds_index() {
    assert_eq!(zone_position(&[1, 2, 3], 2), Some(1));
    assert_eq!(zone_position(&[1, 2, 3], 7), None);
}

// ---- targets ----

#[test]
fn snap_rect_offsets_and_deflates() {
    let r = snap_rect(
        PixelRect { x: 100, y: 50, w: 1000, h: 800 },
        PixelRect { x: 0, y: 0, w: 500, h: 800 },
        8,
    );
    assert_eq!(r, PixelRect { x: 108, y: 58, w: 484, h: 784 });
}

#[test]
fn cycle_rect_offsets_only() {
    let r = cycle_rect(
        PixelRect { x: 100, y: 50, w: 1000, h: 800 },
        PixelRect { x: 500, y: 0, w: 500, h: 800 },
    );
    assert_eq!(r, PixelRect { x: 600, y: 50, w: 500, h: 800 });
}

#[test]
fn iterate_target_from_single_zone() {
    assert_eq!(iterate_target(&[2], 3, IterateDir::Next), 3);
    assert_eq!(iterate_target(&[3], 3, IterateDir::Next), 1);
    assert_eq!(iterate_target(&[1], 3, IterateDir::Prev), 3);
}

#[test]
fn iterate_target_from_span_starts_over() {
    assert_eq!(iterate_target(&[1, 2], 3, IterateDir::Next), 1);
    assert_eq!(iterate_target(&[], 3, IterateDir::Prev), 3);
}

#[test]
fn cycle_forward_and_back() {
    let ids = [100u64, 200, 300];
    assert_eq!(cycle_target(&ids, 100, 1), Some(200));
    assert_eq!(cycle_target(&ids, 300, 1), Some(100));
    assert_eq!(cycle_target(&ids, 100, -1), Some(300));
    assert_eq!(cycle_target(&ids, 200, -1), Some(100));
}

#[test]
fn cycle_needs_two_windows() {
    assert_eq!(cycle_target(&[100], 100, 1), None);
    assert_eq!(cycle_target(&[], 100, 1), None);
}

#[test]
fn cycle_from_unlisted_window_starts_at_first() {
    assert_eq!(cycle_target(&[100, 200, 300], 999, 1), Some(200));
    assert_eq!(cycle_target(&[100, 200, 300], 999, -1), Some(300));
}

#[test]
fn cycle_there_and_back_returns() {
    let ids = [7u64, 8, 9, 10];
    for &w in &ids {
        let next = cycle_target(&ids, w, 1).unwrap();
        assert_eq!(cycle_target(&ids, next, -1), Some(w));
    }
}

// ---- restore, pre-snap, activator ----

#[test]
fn restore_moves_back_when_snapped() {
    let rect = PixelRect { x: 1, y: 2, w: 3, h: 4 };
    let s = WindowState { pre_snap: Some(rect), zones: vec![1] };
    assert_eq!(plan_restore(&s), RestoreAction::MoveTo(rect));
}

#[test]
fn restore_unmaximizes_otherwise() {
    let s = WindowState { pre_snap: Some(PixelRect { x: 1, y: 2, w: 3, h: 4 }), zones: vec![] };
    assert_eq!(plan_restore(&s), RestoreAction::Unmaximize);
    let s = WindowState { pre_snap: None, zones: vec![2] };
    assert_eq!(plan_restore(&s), RestoreAction::Unmaximize);
}

#[test]
fn pre_snap_only_on_first_snap() {
    assert!(needs_pre_snap(&WindowState::unknown()));
    assert!(!needs_pre_snap(&WindowState { pre_snap: None, zones: vec![1] }));
}

#[test]
fn state_map_set_zones_keeps_pre_snap() {
    let mut m = WindowStateMap::new();
    let r = PixelRect { x: 5, y: 6, w: 7, h: 8 };
    m.ensure_pre_snap(9, r);
    m.set_zones(9, vec![1, 2]);
    let s = m.get(9);
    assert_eq!(s.pre_snap, Some(r));
    assert_eq!(s.zones, vec![1, 2]);
    assert_eq!(m.get(10).zones, Vec::<u32>::new());
}

#[test]
fn activator_stash_expires() {
    assert_eq!(ACTIVATOR_FOCUS_TTL_MS, 3500);
    assert_eq!(activator_target(Some((42, 0))), Some(42));
    assert_eq!(activator_target(Some((42, 3500))), Some(42));
    assert_eq!(activator_target(Some((42, 3501))), None);
    assert_eq!(activator_target(None), None);
}

// ---- monitors ----

#[test]
fn monitor_info_uses_current_mode_and_primary_flag() {
    let modes = [
        DisplayMode { width: 1280, height: 720, is_current: false },
        DisplayMode { width: 2560, height: 1440, is_current: true },
    ];
    let m = monitor_info_from("DP-1", b"", &modes, &["DP-1".to_string()], None);
    assert_eq!(m.monitor_key, "DP-1:no-edid");
    assert_eq!(m.connector, "DP-1");
    assert_eq!(m.name, "DP-1");
    assert_eq!((m.width_px, m.height_px), (2560, 1440));
    assert!(m.is_primary);
}

#[test]
fn monitor_info_without_current_mode_is_zero_sized() {
    let m = monitor_info_from("HDMI-1", b"", &[], &[], Some("Dell".to_string()));
    assert_eq!((m.width_px, m.height_px), (0, 0));
    assert!(!m.is_primary);
    assert_eq!(m.name, "Dell");
}

#[test]
fn target_monitor_prefers_primary() {
    let ms = vec![monitor("a", false), monitor("b", true), monitor("c", true)];
    assert_eq!(target_monitor(ms).unwrap().monitor_key, "b");
    let ms = vec![monitor("a", false), monitor("b", false)];
    assert_eq!(target_monitor(ms).unwrap().monitor_key, "a");
}

#[test]
fn target_monitor_of_nothing_is_an_error() {
    match target_monitor(vec![]) {
        Err(e) => assert_eq!(e.message(), "compositor error: no monitors enumerated"),
        Ok(_) => panic!("expected an error"),
    }
}

#[test]
fn primary_key_is_empty_without_primary() {
    assert_eq!(primary_monitor_key(&[monitor("a", false), monitor("b", true)]), "b");
    assert_eq!(primary_monitor_key(&[monitor("a", false)]), "");
}

#[test]
fn wire_copies_are_field_for_field() {
    let s = LayoutSummary { id: 3, name: "Halves".to_string(), is_preset: true, zone_count: 2 };
    let w = LayoutSummaryWire::from_summary(&s);
    assert_eq!((w.id, w.name.as_str(), w.is_preset, w.zone_count), (3, "Halves", true, 2));
    let m = monitor("DP-2", true);
    let w = MonitorInfoWire::from_monitor(&m);
    assert_eq!(w.monitor_key, "DP-2");
    assert_eq!((w.width_px, w.height_px, w.is_primary), (1920, 1080, true));
}

// ---- windows ----

#[test]
fn windows_centered_in_zone() {
    let zone = PixelRect { x: 0, y: 0, w: 100, h: 100 };
    let windows = [
        (1u64, PixelRect { x: 10, y: 10, w: 20, h: 20 }),
        (2, PixelRect { x: 90, y: 90, w: 40, h: 40 }),
        (3, PixelRect { x: 70, y: 0, w: 40, h: 20 }),
        (4, PixelRect { x: 90, y: 0, w: 20, h: 20 }),
    ];
    assert_eq!(windows_centered_in(&windows, zone), vec![1, 3]);
}

#[test]
fn focused_window_is_first_flagged() {
    assert_eq!(focused_in(&[(1, false), (2, true), (3, true)]).unwrap(), 2);
    assert!(matches!(focused_in(&[(1, false)]), Err(Error::NoFocusedWindow)));
}

#[test]
fn shim_reports_zero_as_no_focus() {
    assert!(matches!(shim_focused(0), Err(Error::NoFocusedWindow)));
    assert_eq!(shim_focused(77).unwrap(), 77);
}

#[test]
fn shim_rejection_names_the_window() {
    assert!(shim_move_result(true, 5).is_ok());
    match shim_move_result(false, 5) {
        Err(e) => assert_eq!(e.message(), "compositor error: mover rejected move_resize for 5"),
        Ok(_) => panic!("expected an error"),
    }
}

// ---- settings and errors ----

#[test]
fn integer_settings_fall_back_to_default() {
    assert_eq!(setting_int(&Some("12".to_string()), 8), 12);
    assert_eq!(setting_int(&Some("-3".to_string()), 8), -3);
    assert_eq!(setting_int(&Some("x1".to_string()), 8), 8);
    assert_eq!(setting_int(&None, 8), 8);
}

#[test]
fn boolean_settings_fall_back_to_default() {
    assert!(setting_bool(&Some("1".to_string()), false));
    assert!(setting_bool(&Some("true".to_string()), false));
    assert!(!setting_bool(&Some("0".to_string()), true));
    assert!(!setting_bool(&Some("false".to_string()), true));
    assert!(setting_bool(&Some("yes".to_string()), true));
    assert!(!setting_bool(&None, false));
}

#[test]
fn paused_setting_round_trips() {
    assert!(pauses(paused_value(true)));
    assert!(!pauses(paused_value(false)));
    assert!(!pauses("no"));
    for paused in [false, true] {
        for default in [false, true] {
            assert_eq!(setting_bool(&Some(paused_value(paused).to_string()), default), paused);
        }
    }
}

#[test]
fn presets_cannot_be_changed() {
    assert!(check_not_preset(false, true).is_ok());
    match check_not_preset(true, true) {
        Err(e) => assert_eq!(e.message(), "config error: cannot delete a preset layout"),
        Ok(_) => panic!("expected an error"),
    }
    match check_not_preset(true, false) {
        Err(e) => assert_eq!(
            e.message(),
            "config error: cannot modify a preset layout — fork with Save As first"
        ),
        Ok(_) => panic!("expected an error"),
    }
}

#[test]
fn zone_error_messages() {
    assert_eq!(Error::NoFocusedWindow.message(), "no focused window");
    assert_eq!(Error::Db("locked".to_string()).message(), "database error: locked");
    assert_eq!(
        Error::NoLayoutForMonitor("DP-1".to_string()).message(),
        "no layout assigned to monitor DP-1"
    );
}

#[test]
fn unknown_direction_is_named() {
    assert_eq!(IterateDir::parse("up"), Err("unknown direction: up".to_string()));
    assert_eq!("prev".parse::<IterateDir>(), Ok(IterateDir::Prev));
}

#[test]
fn stored_zone_sets_stay_sorted() {
    let mut m = WindowStateMap::new();
    let first = plan_zone_set(&[], 3, true);
    m.set_zones(1, first);
    let second = plan_zone_set(&m.get(1).zones, 1, true);
    m.set_zones(1, second);
    m.ensure_pre_snap(1, PixelRect { x: 0, y: 0, w: 10, h: 10 });
    let zones = m.get(1).zones;
    assert_eq!(zones, vec![1, 3]);
    assert!(zones.windows(2).all(|w| w[0] < w[1]));
}

#[test]
fn every_zone_error_has_its_message() {
    let cases = [
        (Error::Db("x".to_string()), "database error: x"),
        (Error::DBus("x".to_string()), "D-Bus error: x"),
        (Error::ZVariant("x".to_string()), "D-Bus zvariant error: x"),
        (Error::Io("x".to_string()), "I/O error: x"),
        (Error::NoFocusedWindow, "no focused window"),
        (Error::NoLayoutForMonitor("m".to_string()), "no layout assigned to monitor m"),
        (Error::InvalidZoneIndex(7, 4), "invalid zone index 7 (layout has 4 zones)"),
        (Error::Config("x".to_string()), "config error: x"),
        (Error::Compositor("x".to_string()), "compositor error: x"),
    ];
    for (e, text) in cases {
        assert_eq!(e.message(), text);
    }
}

#[test]
fn deflate_keeps_a_pixel_for_any_gap() {
    let r = deflate(PixelRect { x: 0, y: 0, w: 10, h: 10 }, 100);
    assert_eq!(r, PixelRect { x: 100, y: 100, w: 1, h: 1 });
    let r = deflate(PixelRect { x: 0, y: 0, w: 10, h: 10 }, -3);
    assert_eq!(r, PixelRect { x: -3, y: -3, w: 16, h: 16 });
}

#[test]
fn direction_from_str_matches_parse() {
    assert_eq!("next".parse::<IterateDir>(), Ok(IterateDir::Next));
    assert_eq!("up".parse::<IterateDir>(), Err("unknown direction: up".to_string()));
}

#[test]
fn negative_frames_have_a_centre_too() {
    let zone = PixelRect { x: 0, y: 0, w: 100, h: 100 };
    let windows = [(1u64, PixelRect { x: 50, y: 50, w: -20, h: -21 }), (2, PixelRect { x: 5, y: 5, w: -20, h: 4 })];
    assert_eq!(windows_centered_in(&windows, zone), vec![1]);
}
