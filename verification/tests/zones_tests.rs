use gnome_power_toys::geometry::{deflate, iterate_index, IterateDir, PixelRect};
use gnome_power_toys::hotkeys::conflict_entries;
use gnome_power_toys::snap::WindowStateMap;
use gnome_power_toys::zones::{check_not_preset, compute_monitor_key, monitor_key_from_digest, setting_bool, setting_int, Error};

#[test]
fn deflate_shrinks_four_sides() {
    let r = deflate(PixelRect { x: 0, y: 0, w: 100, h: 100 }, 8);
    assert_eq!(r, PixelRect { x: 8, y: 8, w: 84, h: 84 });
}

#[test]
fn deflate_clamps_when_too_small() {
    let r = deflate(PixelRect { x: 0, y: 0, w: 4, h: 100 }, 8);
    assert_eq!(r.w, 1);
    assert_eq!(r.h, 84);
}

#[test]
fn iterate_next_wraps() {
    assert_eq!(iterate_index(1, 3, IterateDir::Next), 2);
    assert_eq!(iterate_index(2, 3, IterateDir::Next), 3);
    assert_eq!(iterate_index(3, 3, IterateDir::Next), 1);
}

#[test]
fn iterate_prev_wraps() {
    assert_eq!(iterate_index(3, 3, IterateDir::Prev), 2);
    assert_eq!(iterate_index(2, 3, IterateDir::Prev), 1);
    assert_eq!(iterate_index(1, 3, IterateDir::Prev), 3);
}

#[test]
fn iterate_unsnapped_next_lands_on_1() {
    assert_eq!(iterate_index(0, 5, IterateDir::Next), 1);
}

#[test]
fn iterate_unsnapped_prev_lands_on_last() {
    assert_eq!(iterate_index(0, 5, IterateDir::Prev), 5);
}

#[test]
fn iterate_single_zone_is_fixpoint() {
    assert_eq!(iterate_index(1, 1, IterateDir::Next), 1);
    assert_eq!(iterate_index(1, 1, IterateDir::Prev), 1);
}

#[test]
fn iterate_dir_parses() {
    assert_eq!("prev".parse::<IterateDir>().unwrap(), IterateDir::Prev);
    assert_eq!("next".parse::<IterateDir>().unwrap(), IterateDir::Next);
    assert!("sideways".parse::<IterateDir>().is_err());
}

#[test]
fn conflict_entries_covers_tiling_and_super_ctrl_n() {
    let e = conflict_entries();
    let keys: Vec<&str> = e.iter().map(|(_, k, _)| k.as_str()).collect();
    assert!(keys.contains(&"toggle-tiled-left"));
    assert!(keys.contains(&"toggle-tiled-right"));
    for n in 1..=9 {
        let k = format!("open-new-window-application-{n}");
        assert!(
            keys.iter().any(|x| *x == k),
            "missing entry: {k}"
        );
    }
}

#[test]
fn conflict_entries_stash_keys_are_unique() {
    let e = conflict_entries();
    let mut stash: Vec<&str> = e.iter().map(|(_, _, s)| s.as_str()).collect();
    stash.sort();
    let len = stash.len();
    stash.dedup();
    assert_eq!(stash.len(), len, "duplicate stash keys");
}

#[test]
fn key_with_edid_is_connector_plus_hex8() {
    let edid = b"monitor edid payload";
    let k = compute_monitor_key("DP-1", edid);
    assert!(k.starts_with("DP-1:"));
    assert_eq!(k.split(':').nth(1).unwrap().len(), 8);
}

#[test]
fn key_without_edid_falls_back() {
    assert_eq!(compute_monitor_key("HDMI-2", &[]), "HDMI-2:no-edid");
}

#[test]
fn identical_edid_produces_identical_key() {
    let edid = b"AAAA";
    assert_eq!(compute_monitor_key("DP-1", edid), compute_monitor_key("DP-1", edid));
}

#[test]
fn different_edid_produces_different_key() {
    assert_ne!(compute_monitor_key("DP-1", b"A"), compute_monitor_key("DP-1", b"B"));
}

#[test]
fn invalid_zone_index_displays_both_numbers() {
    let e = Error::InvalidZoneIndex(7, 4);
    let msg = e.message();
    assert!(msg.contains('7') && msg.contains('4'));
}

#[test]
fn get_on_unknown_id_is_default() {
    let m = WindowStateMap::new();
    let s = m.get(42);
    assert!(s.zones.is_empty());
    assert!(s.pre_snap.is_none());
}

#[test]
fn set_and_retrieve_zones() {
    let mut m = WindowStateMap::new();
    m.set_zones(7, vec![2, 3]);
    let s = m.get(7);
    assert_eq!(s.zones, vec![2, 3]);
}

#[test]
fn ensure_pre_snap_only_sets_once() {
    let mut m = WindowStateMap::new();
    let r1 = PixelRect { x: 0, y: 0, w: 100, h: 100 };
    let r2 = PixelRect { x: 50, y: 50, w: 100, h: 100 };
    m.ensure_pre_snap(7, r1);
    m.ensure_pre_snap(7, r2);
    assert_eq!(m.get(7).pre_snap, Some(r1));
}

#[test]
fn forget_removes_entry() {
    let mut m = WindowStateMap::new();
    m.set_zones(7, vec![1]);
    m.forget(7);
    assert!(m.get(7).zones.is_empty());
}

#[test]
fn get_int_falls_back_on_missing() {
    assert_eq!(setting_int(&None, 8), 8);
    assert_eq!(setting_int(&Some("12".to_string()), 8), 12);
}

#[test]
fn get_bool_parses_common_forms() {
    assert!(setting_bool(&Some("true".to_string()), false));
    assert!(!setting_bool(&Some("0".to_string()), true));
}

#[test]
fn cannot_delete_preset() {
    let err = check_not_preset(true, true).unwrap_err();
    assert!(err.message().contains("preset"));
}

#[test]
fn cannot_update_preset() {
    let err = check_not_preset(true, false).unwrap_err();
    assert!(err.message().contains("preset"));
}

#[test]
fn db_error_displays() {
    let e = Error::Db(rusqlite::Error::InvalidColumnName("x".into()).to_string());
    assert!(e.message().contains("database"));
}

#[test]
fn key_from_digest_uses_first_four_bytes() {
    let digest = [0xde, 0xad, 0xbe, 0xef, 0x01, 0x02];
    assert_eq!(monitor_key_from_digest("DP-1", &digest), "DP-1:deadbeef");
    let edid = b"monitor edid payload";
    let full = gnome_power_toys::clipboard::content_hash(edid);
    assert_eq!(compute_monitor_key("DP-1", edid), monitor_key_from_digest("DP-1", &full));
}
