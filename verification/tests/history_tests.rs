use gnome_power_toys::clipboard::{
    choose_mime, content_hash, is_new_content, read_event, to_file_uri, write_payload,
    Error as WriterError, WriteTarget,
};
use gnome_power_toys::clips::{
    detail_from_clip, display_order, history_query, retention_cutoff, should_record,
    summary_from_row, Clip, ClipDetail, ClipRow, ClipSummary, Config, QueryParam,
};
use gnome_power_toys::clips_ui::{
    now_unix, unix_time_from, accel_matches, detail_body, incognito_menu_label, key_action, label_says_pinned, meta_line, normalize_accel,
    pane_age_at, pin_button_label, tray_icon_name, with_custom_binding, KeyAction, WindowKey,
};
use gnome_power_toys::preview::{
    file_label_from, generate_preview, preview_of_text, strip_html_tags, strip_markdown, truncate_str,
    truncate_utf8,
};
use gnome_power_toys::textutil::{parse_i64, parse_u32};

fn strings(v: &[&str]) -> Vec<String> {
    v.iter().map(|s| s.to_string()).collect()
}

fn summary(id: i64, pinned: bool, created_at: i64) -> ClipSummary {
    ClipSummary {
        id,
        content_type: "text/plain".to_string(),
        preview: String::new(),
        source_app: String::new(),
        created_at,
        pinned,
        tags: vec![],
    }
}

// ---- history query ----

#[test]
fn history_query_without_filter() {
    let (sql, params) = history_query("", "", 0, 50);
    assert_eq!(
        sql,
        "SELECT id, content_type, preview, source_app, created_at, pinned FROM clips WHERE deleted = 0 ORDER BY pinned DESC, created_at DESC LIMIT ? OFFSET ?"
    );
    assert_eq!(params, vec![QueryParam::Integer(50), QueryParam::Integer(0)]);
}

#[test]
fn history_query_pinned_only() {
    let (sql, params) = history_query("pinned", "", 10, 20);
    assert!(sql.contains(" AND pinned = 1"));
    assert!(!sql.contains("content_type = ?"));
    assert_eq!(params, vec![QueryParam::Integer(20), QueryParam::Integer(10)]);
}

#[test]
fn history_query_family_filter_and_search() {
    let (sql, params) = history_query("image/*", "cat", 0, 5);
    assert!(sql.contains(" AND content_type LIKE ?"));
    assert!(sql.contains(" AND preview LIKE ?"));
    assert_eq!(
        params,
        vec![
            QueryParam::Text("image/%".to_string()),
            QueryParam::Text("%cat%".to_string()),
            QueryParam::Integer(5),
            QueryParam::Integer(0),
        ]
    );
}

#[test]
fn history_query_exact_type() {
    let (sql, params) = history_query("text/html", "", 0, 5);
    assert!(sql.contains(" AND content_type = ?"));
    assert_eq!(params[0], QueryParam::Text("text/html".to_string()));
    assert_eq!(params.len(), 3);
}

// ---- configuration and retention ----

#[test]
fn config_defaults() {
    let c = Config::load(None, None, None, None);
    assert_eq!(c.retention_days, 7);
    assert_eq!(c.retention_count, 100);
    assert_eq!(c.shortcut_key, "Super+V");
    assert!(!c.incognito);
}

#[test]
fn config_reads_stored_values() {
    let c = Config::load(
        Some("30".to_string()),
        Some("abc".to_string()),
        Some("<Super>c".to_string()),
        Some("true".to_string()),
    );
    assert_eq!(c.retention_days, 30);
    assert_eq!(c.retention_count, 100);
    assert_eq!(c.shortcut_key, "<Super>c");
    assert!(c.incognito);
    assert!(Config::load(None, None, None, Some("1".to_string())).incognito);
    assert!(!Config::load(None, None, None, Some("yes".to_string())).incognito);
}

#[test]
fn retention_cutoff_is_days_before_now() {
    assert_eq!(retention_cutoff(1_000_000, 7), 1_000_000 - 7 * 86400);
    assert_eq!(retention_cutoff(500, 0), 500);
}

#[test]
fn incognito_or_excluded_is_not_recorded() {
    assert!(should_record(false, false));
    assert!(!should_record(true, false));
    assert!(!should_record(false, true));
}

#[test]
fn integers_parse_strictly() {
    assert_eq!(parse_u32("42"), Some(42));
    assert_eq!(parse_u32("4294967296"), None);
    assert_eq!(parse_u32(""), None);
    assert_eq!(parse_i64("-9223372036854775808"), Some(i64::MIN));
    assert_eq!(parse_i64("+5"), Some(5));
    assert_eq!(parse_i64("5x"), None);
}

// ---- records ----

#[test]
fn summary_fills_missing_columns_with_empty_text() {
    let row = ClipRow {
        id: 4,
        content_type: "text/plain".to_string(),
        preview: None,
        source_app: Some("gedit".to_string()),
        created_at: 99,
        pinned: true,
    };
    let s = summary_from_row(&row, strings(&["work"]));
    assert_eq!(s.preview, "");
    assert_eq!(s.source_app, "gedit");
    assert_eq!((s.id, s.created_at, s.pinned), (4, 99, true));
    assert_eq!(s.tags, strings(&["work"]));
}

#[test]
fn detail_keeps_content() {
    let clip = Clip {
        id: 1,
        content: b"abc".to_vec(),
        content_type: "text/plain".to_string(),
        preview: Some("abc".to_string()),
        source_app: None,
        created_at: 5,
        pinned: false,
    };
    let d = detail_from_clip(clip, vec![]);
    assert_eq!(d.content, b"abc".to_vec());
    assert_eq!(d.source_app, "");
}

#[test]
fn display_order_pinned_then_newest() {
    let clips = [summary(1, false, 10), summary(2, true, 5), summary(3, false, 20), summary(4, true, 5)];
    assert_eq!(display_order(&clips), vec![1, 3, 2, 0]);
}

// ---- clipboard reading and writing ----

#[test]
fn new_content_detection() {
    let h = content_hash(b"x");
    assert!(is_new_content(&None, &h));
    assert!(!is_new_content(&Some(h), &h));
    assert!(is_new_content(&Some(content_hash(b"y")), &h));
}

#[test]
fn mime_choice_follows_priority() {
    assert_eq!(
        choose_mime(&strings(&["text/plain", "image/png", "text/html"])),
        Some("text/html".to_string())
    );
    assert_eq!(
        choose_mime(&strings(&["text/plain", "image/jpeg"])),
        Some("image/jpeg".to_string())
    );
    assert_eq!(
        choose_mime(&strings(&["UTF8_STRING", "text/x-moz-url"])),
        Some("text/x-moz-url".to_string())
    );
    assert_eq!(choose_mime(&strings(&["UTF8_STRING", "TARGETS"])), None);
}

#[test]
fn read_event_maps_octet_stream_to_file() {
    let e = read_event(b"/tmp/a".to_vec(), "application/octet-stream").unwrap();
    assert_eq!(e.content_type, "application/file");
    assert_eq!(e.content, b"/tmp/a".to_vec());
    assert!(e.source_app.is_none());
    assert_eq!(read_event(b"x".to_vec(), "text/plain").unwrap().content_type, "text/plain");
    assert!(read_event(vec![], "text/plain").is_none());
}

#[test]
fn write_payload_variants() {
    assert_eq!(
        write_payload(b"hi", "text/html").unwrap(),
        (WriteTarget::Text, b"hi".to_vec())
    );
    assert_eq!(
        write_payload(b" /a/b ", "application/file").unwrap(),
        (WriteTarget::Mime("text/uri-list".to_string()), b"file:///a/b".to_vec())
    );
    assert_eq!(
        write_payload(&[1, 2], "image/png").unwrap(),
        (WriteTarget::Mime("image/png".to_string()), vec![1, 2])
    );
    assert!(matches!(write_payload(&[0xff], "application/file"), Err(WriterError::InvalidUtf8)));
}

#[test]
fn writer_error_messages() {
    assert_eq!(WriterError::InvalidUtf8.message(), "invalid utf-8 in file-path clip");
    assert_eq!(WriterError::NoBackend.message(), "clipboard writer disabled");
    assert_eq!(WriterError::X11("gone".to_string()).message(), "x11 clipboard: gone");
}

// ---- previews ----

#[test]
fn html_text_collapses_whitespace() {
    assert_eq!(strip_html_tags("<p>Hello   <b>world</b></p>\n"), "Hello world");
}

#[test]
fn markdown_text_drops_marks() {
    let s = strip_markdown("# Title\n**bold** `code`");
    assert!(!s.contains('#') && !s.contains('*') && !s.contains('`'));
    assert!(s.contains("Title") && s.contains("bold") && s.contains("code"));
}

#[test]
fn truncation_counts_characters() {
    assert_eq!(truncate_str("héllo", 2), "hé");
    assert_eq!(truncate_utf8("héllo".as_bytes(), 10), "héllo");
}

#[test]
fn file_preview_shows_file_name() {
    assert_eq!(preview_of_text("  /home/u/notes.txt\n", "application/file"), "[File: notes.txt]");
    assert_eq!(generate_preview(b"/", "application/file"), "[File: /]");
}

#[test]
fn unknown_type_preview_is_text() {
    assert_eq!(generate_preview(b"abc", "application/json"), "abc");
}

// ---- window ----

#[test]
fn window_keys() {
    assert_eq!(key_action(WindowKey::Escape, false), KeyAction::Hide);
    assert_eq!(key_action(WindowKey::Return, false), KeyAction::PasteSelected);
    assert_eq!(key_action(WindowKey::KeypadEnter, true), KeyAction::Proceed);
    assert_eq!(key_action(WindowKey::Delete, false), KeyAction::DeleteSelected);
    assert_eq!(key_action(WindowKey::P, true), KeyAction::TogglePinSelected);
    assert_eq!(key_action(WindowKey::P, false), KeyAction::Proceed);
    assert_eq!(key_action(WindowKey::I, true), KeyAction::ToggleIncognito);
    assert_eq!(key_action(WindowKey::Other, true), KeyAction::Proceed);
}

#[test]
fn pin_label_round_trips() {
    assert!(label_says_pinned(pin_button_label(true)));
    assert!(!label_says_pinned(pin_button_label(false)));
}

#[test]
fn custom_binding_added_once() {
    let path = "/org/gnome/settings-daemon/plugins/media-keys/custom-keybindings/gnome-clips/";
    let added = with_custom_binding(&strings(&["/x/"])).unwrap();
    assert_eq!(added, strings(&["/x/", path]));
    assert!(with_custom_binding(&added).is_none());
}

#[test]
fn detail_pane_bodies() {
    let mut d = ClipDetail {
        id: 1,
        content_type: "text/plain".to_string(),
        preview: String::new(),
        source_app: String::new(),
        created_at: 0,
        pinned: false,
        tags: vec![],
        content: b"hello".to_vec(),
    };
    assert_eq!(detail_body(&d), "hello");
    d.content_type = "image/png".to_string();
    assert_eq!(detail_body(&d), "[Image — cannot display inline]");
    d.content_type = "application/file".to_string();
    assert_eq!(detail_body(&d), "[File: hello]");
    d.content_type = "application/pdf".to_string();
    assert_eq!(detail_body(&d), "[application/pdf — 5 bytes]");
}

#[test]
fn meta_line_names_unknown_source() {
    assert_eq!(meta_line("Text", "", "now"), "Text · unknown · now");
    assert_eq!(meta_line("Text", "gedit", "5m ago"), "Text · gedit · 5m ago");
}

#[test]
fn accelerators_normalise() {
    assert_eq!(normalize_accel(" <Super> V "), "<super>v");
}

#[test]
fn tray_labels_follow_incognito() {
    assert_eq!(tray_icon_name(true), "changes-prevent-symbolic");
    assert_eq!(tray_icon_name(false), "edit-paste-symbolic");
    assert_eq!(incognito_menu_label(true), "Exit Incognito");
    assert_eq!(incognito_menu_label(false), "Enter Incognito");
}

#[test]
fn pane_age_is_relative() {
    assert_eq!(pane_age_at(1000, 940), "1 min ago");
    assert_eq!(pane_age_at(10_000, 2_800), "2 hr ago");
    assert_eq!(pane_age_at(100, 200), "just now");
}

#[test]
fn file_uri_of_a_file_uri_is_unchanged() {
    for text in ["  /home/u/a b.txt\n", "file:///x", "", "   "] {
        let once = to_file_uri(text.as_bytes()).unwrap();
        let twice = to_file_uri(once.as_bytes()).unwrap();
        assert_eq!(once, twice);
    }
}

#[test]
fn accelerators_ignore_inserted_whitespace_and_case() {
    assert!(accel_matches("<Primary>\t<Shift> c", "<primary><shift>C"));
    assert!(accel_matches("<Super>v", "<Super>\u{a0}v"));
    assert!(!accel_matches("<Super>v", "<Super>w"));
}

#[test]
fn every_writer_error_has_its_message() {
    assert_eq!(WriterError::Init("x".to_string()).message(), "clipboard init: x");
    assert_eq!(WriterError::X11("x".to_string()).message(), "x11 clipboard: x");
    assert_eq!(WriterError::Wayland("x".to_string()).message(), "wayland clipboard: x");
    assert_eq!(WriterError::InvalidUtf8.message(), "invalid utf-8 in file-path clip");
    assert_eq!(WriterError::NoBackend.message(), "clipboard writer disabled");
}

#[test]
fn unix_time_of_clock_readings() {
    assert_eq!(unix_time_from(Some(1_700_000_000)), 1_700_000_000);
    assert_eq!(unix_time_from(None), 0);
    assert!(now_unix() > 1_600_000_000);
}

#[test]
fn markdown_drops_every_hash() {
    assert_eq!(strip_markdown("a#"), "a");
    assert_eq!(strip_markdown("# Title\n\n**bold** text"), "Title bold text");
    assert_eq!(strip_markdown("** x\n> quote # here"), "x quote  here");
}

#[test]
fn file_label_with_and_without_name() {
    assert_eq!(file_label_from(" /a/b.txt ", Some("b.txt".to_string())), "[File: b.txt]");
    assert_eq!(file_label_from(" / ", None), "[File:  / ]");
}
