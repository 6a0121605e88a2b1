use gnome_power_toys::clipboard::{content_hash, to_file_uri, Error};
use gnome_power_toys::clips::{sort_clips, ClipSummary};
use gnome_power_toys::clips_ui::{
    accel_matches, filter_for_state, friendly_age_at, friendly_type, payload_for, strip_conflict,
    type_icon, ClipboardPayload,
};
use gnome_power_toys::preview::generate_preview;

// ---- clipboard writer ----

#[test]
fn plain_path_gets_file_prefix() {
    assert_eq!(
        to_file_uri(b"/home/x/a.txt").unwrap(),
        "file:///home/x/a.txt"
    );
}

#[test]
fn already_uri_is_preserved() {
    assert_eq!(to_file_uri(b"file:///a.txt").unwrap(), "file:///a.txt");
}

#[test]
fn path_gets_trimmed() {
    assert_eq!(to_file_uri(b"  /x\n").unwrap(), "file:///x");
}

#[test]
fn invalid_utf8_errors() {
    assert!(matches!(to_file_uri(&[0xff, 0xfe]), Err(Error::InvalidUtf8)));
}

#[test]
fn content_hash_differs_for_different_content() {
    let h1 = content_hash(b"hello");
    let h2 = content_hash(b"world");
    assert_ne!(h1, h2);
}

#[test]
fn content_hash_same_for_identical_content() {
    let h1 = content_hash(b"hello");
    let h2 = content_hash(b"hello");
    assert_eq!(h1, h2);
}

// ---- previews ----

#[test]
fn text_preview_truncates_at_200_chars() {
    let long: String = "a".repeat(300);
    let preview = generate_preview(long.as_bytes(), "text/plain");
    assert_eq!(preview.len(), 200);
}

#[test]
fn text_preview_returns_full_short_text() {
    let preview = generate_preview(b"hello world", "text/plain");
    assert_eq!(preview, "hello world");
}

#[test]
fn html_preview_strips_tags() {
    let html = b"<h1>Hello</h1><p>World</p>";
    let preview = generate_preview(html, "text/html");
    assert!(preview.contains("Hello"));
    assert!(preview.contains("World"));
    assert!(!preview.contains('<'));
}

#[test]
fn image_preview_shows_placeholder() {
    let preview = generate_preview(b"fake png data", "image/png");
    assert_eq!(preview, "[Image]");
}

#[test]
fn file_preview_shows_placeholder() {
    let preview = generate_preview(b"/home/user/report.pdf", "application/file");
    assert_eq!(preview, "[File: report.pdf]");
}

#[test]
fn markdown_preview_strips_syntax() {
    let md = b"# Title\n\n**bold** text";
    let preview = generate_preview(md, "text/markdown");
    assert!(preview.contains("Title"));
    assert!(preview.contains("bold"));
    assert!(!preview.contains('#'));
    assert!(!preview.contains("**"));
}

// ---- window helpers ----

fn clip(id: i64, pinned: bool, created_at: i64) -> ClipSummary {
    ClipSummary {
        id,
        content_type: "text/plain".into(),
        preview: String::new(),
        source_app: String::new(),
        created_at,
        pinned,
        tags: vec![],
    }
}

#[test]
fn type_icon_maps_known_types() {
    assert_eq!(type_icon("text/plain"), "🔤");
    assert_eq!(type_icon("text/html"), "📋");
    assert_eq!(type_icon("text/markdown"), "📝");
    assert_eq!(type_icon("application/file"), "📄");
    assert_eq!(type_icon("image/png"), "🖼️");
    assert_eq!(type_icon("image/jpeg"), "🖼️");
    assert_eq!(type_icon("application/unknown"), "📋");
}

#[test]
fn friendly_type_maps_known_types() {
    assert_eq!(friendly_type("text/plain"), "Text");
    assert_eq!(friendly_type("text/html"), "HTML");
    assert_eq!(friendly_type("text/markdown"), "Markdown");
    assert_eq!(friendly_type("application/file"), "File");
    assert_eq!(friendly_type("image/png"), "Image");
    assert_eq!(friendly_type("weird/thing"), "Clip");
}

#[test]
fn friendly_age_just_now_under_60s() {
    assert_eq!(friendly_age_at(1000, 1000), "just now");
    assert_eq!(friendly_age_at(1059, 1000), "just now");
}

#[test]
fn friendly_age_minutes() {
    assert_eq!(friendly_age_at(1060, 1000), "1 min ago");
    assert_eq!(friendly_age_at(3599, 1000), "43 min ago");
}

#[test]
fn friendly_age_hours() {
    assert_eq!(friendly_age_at(3600, 0), "1 hr ago");
    assert_eq!(friendly_age_at(86_399, 0), "23 hr ago");
}

#[test]
fn friendly_age_days() {
    assert_eq!(friendly_age_at(86_400, 0), "1 days ago");
    assert_eq!(friendly_age_at(3 * 86_400, 0), "3 days ago");
}

#[test]
fn friendly_age_never_panics_on_future_timestamp() {
    // saturating_sub keeps us out of underflow territory.
    assert_eq!(friendly_age_at(100, 200), "just now");
}

#[test]
fn filter_priority_pinned_wins() {
    assert_eq!(
        filter_for_state(true, true, true, true, true, true),
        "pinned"
    );
}

#[test]
fn filter_priority_text_beats_image() {
    assert_eq!(
        filter_for_state(false, true, true, false, false, false),
        "text/plain"
    );
}

#[test]
fn filter_all_when_no_toggles() {
    assert_eq!(
        filter_for_state(false, false, false, false, false, false),
        ""
    );
}

#[test]
fn filter_each_type_maps_correctly() {
    assert_eq!(
        filter_for_state(false, false, true, false, false, false),
        "image/*"
    );
    assert_eq!(
        filter_for_state(false, false, false, true, false, false),
        "application/file"
    );
    assert_eq!(
        filter_for_state(false, false, false, false, true, false),
        "text/html"
    );
    assert_eq!(
        filter_for_state(false, false, false, false, false, true),
        "text/markdown"
    );
}

#[test]
fn sort_clips_pins_first() {
    let clips = vec![
        clip(1, false, 100),
        clip(2, true, 50),
        clip(3, false, 200),
        clip(4, true, 150),
    ];
    let sorted = sort_clips(&clips);
    let ids: Vec<i64> = sorted.iter().map(|c| c.id).collect();
    // Pinned first (newest pinned = id 4, then id 2), then unpinned newest = id 3 then id 1.
    assert_eq!(ids, vec![4, 2, 3, 1]);
}

#[test]
fn sort_clips_stable_ordering_within_group() {
    let clips = vec![clip(1, false, 10), clip(2, false, 20), clip(3, false, 15)];
    let sorted = sort_clips(&clips);
    let ids: Vec<i64> = sorted.iter().map(|c| c.id).collect();
    assert_eq!(ids, vec![2, 3, 1]);
}

#[test]
fn sort_clips_empty_returns_empty() {
    let sorted = sort_clips(&[]);
    assert!(sorted.is_empty());
}

// ---- paste payloads ----

#[test]
fn text_plain_utf8_becomes_text() {
    let p = payload_for("text/plain", b"hello");
    assert_eq!(p, ClipboardPayload::Text("hello".to_string()));
}

#[test]
fn text_html_becomes_text() {
    let p = payload_for("text/html", b"<b>x</b>");
    assert_eq!(p, ClipboardPayload::Text("<b>x</b>".to_string()));
}

#[test]
fn text_markdown_becomes_text() {
    let p = payload_for("text/markdown", b"# title");
    assert_eq!(p, ClipboardPayload::Text("# title".to_string()));
}

#[test]
fn text_with_invalid_utf8_is_unsupported() {
    let p = payload_for("text/plain", &[0xff, 0xfe, 0xfd]);
    assert_eq!(p, ClipboardPayload::Unsupported);
}

#[test]
fn image_becomes_texture() {
    let bytes = [0x89u8, 0x50, 0x4e, 0x47];
    match payload_for("image/png", &bytes) {
        ClipboardPayload::Texture(b) => assert_eq!(b, &bytes),
        other => panic!("expected Texture, got {other:?}"),
    }
}

#[test]
fn image_jpeg_also_becomes_texture() {
    match payload_for("image/jpeg", &[0xff, 0xd8, 0xff]) {
        ClipboardPayload::Texture(_) => {}
        other => panic!("expected Texture, got {other:?}"),
    }
}

#[test]
fn file_path_becomes_uri() {
    let p = payload_for("application/file", b"/home/x/a.txt");
    assert_eq!(p, ClipboardPayload::FileUri("file:///home/x/a.txt".into()));
}

#[test]
fn file_already_uri_is_preserved() {
    let p = payload_for("application/file", b"file:///already/there.txt");
    assert_eq!(
        p,
        ClipboardPayload::FileUri("file:///already/there.txt".into())
    );
}

#[test]
fn file_path_trims_surrounding_whitespace() {
    let p = payload_for("application/file", b"  /p/x  \n");
    assert_eq!(p, ClipboardPayload::FileUri("file:///p/x".into()));
}

#[test]
fn unknown_mime_is_passthrough() {
    let p = payload_for("application/x-custom", &[1, 2, 3]);
    assert_eq!(
        p,
        ClipboardPayload::Raw {
            mime: "application/x-custom".into(),
            bytes: vec![1, 2, 3]
        }
    );
}

// ---- accelerators ----

#[test]
fn accel_matches_is_case_insensitive() {
    assert!(accel_matches("<Super>v", "<super>V"));
    assert!(accel_matches("<Primary><Super>v", "<primary><super>V"));
}

#[test]
fn accel_matches_ignores_whitespace() {
    assert!(accel_matches("<Super> v", "<Super>v"));
}

#[test]
fn accel_matches_differentiates_distinct_accelerators() {
    assert!(!accel_matches("<Super>v", "<Super>c"));
    assert!(!accel_matches("<Super>v", "<Control>v"));
}

#[test]
fn strip_conflict_removes_target_and_preserves_others() {
    let current = vec![
        "<Super>v".to_string(),
        "<Control><Alt>t".to_string(),
        "<Primary>c".to_string(),
    ];
    let stripped = strip_conflict(&current, "<Super>v");
    assert_eq!(
        stripped,
        vec!["<Control><Alt>t".to_string(), "<Primary>c".to_string()]
    );
}

#[test]
fn strip_conflict_removes_case_insensitive_matches() {
    let current = vec!["<super>V".to_string(), "<Control>a".to_string()];
    let stripped = strip_conflict(&current, "<Super>v");
    assert_eq!(stripped, vec!["<Control>a".to_string()]);
}

#[test]
fn strip_conflict_returns_same_list_when_no_match() {
    let current = vec!["<Super>Left".to_string(), "<Super>Right".to_string()];
    let stripped = strip_conflict(&current, "<Super>v");
    assert_eq!(stripped, current);
}

#[test]
fn strip_conflict_handles_empty_input() {
    assert!(strip_conflict(&[], "<Super>v").is_empty());
}

#[test]
fn strip_conflict_drops_all_copies_of_duplicates() {
    let current = vec!["<Super>v".to_string(), "<Super>v".to_string()];
    assert!(strip_conflict(&current, "<Super>v").is_empty());
}
