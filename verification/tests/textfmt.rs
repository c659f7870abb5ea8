use logcore::render::{escape_html, format_location, format_source, get_level_badge_class};
use logcore::storage::{sanitize_filename, split_content_lines, upload_rel_path, LogStorage};
use logcore::tags::{fnv1a_hash, get_tag_classes, get_tag_color};

#[test]
fn test_sanitize_filename() {
    assert_eq!(sanitize_filename("test-device"), "test-device");
    assert_eq!(sanitize_filename("../../../etc/passwd"), "etcpasswd");
    assert_eq!(sanitize_filename("device@#$%123"), "device123");
}

#[test]
fn test_fnv1a_hash_consistency() {
    // Same input should always produce same output
    assert_eq!(fnv1a_hash("test"), fnv1a_hash("test"));
    assert_eq!(fnv1a_hash("HealthCheck"), fnv1a_hash("HealthCheck"));
}

#[test]
fn test_fnv1a_hash_different_inputs() {
    // Different inputs should (usually) produce different outputs
    assert_ne!(fnv1a_hash("auth"), fnv1a_hash("network"));
    assert_ne!(fnv1a_hash("sync"), fnv1a_hash("debug"));
}

#[test]
fn test_fnv1a_hash_known_values() {
    assert_eq!(fnv1a_hash(""), 2166136261);
    assert_eq!(fnv1a_hash("a"), 0xe40c292c);
}

#[test]
fn test_tag_color_determinism() {
    // Same tag should always get same color
    let color1 = get_tag_color("HealthCheck");
    let color2 = get_tag_color("HealthCheck");
    assert_eq!(color1.bg_class, color2.bg_class);
    assert_eq!(color1.text_class, color2.text_class);
}

#[test]
fn test_tag_classes_format() {
    let classes = get_tag_classes("test");
    assert!(classes.contains("bg-"));
    assert!(classes.contains("text-"));
}

#[test]
fn test_format_location() {
    let location = format_location("/path/to/file.swift", 42);
    // The location should contain the filename and line
    assert!(location.contains("file.swift"));
    assert!(location.contains("42"));
}

#[test]
fn test_format_location_exact() {
    assert_eq!(format_location("/path/to/file.swift", 42), "[file.swift:42]");
    assert_eq!(format_location("plain.rs", 7), "[plain.rs:7]");
    assert_eq!(format_location("", 0), "[:0]");
}

#[test]
fn test_format_source() {
    let source = format_source("cli");
    assert!(source.contains("cli"));
}

#[test]
fn test_format_source_exact() {
    assert_eq!(format_source("cli"), "[cli]");
}

#[test]
fn test_level_badge_class() {
    assert_eq!(get_level_badge_class("trace"), "trace");
    assert_eq!(get_level_badge_class("debug"), "debug");
    assert_eq!(get_level_badge_class("info"), "info");
    assert_eq!(get_level_badge_class("notice"), "notice");
    assert_eq!(get_level_badge_class("warning"), "warning");
    assert_eq!(get_level_badge_class("error"), "error");
    assert_eq!(get_level_badge_class("critical"), "critical");
    assert_eq!(get_level_badge_class("unknown"), "info");
}

#[test]
fn test_escape_html_function() {
    assert_eq!(escape_html("&"), "&amp;");
    assert_eq!(escape_html("<"), "&lt;");
    assert_eq!(escape_html(">"), "&gt;");
    assert_eq!(escape_html("\""), "&quot;");
    assert_eq!(escape_html("'"), "&#x27;");
    assert_eq!(
        escape_html("<script>alert('xss')</script>"),
        "&lt;script&gt;alert(&#x27;xss&#x27;)&lt;/script&gt;"
    );
}

#[test]
fn test_upload_paths() {
    assert_eq!(
        upload_rel_path(1, "dev/x", 2),
        "00000000-0000-0000-0000-000000000001/devx/00000000-0000-0000-0000-000000000002.jsonl"
    );
    let storage = LogStorage::new("./uploads".to_string());
    assert_eq!(storage.base_path(), "./uploads");
    assert_eq!(
        storage.upload_path(1, "dev", 2),
        "./uploads/00000000-0000-0000-0000-000000000001/dev/00000000-0000-0000-0000-000000000002.jsonl"
    );
}

#[test]
fn test_split_content_lines() {
    let lines = split_content_lines("{\"a\":1}\n\n{\"b\":2}\r\n   \n{\"c\":3}");
    assert_eq!(lines, vec!["{\"a\":1}", "{\"b\":2}", "{\"c\":3}"]);
    assert!(split_content_lines("").is_empty());
    assert!(split_content_lines("\n\n  \n").is_empty());
    assert_eq!(split_content_lines("x"), vec!["x"]);
}
