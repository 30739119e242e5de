use blast_radius::graph_formats::{escape_quotes, fnv1a, sanitize_id};
use blast_radius::tree::{clip_left, dir_label, split_dir};

#[test]
fn distinct_ids_stay_distinct_after_sanitization() {
    // `-` and `.` both map to `_`; the fingerprint suffix keeps the ids apart.
    assert_ne!(
        sanitize_id("file:/repo/src/util-x.ts"),
        sanitize_id("file:/repo/src/util.x.ts")
    );
}

#[test]
fn sanitization_is_stable() {
    assert_eq!(
        sanitize_id("file:/repo/src/a.ts"),
        sanitize_id("file:/repo/src/a.ts")
    );
}

#[test]
fn plain_ids_pass_through_unchanged() {
    assert_eq!(sanitize_id("empty"), "empty");
}

#[test]
fn sanitized_id_carries_the_fnv_fingerprint() {
    let id = "file:/a.ts";
    let expected = format!("file__a_ts_{:08x}", fnv1a(id));
    assert_eq!(sanitize_id(id), expected);
}

#[test]
fn fnv1a_matches_known_values() {
    assert_eq!(fnv1a(""), 0x811c_9dc5);
    assert_eq!(fnv1a("a"), 0xe40c_292c);
    assert_eq!(fnv1a("foobar"), 0xbf9c_f968);
}

#[test]
fn escape_quotes_escapes_each_quote() {
    assert_eq!(escape_quotes("say \"hi\""), "say \\\"hi\\\"");
    assert_eq!(escape_quotes("plain"), "plain");
}

#[test]
fn split_dir_handles_forward_slashes() {
    assert_eq!(
        split_dir("src/report/tree.rs"),
        ("src/report".to_string(), "tree.rs".to_string())
    );
    assert_eq!(split_dir("main.rs"), ("".to_string(), "main.rs".to_string()));
}

#[test]
fn split_dir_handles_backslashes() {
    assert_eq!(
        split_dir("src\\report\\tree.rs"),
        ("src\\report".to_string(), "tree.rs".to_string())
    );
    // Mixed separators: split at the last separator of either kind.
    assert_eq!(
        split_dir("src/report\\tree.rs"),
        ("src/report".to_string(), "tree.rs".to_string())
    );
    assert_eq!(
        split_dir("src\\report/tree.rs"),
        ("src\\report".to_string(), "tree.rs".to_string())
    );
}

#[test]
fn dir_label_marks_the_root_directory() {
    assert_eq!(dir_label(""), "./");
    assert_eq!(dir_label("src/app"), "src/app/");
}

#[test]
fn clip_left_keeps_the_most_specific_segments() {
    assert_eq!(clip_left("short", 36), "short");
    assert_eq!(clip_left("abcdefgh", 5), "\u{2026}efgh");
}
