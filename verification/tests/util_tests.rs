use std::path::PathBuf;

use ml4w_zh::util::{
    backup_dir_for, backup_dir_in, backup_file_for, backup_file_in, cache_dir, cache_path,
    definitions_dir, diff_text, expand, extension_in, home_from, is_affirmative, is_definition_file, is_definition_path,
    is_yes, join, trimmed, patches_output_path, protect_marker_for, protect_marker_in, revert_paths,
    revert_scan_dirs, BACKUP_DIR, CACHE_FILE,
};

const HOME: &str = "/home/user";

#[test]
fn test_expand_tilde() {
    let home = PathBuf::from(HOME);
    let result = expand("~/some/path", HOME);
    assert_eq!(PathBuf::from(result), home.join("some/path"));
}

#[test]
fn test_expand_absolute() {
    let result = expand("/etc/passwd", HOME);
    assert_eq!(PathBuf::from(result), PathBuf::from("/etc/passwd"));
}

#[test]
fn test_expand_relative() {
    let home = PathBuf::from(HOME);
    let result = expand("some/relative/path", HOME);
    assert_eq!(PathBuf::from(result), home.join("some/relative/path"));
}

#[test]
fn test_backup_dir_for_subdir() {
    let result = backup_dir_for("/home/user/.config/hypr/hyprland.conf");
    assert_eq!(
        PathBuf::from(result),
        PathBuf::from("/home/user/.config/hypr/.ml4w-zh-backups")
    );
}

#[test]
fn test_backup_dir_for_root() {
    let result = backup_dir_for("/file");
    assert_eq!(PathBuf::from(result), PathBuf::from("/.ml4w-zh-backups"));
}

#[test]
fn test_diff_text_identical() {
    let result = diff_text("hello\nworld", "hello\nworld");
    assert!(result.is_empty());
}

#[test]
fn test_diff_text_different() {
    let result = diff_text("hello\nworld", "hello\nrust");
    assert!(!result.is_empty());
    assert!(result.iter().any(|l| l.contains("world") && l.contains("rust")));
}

#[test]
fn test_diff_text_length_mismatch() {
    let result = diff_text("a\nb\nc", "a\nb");
    assert!(result.iter().any(|l| l.contains("行数差异")));
}

#[test]
fn expand_replaces_every_tilde() {
    assert_eq!(expand("~/a~b", "/h"), "/h/a/hb");
}

#[test]
fn expand_with_trailing_slash_home() {
    assert_eq!(expand("x", "/root/"), "/root/x");
    assert_eq!(expand("~", "/root/"), "/root/");
}

#[test]
fn expand_of_expanded_path_is_unchanged() {
    for p in ["~/a", "rel/b", "/abs/c", "", "~"] {
        let once = expand(p, HOME);
        assert_eq!(expand(&once, HOME), once);
        assert!(once.starts_with('/'));
    }
}

#[test]
fn join_rules() {
    assert_eq!(join("/a", "b"), "/a/b");
    assert_eq!(join("/a/", "b"), "/a/b");
    assert_eq!(join("", "b"), "b");
    assert_eq!(join("/a", "/etc/x"), "/etc/x");
    assert_eq!(join("/a", ""), "/a/");
}

#[test]
fn join_matches_pathbuf_join() {
    for (b, r) in [("/a", "b"), ("/a/", "b"), ("", "b"), ("/a", "/c"), ("a", "")] {
        assert_eq!(PathBuf::from(join(b, r)), PathBuf::from(b).join(r));
    }
}

#[test]
fn cache_locations() {
    assert_eq!(cache_dir(HOME), "/home/user/.cache/ml4w-zh");
    assert_eq!(cache_path(HOME), "/home/user/.cache/ml4w-zh/patches.json");
    assert_eq!(CACHE_FILE, "patches.json");
}

#[test]
fn backup_dir_of_relative_and_bare_paths() {
    assert_eq!(backup_dir_for("file"), ".ml4w-zh-backups");
    assert_eq!(backup_dir_for("/"), BACKUP_DIR);
    assert_eq!(backup_dir_for(""), BACKUP_DIR);
    assert_eq!(backup_dir_in(Some("/x")), "/x/.ml4w-zh-backups");
    assert_eq!(backup_dir_in(None), ".ml4w-zh-backups");
}

#[test]
fn backup_file_locations() {
    assert_eq!(
        backup_file_for("/home/user/.config/rofi/config.rasi"),
        "/home/user/.config/rofi/.ml4w-zh-backups/config.rasi"
    );
    assert_eq!(backup_file_in(Some("/d"), None, "/d/.."), "/d/..");
    assert_eq!(backup_file_in(None, Some("n"), "n"), ".ml4w-zh-backups/n");
}

#[test]
fn revert_finds_what_backup_stored() {
    let dirs = revert_scan_dirs(HOME);
    for d in &dirs {
        let file = join(d, "x.sh");
        let (bak, target) = revert_paths(d, "x.sh");
        assert_eq!(bak, backup_file_for(&file));
        assert_eq!(target, file);
    }
}

#[test]
fn revert_dirs_in_order() {
    assert_eq!(
        revert_scan_dirs(HOME),
        vec![
            "/home/user/.config/hypr/scripts".to_string(),
            "/home/user/.config/ml4w/scripts".to_string(),
            "/home/user/.config/rofi".to_string(),
            "/home/user/.config/waybar".to_string(),
            "/home/user/.config/hypr/conf/keybindings".to_string(),
        ]
    );
}

#[test]
fn protect_marker_locations() {
    assert_eq!(
        protect_marker_for("/home/user/.config/waybar/config"),
        Some("/home/user/.config/waybar/PROTECTED".to_string())
    );
    assert_eq!(protect_marker_for("/"), None);
    assert_eq!(protect_marker_in(Some("d")), Some("d/PROTECTED".to_string()));
    assert_eq!(protect_marker_in(None), None);
}

#[test]
fn definition_paths() {
    assert_eq!(definitions_dir("/repo"), "/repo/patches/definitions");
    assert_eq!(patches_output_path("/repo"), "/repo/patches/patches.json");
    assert!(is_definition_path("/repo/patches/definitions/waybar.toml"));
    assert!(!is_definition_path("/repo/patches/definitions/README.md"));
    assert!(!is_definition_path("/repo/patches/definitions/toml"));
    assert!(is_definition_file(Some("toml")));
    assert!(!is_definition_file(Some("TOML")));
    assert!(!is_definition_file(None));
}

#[test]
fn affirmative_answers() {
    assert!(is_affirmative("y\n"));
    assert!(is_affirmative("  YES \r\n"));
    assert!(is_affirmative("Yes"));
    assert!(!is_affirmative("n\n"));
    assert!(!is_affirmative(""));
    assert!(!is_affirmative("yess"));
    assert!(is_yes("yes"));
    assert!(!is_yes("Y"));
}

#[test]
fn diff_messages_exact() {
    assert_eq!(
        diff_text("hello\nworld", "hello\nrust"),
        vec!["  L2: -world+rust".to_string()]
    );
    assert_eq!(
        diff_text("a\nb\nc", "a\nb"),
        vec!["  行数差异: 3 vs 2".to_string()]
    );
    assert_eq!(
        diff_text("x\ny", "z\ny\nw"),
        vec!["  L1: -x+z".to_string(), "  行数差异: 2 vs 3".to_string()]
    );
}

#[test]
fn diff_line_endings() {
    assert!(diff_text("a\r\nb\n", "a\nb").is_empty());
    assert_eq!(diff_text("a\r", "a"), vec!["  L1: -a\r+a".to_string()]);
    assert_eq!(diff_text("", "\n"), vec!["  行数差异: 0 vs 1".to_string()]);
    assert!(diff_text("a\n\nb", "a\n\nb").is_empty());
}

#[test]
fn diff_large_line_numbers() {
    let a: String = (0..12).map(|i| format!("{i}\n")).collect();
    let mut b = a.clone();
    b.push_str("extra\n");
    b = b.replace("11\n", "eleven\n");
    assert_eq!(
        diff_text(&a, &b),
        vec![
            "  L12: -11+eleven".to_string(),
            "  行数差异: 12 vs 13".to_string()
        ]
    );
}

#[test]
fn home_fallback() {
    assert_eq!(home_from(Some("/root")), "/root");
    assert_eq!(home_from(None), "/home/danxcheng");
}

#[test]
fn extensions_follow_path_rules() {
    for name in ["a.toml", "a.b.toml", ".bashrc", "..x", "a.", "noext", ".a.toml"] {
        let expected = std::path::Path::new(name)
            .extension()
            .map(|e| e.to_string_lossy().into_owned());
        assert_eq!(extension_in(Some(name)), expected);
    }
    assert_eq!(extension_in(None), None);
    assert!(!is_definition_path("/repo/.toml"));
    assert!(is_definition_path("/repo/a.b.toml"));
}

#[test]
fn trimming_matches_std_trim() {
    for s in ["  y \n", "\u{3000}yes\u{a0}", "", " \t ", "a b", "\u{85}x\u{2029}", "\u{180e}z"] {
        assert_eq!(trimmed(s), s.trim());
    }
}

#[test]
fn expanded_paths_hold_no_tilde() {
    for p in ["~", "~/a~", "b~c", "/x/~"] {
        assert!(!expand(p, HOME).contains('~'));
    }
}
