use ml4w_zh::commands::{check_file, count_patches, first_found, init_plan, ApplyTally, CheckStatus, CheckTally};
use ml4w_zh::patch::{
    apply_one, apply_patches, missing_patches, official_url, validate_file, verify_against_source,
    Patch, PatchFile, ML4W_RAW, PATCHES_URL,
};
use ml4w_zh::text::{chars_of, contains_chars, replace_chars};

fn patch(old: &str, new: &str) -> Patch {
    Patch { old: old.to_string(), new: new.to_string() }
}

fn file(patches: Vec<Patch>) -> PatchFile {
    PatchFile {
        path: "~/.config/waybar/config".to_string(),
        source: "dotfiles/.config/waybar/config".to_string(),
        backup: true,
        protect: false,
        patches,
    }
}

fn replace(s: &str, from: &str, to: &str) -> String {
    let r = replace_chars(&chars_of(s), &chars_of(from), &chars_of(to));
    r.into_iter().collect()
}

#[test]
fn replace_matches_std_replace() {
    for (s, from, to) in [
        ("hello world", "o", "0"),
        ("aaaa", "aa", "b"),
        ("abc", "", "-"),
        ("", "", "-"),
        ("", "x", "y"),
        ("你好世界", "好", "坏"),
        ("abab", "ab", "abab"),
    ] {
        assert_eq!(replace(s, from, to), s.replace(from, to));
    }
}

#[test]
fn contains_matches_std_contains() {
    for (s, pat) in [("hello", "ll"), ("hello", ""), ("", ""), ("", "a"), ("ab", "abc"), ("abc", "bd")] {
        assert_eq!(contains_chars(&chars_of(s), &chars_of(pat)), s.contains(pat));
    }
}

#[test]
fn official_url_joins_source() {
    let pf = file(vec![]);
    assert_eq!(official_url(&pf), format!("{ML4W_RAW}/dotfiles/.config/waybar/config"));
    assert!(PATCHES_URL.ends_with("patches.json"));
}

#[test]
fn verify_statuses() {
    let pf = file(vec![patch("Hello", "你好")]);
    let (s, o) = verify_against_source(&pf, "Hello", "Hello");
    assert_eq!((s.as_str(), o.as_str()), ("match", "Hello"));
    let (s, o) = verify_against_source(&pf, "你好 there", "Hello");
    assert_eq!((s.as_str(), o.as_str()), ("patched", "Hello"));
    let (s, _) = verify_against_source(&pf, "Hi", "Hello");
    assert_eq!(s, "mismatch");
    let empty = file(vec![]);
    let (s, _) = verify_against_source(&empty, "Hi", "Hello");
    assert_eq!(s, "patched");
}

#[test]
fn apply_counts_and_skips() {
    let patches = vec![patch("Apps", "应用"), patch("Quit", "退出"), patch("Gone", "没了")];
    let (content, count) = apply_patches("Apps|Quit|Apps", &patches);
    assert_eq!(content, "应用|退出|应用");
    assert_eq!(count, 2);
    let (again, count2) = apply_patches(&content, &patches);
    assert_eq!(again, content);
    assert_eq!(count2, 0);
}

#[test]
fn apply_skips_present_localization() {
    let patches = vec![patch("a", "b"), patch("b", "c")];
    let (content, count) = apply_patches("ab", &patches);
    assert_eq!(content, "ac");
    assert_eq!(count, 1);
    let (content, count) = apply_patches("aa", &patches);
    assert_eq!(content, "cc");
    assert_eq!(count, 2);
    let (content, count) = apply_patches("bc", &patches);
    assert_eq!(content, "bc");
    assert_eq!(count, 0);
}

#[test]
fn apply_one_localizes_official_file() {
    let pf = file(vec![patch("Apps", "应用")]);
    let plan = apply_one(&pf, false, "Apps\n", "Apps\n");
    assert_eq!(plan.status, "match");
    assert_eq!(plan.content, "应用\n");
    assert_eq!(plan.count, 1);
    assert!(plan.write && plan.backup && !plan.protect);
    assert!(plan.diff.is_empty());
}

#[test]
fn apply_one_preview_changes_nothing() {
    let pf = file(vec![patch("Apps", "应用")]);
    let plan = apply_one(&pf, true, "Apps\n", "Apps\n");
    assert_eq!(plan.count, 1);
    assert!(!plan.write && !plan.backup && !plan.protect);
}

#[test]
fn apply_one_skips_unofficial_file() {
    let pf = file(vec![patch("Apps", "应用")]);
    let plan = apply_one(&pf, true, "My Apps\n", "Apps\n");
    assert_eq!(plan.status, "mismatch");
    assert_eq!(plan.count, 0);
    assert!(!plan.write);
    assert_eq!(plan.diff, vec!["  L1: -Apps+My Apps".to_string()]);
    let plan = apply_one(&pf, false, "My Apps\n", "Apps\n");
    assert!(plan.diff.is_empty());
    assert!(!plan.write && !plan.backup);
    let plan = apply_one(&pf, true, "应用\n", "Apps\n");
    assert_eq!(plan.status, "patched");
    assert!(plan.diff.is_empty());
    assert_eq!(plan.content, "应用\n");
}

#[test]
fn apply_one_nothing_to_replace() {
    let pf = file(vec![patch("Apps", "应用")]);
    let plan = apply_one(&pf, false, "应用 Apps", "应用 Apps");
    assert_eq!(plan.count, 0);
    assert!(!plan.write);
    assert!(plan.backup);
}

#[test]
fn validation_of_definitions() {
    let pf = file(vec![patch("Apps", "应用"), patch("Nope", "不"), patch("Quit", "退出")]);
    assert_eq!(missing_patches("Apps Quit", &pf.patches), vec![1]);
    let v = validate_file(0, &pf, Some("Apps Quit"));
    assert!(v.fetched && !v.passed);
    assert_eq!(v.missing, vec![1]);
    assert_eq!(v.errors, 1);
    let v = validate_file(0, &pf, Some("Apps Nope Quit"));
    assert!(v.passed && v.missing.is_empty() && v.errors == 0);
    let v = validate_file(2, &pf, Some("Apps Nope Quit"));
    assert!(!v.passed);
    assert_eq!(v.errors, 2);
    let v = validate_file(0, &pf, None);
    assert!(!v.fetched && !v.passed);
    assert_eq!(v.errors, 1);
}

#[test]
fn check_states() {
    let pf = file(vec![patch("Apps", "应用")]);
    assert_eq!(check_file(&pf, false, None, None), CheckStatus::Missing);
    assert_eq!(check_file(&pf, true, None, None), CheckStatus::Unreadable);
    assert_eq!(check_file(&pf, true, Some("Apps"), None), CheckStatus::Unreachable);
    assert_eq!(check_file(&pf, true, Some("Apps"), Some("Apps")), CheckStatus::NotLocalized);
    assert_eq!(check_file(&pf, true, Some("应用"), Some("应用")), CheckStatus::Localized);
    assert_eq!(check_file(&pf, true, Some("应用"), Some("Apps")), CheckStatus::NeedsUpdate);
    assert_eq!(check_file(&pf, true, Some("Mine"), Some("Apps")), CheckStatus::Customized);
    let none = file(vec![patch("Apps", "")]);
    assert_eq!(check_file(&none, true, Some("x"), Some("x")), CheckStatus::NotLocalized);
}

#[test]
fn check_tally_counts_each_file_once() {
    let mut t = CheckTally::new();
    for s in [
        CheckStatus::Missing,
        CheckStatus::Unreadable,
        CheckStatus::Unreachable,
        CheckStatus::NotLocalized,
        CheckStatus::Localized,
        CheckStatus::NeedsUpdate,
        CheckStatus::Customized,
    ] {
        t.record(s);
    }
    assert_eq!((t.ok, t.updated, t.outdated, t.missing), (1, 1, 3, 2));
}

#[test]
fn apply_tally_counts() {
    let mut t = ApplyTally::new();
    t.record(Some(3), false);
    t.record(Some(0), false);
    t.record(Some(0), true);
    t.record(None, false);
    assert_eq!((t.total, t.skipped, t.errors), (3, 1, 1));
}

#[test]
fn init_and_generate_helpers() {
    let mut pf = file(vec![patch("a", "b")]);
    assert_eq!(init_plan(&pf, true), (true, false));
    assert_eq!(init_plan(&pf, false), (false, false));
    pf.protect = true;
    assert_eq!(init_plan(&pf, true), (true, true));
    let files = vec![pf, file(vec![patch("c", "d"), patch("e", "f")]), file(vec![])];
    assert_eq!(count_patches(&files), 3);
}

#[test]
fn first_found_picks_earliest() {
    assert_eq!(first_found(&vec![false, true, true]), Some(1));
    assert_eq!(first_found(&vec![true]), Some(0));
    assert_eq!(first_found(&vec![false, false]), None);
    assert_eq!(first_found(&vec![]), None);
}

#[test]
fn apply_leaves_localized_text_alone() {
    let patches = vec![patch("Apps", "应用"), patch("Quit", "退出")];
    let (content, count) = apply_patches("应用 退出 Apps", &patches);
    assert_eq!(content, "应用 退出 Apps");
    assert_eq!(count, 0);
}

#[test]
fn apply_does_not_count_absent_old_text() {
    let patches = vec![patch("x", "y")];
    let (content, count) = apply_patches("a", &patches);
    assert_eq!(content, "a");
    assert_eq!(count, 0);
    let pf = file(vec![patch("x", "y")]);
    let plan = apply_one(&pf, false, "a", "a");
    assert_eq!(plan.count, 0);
    assert_eq!(plan.content, "a");
    assert!(!plan.write);
}
