use code_seek::gitignore::{allowed, Allowed, Listing};
use code_seek::state::{allocate_name, index_path, path_suffix, sanitize, slot_basename, state_root};
use code_seek::walker::{entry_action, first_visit, root_action, sort_paths, EntryAction, RootAction};

fn read(root: &str, listing: &[u8]) -> Allowed {
    match allowed(root, true, listing) {
        Listing::Read(a) => a,
        _ => panic!("listing should be read"),
    }
}

// ── The walk ─────────────────────────────────────────────────────────────────

#[test]
fn single_file_returns_itself() {
    assert_eq!(root_action("/tmp/code_seek_walker_single.c", false, true, false), RootAction::Single);
}

#[test]
fn unsupported_single_file_returns_empty() {
    assert_eq!(root_action("/tmp/code_seek_walker_single.toml", false, true, false), RootAction::Nothing);
}

#[test]
fn directory_root_is_walked() {
    assert_eq!(root_action("/tmp/project", false, false, false), RootAction::Walk);
}

#[test]
fn symlink_single_file_skipped_when_not_following() {
    assert_eq!(root_action("/tmp/link.rs", true, true, false), RootAction::Nothing);
    assert_eq!(root_action("/tmp/link.rs", true, true, true), RootAction::Single);
}

#[test]
fn ignores_git_and_code_seek() {
    let none: Vec<String> = vec![];
    assert_eq!(entry_action("/p/.git", false, true, &none, false, None), EntryAction::Skip);
    assert_eq!(entry_action("/p/.code-seek", false, true, &none, false, None), EntryAction::Skip);
    assert_eq!(entry_action("/p/src", false, true, &none, false, None), EntryAction::Descend);
}

#[test]
fn ignore_dirs_case_sensitive() {
    let ignore = vec!["target".to_string()];
    assert_eq!(entry_action("/p/target", false, true, &ignore, false, None), EntryAction::Skip);
    assert_eq!(entry_action("/p/Target", false, true, &ignore, false, None), EntryAction::Descend);
}

#[test]
fn skips_unsupported_extensions() {
    let none: Vec<String> = vec![];
    assert_eq!(entry_action("/p/main.rs", false, false, &none, false, None), EntryAction::Collect);
    assert_eq!(entry_action("/p/Makefile", false, false, &none, false, None), EntryAction::Skip);
    assert_eq!(entry_action("/p/README.md", false, false, &none, false, None), EntryAction::Skip);
}

#[test]
fn symlinked_entries_are_skipped_unless_followed() {
    let none: Vec<String> = vec![];
    assert_eq!(entry_action("/p/link.rs", true, false, &none, false, None), EntryAction::Skip);
    assert_eq!(entry_action("/p/link.rs", true, false, &none, true, None), EntryAction::Collect);
}

#[test]
fn git_verdict_prunes_directories_and_files() {
    let a = read("/p", b".gitignore\0shown.rs\0");
    let none: Vec<String> = vec![];
    assert_eq!(entry_action("/p/shown.rs", false, false, &none, false, Some(&a)), EntryAction::Collect);
    assert_eq!(entry_action("/p/hidden.rs", false, false, &none, false, Some(&a)), EntryAction::Skip);
    assert_eq!(entry_action("/p/vendored", false, true, &none, false, Some(&a)), EntryAction::Skip);
    assert_eq!(entry_action("/p/hidden.rs", false, false, &none, false, None), EntryAction::Collect);
}

#[test]
fn a_directory_is_visited_once() {
    let mut visited: Vec<String> = vec![];
    assert!(first_visit(&mut visited, "/p/a".to_string()));
    assert!(first_visit(&mut visited, "/p/b".to_string()));
    assert!(!first_visit(&mut visited, "/p/a".to_string()));
    assert_eq!(visited, vec!["/p/a".to_string(), "/p/b".to_string()]);
}

#[test]
fn files_come_out_in_path_order() {
    let files = vec!["/p/src/b.rs".to_string(), "/p/a.rs".to_string(), "/p/src/a.rs".to_string()];
    assert_eq!(
        sort_paths(files),
        vec!["/p/a.rs".to_string(), "/p/src/a.rs".to_string(), "/p/src/b.rs".to_string()]
    );
    assert!(sort_paths(vec![]).is_empty());
}

// ── Git's answer ─────────────────────────────────────────────────────────────

#[test]
fn ignored_file_is_not_allowed() {
    let a = read("/r", b"shown.rs\0.gitignore\0");
    assert!(a.allows_file("/r/shown.rs"));
    assert!(!a.allows_file("/r/hidden.rs"));
}

#[test]
fn ignored_directory_is_not_allowed() {
    let a = read("/r", b"kept/main.rs\0.gitignore\0");
    assert!(a.allows_directory("/r/kept"));
    assert!(a.allows_directory("/r"));
    assert!(!a.allows_directory("/r/vendored"));
}

#[test]
fn outside_a_repository_there_is_no_answer() {
    assert!(matches!(allowed("/r", false, b"main.rs\0"), Listing::Unavailable));
}

#[test]
fn non_utf8_entry_spoils_the_listing() {
    assert!(matches!(allowed("/r", true, b"ok.rs\0bad\xff.rs\0"), Listing::NotUtf8));
}

#[test]
fn empty_listing_allows_nothing() {
    let a = read("/r", b"");
    assert!(!a.allows_file("/r/main.rs"));
    assert!(!a.allows_directory("/r"));
}

// ── The state directory ──────────────────────────────────────────────────────

#[test]
fn first_project_uses_basename() {
    let mut index: Vec<(String, String)> = vec![];
    let (name, changed) = allocate_name(&mut index, "/home/u/myproj");
    assert_eq!(name, "myproj");
    assert!(changed);
    assert_eq!(index, vec![("/home/u/myproj".to_string(), "myproj".to_string())]);
}

#[test]
fn colliding_basenames_get_a_suffix() {
    let mut index: Vec<(String, String)> = vec![];
    let (na, _) = allocate_name(&mut index, "/r/a/app");
    let (nb, changed_b) = allocate_name(&mut index, "/r/b/app");
    assert_eq!(na, "app");
    assert_ne!(nb, na);
    assert!(nb.starts_with("app-"));
    assert_eq!(nb, format!("app-{}", path_suffix("/r/b/app")));
    assert!(changed_b);
    let (na2, changed_again) = allocate_name(&mut index, "/r/a/app");
    assert_eq!(na2, na);
    assert!(!changed_again);
    assert_eq!(index.len(), 2);
}

#[test]
fn path_suffix_is_eight_hex_digits_of_the_digest() {
    // SHA-256("abc") starts with ba7816bf.
    assert_eq!(path_suffix("abc"), "ba7816bf");
}

#[test]
fn slot_names_are_sanitized() {
    assert_eq!(sanitize("my proj!"), "my_proj_");
    assert_eq!(sanitize("ok-name_1.2"), "ok-name_1.2");
    assert_eq!(sanitize("é"), "_");
    assert_eq!(slot_basename("/home/u/my proj"), "my_proj");
    assert_eq!(slot_basename("/"), "project");
}

#[test]
fn state_root_prefers_xdg_then_home() {
    assert_eq!(state_root(Some("/x".into()), Some("/h".into())), Some("/x/code-seek".to_string()));
    assert_eq!(state_root(Some("".into()), Some("/h".into())), Some("/h/.local/state/code-seek".to_string()));
    assert_eq!(state_root(None, Some("/h".into())), Some("/h/.local/state/code-seek".to_string()));
    assert_eq!(state_root(None, None), None);
    assert_eq!(index_path("/x/code-seek"), "/x/code-seek/index.json");
}
