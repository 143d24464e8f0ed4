use pathwrap::cache::{needs_wrap, CanonTable, TempFileSet};
use pathwrap::digits::{push_dec, push_hex_min2};
use pathwrap::invoke::resolve_wrapped;
use pathwrap::pathmodel::{join_path, split_path, str_eq};
use pathwrap::registry::AliasRegistry;
use pathwrap::rewriter::{is_flag, rewrite_args};
use pathwrap::translit::{make_base, transliterate};

#[test]
fn decimal_rendering() {
    let mut s = String::new();
    push_dec(&mut s, 0);
    assert_eq!(s, "0");
    let mut s = String::new();
    push_dec(&mut s, 305);
    assert_eq!(s, "305");
    let mut s = String::new();
    push_dec(&mut s, 10);
    assert_eq!(s, "10");
}

#[test]
fn hex_rendering_min_two_digits() {
    let mut s = String::new();
    push_hex_min2(&mut s, 0x0A);
    assert_eq!(s, "0A");
    let mut s = String::new();
    push_hex_min2(&mut s, 0x7E);
    assert_eq!(s, "7E");
    let mut s = String::new();
    push_hex_min2(&mut s, 0x540D);
    assert_eq!(s, "540D");
    let mut s = String::new();
    push_hex_min2(&mut s, 0);
    assert_eq!(s, "00");
}

#[test]
fn transliterate_escapes_non_ascii() {
    assert_eq!(transliterate("名前"), "x540Dx524D");
    assert_eq!(transliterate(""), "");
    assert_eq!(transliterate("plain"), "plain");
}

#[test]
fn transliterate_never_emits_tilde() {
    // The tilde itself is escaped, so no output character is a tilde.
    let out = transliterate("a~b");
    assert_eq!(out, "ax7Eb");
    assert!(!out.contains('~'));
    assert!(!transliterate("名~前").contains('~'));
}

#[test]
fn base_truncates_after_transliteration() {
    assert_eq!(make_base("これはとても長いディレクトリ名"), "x3053x308Cx306Fx3068");
    assert_eq!(make_base("short"), "short");
    assert_eq!(make_base("abcdefghijklmnopqrstuvwxy"), "abcdefghijklmnopqrst");
}

#[test]
fn collision_suffixes_in_first_seen_order() {
    let mut reg = AliasRegistry::new();
    let a1 = reg.generate("データ").unwrap();
    let a2 = reg.generate("データ").unwrap();
    let a3 = reg.generate("データ").unwrap();
    assert_eq!(a1, "x30C7x30FCx30BF");
    assert_eq!(a2, "x30C7x30FCx30BF~1");
    assert_eq!(a3, "x30C7x30FCx30BF~2");
}

#[test]
fn collision_after_truncation_is_disambiguated() {
    let mut reg = AliasRegistry::new();
    let a1 = reg.generate("abcdefghijklmnopqrstUVW").unwrap();
    let a2 = reg.generate("abcdefghijklmnopqrstXYZ").unwrap();
    assert_eq!(a1, "abcdefghijklmnopqrst");
    assert_eq!(a2, "abcdefghijklmnopqrst~1");
}

#[test]
fn split_path_cases() {
    let (name, parent) = split_path("C:\\Users\\名前\\file.txt");
    assert_eq!(name.unwrap(), "file.txt");
    assert_eq!(parent.unwrap(), "C:\\Users\\名前");
    let (name, parent) = split_path("noseparator");
    assert_eq!(name.unwrap(), "noseparator");
    assert!(parent.is_none());
    let (name, parent) = split_path("");
    assert!(name.is_none());
    assert!(parent.is_none());
}

#[test]
fn split_path_edge_components() {
    // trailing separators are ignored
    let (name, parent) = split_path("dir\\sub\\");
    assert_eq!(name.unwrap(), "sub");
    assert_eq!(parent.unwrap(), "dir");
    let (name, parent) = split_path("dir\\");
    assert_eq!(name.unwrap(), "dir");
    assert!(parent.is_none());
    // relative final components are no file name
    let (name, parent) = split_path("a\\..");
    assert!(name.is_none());
    assert_eq!(parent.unwrap(), "a");
    let (name, parent) = split_path("a\\.");
    assert!(name.is_none());
    assert_eq!(parent.unwrap(), "a");
    let (name, parent) = split_path("..");
    assert!(name.is_none());
    assert!(parent.is_none());
    let (name, parent) = split_path("\\\\");
    assert!(name.is_none());
    assert!(parent.is_none());
}

#[test]
fn join_and_eq_helpers() {
    assert_eq!(join_path("a", "b"), "a\\b");
    assert!(str_eq("同じ", "同じ"));
    assert!(!str_eq("a", "b"));
    assert!(!str_eq("a", "ab"));
    assert!(is_flag("-I"));
    assert!(!is_flag("file.txt"));
    assert!(!is_flag(""));
}

#[test]
fn short_ascii_path_unchanged() {
    let mut set = TempFileSet::new();
    let canons = CanonTable::new();
    let out = set.wrap("C:\\short\\path.txt", &canons, "WS").unwrap();
    assert_eq!(out.new_path, "C:\\short\\path.txt");
    assert!(out.link.is_none());
}

#[test]
fn path_without_file_name_unchanged() {
    // a path whose final component is `..` has no file name to re-anchor
    let mut set = TempFileSet::new();
    let mut canons = CanonTable::new();
    canons.push("名前".to_string(), Some("C:\\somewhere\\名前".to_string()));
    let out = set.wrap("名前\\..", &canons, "WS").unwrap();
    assert_eq!(out.new_path, "名前\\..");
    assert!(out.link.is_none());
}

#[test]
fn trailing_separator_ignored_when_wrapping() {
    // "dir名\sub\" names the same file as "dir名\sub": the trailing
    // separator is dropped and the path is rewritten like any other
    let mut set = TempFileSet::new();
    let mut canons = CanonTable::new();
    canons.push("dir名".to_string(), Some("C:\\apart\\dir名".to_string()));
    let out = set.wrap("dir名\\sub\\", &canons, "WS").unwrap();
    assert_eq!(out.new_path, "WS\\dirx540D\\sub");
    assert!(out.link.is_some());
}

#[test]
fn wrap_need_is_decided_by_the_library() {
    let mut canons = CanonTable::new();
    let set = TempFileSet::new();
    // short ASCII, no recorded parent: nothing to do
    assert!(!needs_wrap("C:\\short\\p.txt", &canons));
    assert!(!needs_wrap("dir名\\a.txt", &canons));
    canons.push("dir名".to_string(), Some("C:\\apart\\dir名".to_string()));
    assert!(needs_wrap("dir名\\a.txt", &canons));
    assert!(set.needs_workspace("dir名\\a.txt", &canons));
    // a canonical parent without a final component is used as it stands:
    // no alias, no workspace
    canons.push("root名".to_string(), Some("\\".to_string()));
    assert!(needs_wrap("root名\\a.txt", &canons));
    assert!(!set.needs_workspace("root名\\a.txt", &canons));
}

#[test]
fn flags_only_batch_creates_no_links() {
    let mut set = TempFileSet::new();
    let canons = CanonTable::new();
    let args: Vec<String> = vec!["-a".to_string(), "-b名".to_string(), "short.txt".to_string()];
    let plan = rewrite_args(&mut set, &args, &canons, "WS").unwrap();
    assert_eq!(plan.new_args, args);
    assert_eq!(plan.links.len(), 0);
}

#[test]
fn path_without_parent_unchanged() {
    let mut set = TempFileSet::new();
    let canons = CanonTable::new();
    let out = set.wrap("名前", &canons, "WS").unwrap();
    assert_eq!(out.new_path, "名前");
    assert!(out.link.is_none());
}

#[test]
fn unresolved_parent_unchanged_and_no_link() {
    // The parent directory does not exist: canonicalization failed, so the
    // table records no canonical form and the path passes through.
    let mut set = TempFileSet::new();
    let mut canons = CanonTable::new();
    canons.push("C:\\missing".to_string(), None);
    let out = set.wrap("C:\\missing\\ファイル.txt", &canons, "WS").unwrap();
    assert_eq!(out.new_path, "C:\\missing\\ファイル.txt");
    assert!(out.link.is_none());
}

#[test]
fn two_files_share_one_alias_and_one_link() {
    let mut set = TempFileSet::new();
    let mut canons = CanonTable::new();
    canons.push("dir名".to_string(), Some("C:\\very\\long\\dir名".to_string()));
    let first = set.wrap("dir名\\a.txt", &canons, "WS").unwrap();
    let second = set.wrap("dir名\\b.txt", &canons, "WS").unwrap();
    assert_eq!(first.new_path, "WS\\dirx540D\\a.txt");
    assert_eq!(second.new_path, "WS\\dirx540D\\b.txt");
    // the first wrap requests the one link; the second reuses it
    let link = first.link.unwrap();
    assert_eq!(link.link_path, "WS\\dirx540D");
    assert_eq!(link.target, "C:\\very\\long\\dir名");
    assert!(second.link.is_none());
}

#[test]
fn same_directory_linked_once_across_spellings() {
    // Two textual parents resolving to the same canonical directory share
    // one alias.
    let mut set = TempFileSet::new();
    let mut canons = CanonTable::new();
    canons.push("dir名".to_string(), Some("C:\\deep\\dir名".to_string()));
    canons.push("sub\\..\\dir名".to_string(), Some("C:\\deep\\dir名".to_string()));
    let first = set.wrap("dir名\\a.txt", &canons, "WS").unwrap();
    let second = set.wrap("sub\\..\\dir名\\b.txt", &canons, "WS").unwrap();
    assert!(first.link.is_some());
    assert!(second.link.is_none());
    assert_eq!(first.new_path, "WS\\dirx540D\\a.txt");
    assert_eq!(second.new_path, "WS\\dirx540D\\b.txt");
}

#[test]
fn distinct_directories_same_base_get_distinct_aliases() {
    let mut set = TempFileSet::new();
    let mut canons = CanonTable::new();
    canons.push("one\\データ".to_string(), Some("C:\\one\\データ".to_string()));
    canons.push("two\\データ".to_string(), Some("C:\\two\\データ".to_string()));
    let first = set.wrap("one\\データ\\a.txt", &canons, "WS").unwrap();
    let second = set.wrap("two\\データ\\b.txt", &canons, "WS").unwrap();
    assert_eq!(first.new_path, "WS\\x30C7x30FCx30BF\\a.txt");
    assert_eq!(second.new_path, "WS\\x30C7x30FCx30BF~1\\b.txt");
}

#[test]
fn rewrite_preserves_order_and_count() {
    let mut set = TempFileSet::new();
    let mut canons = CanonTable::new();
    canons.push("dir名".to_string(), Some("C:\\elsewhere\\dir名".to_string()));
    let args: Vec<String> = vec![
        "-v".to_string(),
        "dir名\\in.txt".to_string(),
        "plain.txt".to_string(),
        "-o".to_string(),
        "dir名\\out.txt".to_string(),
    ];
    let plan = rewrite_args(&mut set, &args, &canons, "WS").unwrap();
    assert_eq!(plan.new_args.len(), 5);
    assert_eq!(plan.new_args[0], "-v");
    assert_eq!(plan.new_args[1], "WS\\dirx540D\\in.txt");
    assert_eq!(plan.new_args[2], "plain.txt");
    assert_eq!(plan.new_args[3], "-o");
    assert_eq!(plan.new_args[4], "WS\\dirx540D\\out.txt");
    assert_eq!(plan.links.len(), 1);
    assert_eq!(plan.links[0].target, "C:\\elsewhere\\dir名");
}

#[test]
fn long_non_ascii_argument_rewritten_flag_skipped() {
    // One argument over the length threshold with non-ASCII components, and
    // one flag-shaped argument carrying a long path: the first is rewritten
    // under a short ASCII alias, the flag is skipped whole.
    let mut long_dir = String::from("これはとても長いディレクトリ名");
    for _ in 0..20 {
        long_dir.push_str("ながい");
    }
    let parent = format!("C:\\Users\\名前\\{long_dir}");
    let path = format!("{parent}\\file.txt");
    assert!(path.chars().count() >= 250 || !path.is_ascii());
    let flagged = format!("-IC:\\Users\\名前\\{long_dir}");

    let mut set = TempFileSet::new();
    let mut canons = CanonTable::new();
    canons.push(parent.clone(), Some(parent.clone()));
    let args: Vec<String> = vec![path.clone(), flagged.clone()];
    let plan = rewrite_args(&mut set, &args, &canons, "WS").unwrap();
    assert_eq!(plan.new_args.len(), 2);
    assert_eq!(plan.new_args[0], "WS\\x3053x308Cx306Fx3068\\file.txt");
    assert_eq!(plan.new_args[1], flagged);
    let alias = "x3053x308Cx306Fx3068";
    assert!(alias.len() <= 20 && alias.is_ascii());
    assert_eq!(plan.links.len(), 1);
    assert_eq!(plan.links[0].target, parent);
}

#[test]
fn link_step_idempotent_per_directory() {
    let mut set = TempFileSet::new();
    let (a1, r1) = set.link_dir("C:\\深い\\場所", "WS").unwrap();
    let (a2, r2) = set.link_dir("C:\\深い\\場所", "WS").unwrap();
    assert_eq!(a1, "WS\\x5834x6240");
    assert_eq!(a1, a2);
    assert!(r1.is_some());
    assert!(r2.is_none());
}

#[test]
fn link_step_uses_directory_without_name_as_is() {
    // a directory without a usable final component (here a root) cannot be
    // given an alias name and is used as it stands
    let mut set = TempFileSet::new();
    let (alias, request) = set.link_dir("\\", "WS").unwrap();
    assert_eq!(alias, "\\");
    assert!(request.is_none());
}

#[test]
fn argv0_mode_resolution() {
    assert_eq!(resolve_wrapped("C:\\tools\\cl-pathwrap.exe").unwrap(), "C:\\tools\\cl.exe");
    assert_eq!(resolve_wrapped("cl-pathwrap").unwrap(), "cl");
    assert_eq!(resolve_wrapped("prog-pathwrap.exe").unwrap(), "prog.exe");
    assert!(resolve_wrapped("C:\\tools\\cl.exe").is_none());
    assert!(resolve_wrapped("C:\\tools\\").is_none());
    assert!(resolve_wrapped("pathwrap").is_none());
}
