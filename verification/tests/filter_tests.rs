use lz::entry::{extension_of, is_hidden, shown_entries, EntryInfo, EntryKind};
use lz::error::ListError;
use lz::filter::{compile_filter, normalize_match_path, should_print_entry};
use lz::options::ListOptions;

fn entry(name: &str, kind: EntryKind) -> EntryInfo {
    EntryInfo {
        name: name.to_string(),
        path: name.to_string(),
        kind,
        len: 1,
        modified: None,
        readonly: false,
    }
}

fn with_filter(pattern: &str) -> ListOptions {
    let mut options = ListOptions::default();
    options.filter = Some(pattern.to_string());
    options
}

#[test]
fn no_filter_compiles_to_no_glob() {
    let compiled = compile_filter(&ListOptions::default());
    assert!(matches!(compiled, Ok(None)));
}

#[test]
fn a_glob_keeps_its_pattern() {
    let compiled = compile_filter(&with_filter("**/*.rs")).unwrap().unwrap();
    assert_eq!(compiled.pattern(), "**/*.rs");
    assert!(compiled.is_match("src/main.rs"));
    assert!(!compiled.is_match("src/main.py"));
}

#[test]
fn a_malformed_glob_is_refused() {
    let refused = compile_filter(&with_filter("[a")).unwrap_err();
    match &refused {
        ListError::InvalidFilterPattern { pattern, detail } => {
            assert_eq!(pattern, "[a");
            assert!(!detail.is_empty());
            assert_ne!(detail, "[a");
            assert_eq!(refused.message(), format!("Invalid glob: [a: {detail}"));
        }
        other => panic!("unexpected error {other:?}"),
    }
    assert!(compile_filter(&with_filter("{a,b")).is_err());
    assert!(compile_filter(&with_filter("a}")).is_err());
}

#[test]
fn io_errors_show_their_message() {
    let error = ListError::Io { message: "Failed to read /x".to_string() };
    assert_eq!(error.message(), "Failed to read /x");
}

#[test]
fn entries_pass_without_a_filter() {
    let options = ListOptions::default();
    assert!(should_print_entry(&entry("a", EntryKind::File), "a", &options, None));
    assert!(should_print_entry(&entry("d", EntryKind::Directory), "d", &options, None));
}

#[test]
fn only_dirs_and_only_files_restrict_by_kind() {
    let mut only_dirs = ListOptions::default();
    only_dirs.only_dirs = true;
    assert!(should_print_entry(&entry("d", EntryKind::Directory), "d", &only_dirs, None));
    assert!(!should_print_entry(&entry("f", EntryKind::File), "f", &only_dirs, None));
    assert!(!should_print_entry(&entry("l", EntryKind::Symlink), "l", &only_dirs, None));

    let mut only_files = ListOptions::default();
    only_files.only_files = true;
    assert!(!should_print_entry(&entry("d", EntryKind::Directory), "d", &only_files, None));
    assert!(should_print_entry(&entry("f", EntryKind::File), "f", &only_files, None));
    assert!(should_print_entry(&entry("l", EntryKind::Symlink), "l", &only_files, None));
}

#[test]
fn both_restrictions_together_pass_nothing() {
    let mut both = ListOptions::default();
    both.only_dirs = true;
    both.only_files = true;
    assert!(!should_print_entry(&entry("d", EntryKind::Directory), "d", &both, None));
    assert!(!should_print_entry(&entry("f", EntryKind::File), "f", &both, None));
}

#[test]
fn the_glob_sees_the_relative_path_with_slashes() {
    let options = with_filter("src/*.rs");
    let glob = compile_filter(&options).unwrap().unwrap();
    let file = entry("main.rs", EntryKind::File);
    assert!(should_print_entry(&file, "src/main.rs", &options, Some(&glob)));
    assert!(should_print_entry(&file, "src\\main.rs", &options, Some(&glob)));
    assert!(!should_print_entry(&file, "lib/main.rs", &options, Some(&glob)));
    assert!(!should_print_entry(&file, "main.rs", &options, Some(&glob)));
}

#[test]
fn the_kind_is_tested_before_the_glob() {
    let mut options = with_filter("*");
    options.only_dirs = true;
    let glob = compile_filter(&options).unwrap().unwrap();
    assert!(!should_print_entry(&entry("f", EntryKind::File), "f", &options, Some(&glob)));
    assert!(should_print_entry(&entry("d", EntryKind::Directory), "d", &options, Some(&glob)));
}

#[test]
fn match_paths_have_slashes_only() {
    assert_eq!(normalize_match_path("a\\b\\c.txt"), "a/b/c.txt");
    assert_eq!(normalize_match_path("a/b"), "a/b");
    assert_eq!(normalize_match_path(""), "");
    assert_eq!(normalize_match_path("\\"), "/");
}

#[test]
fn hidden_names_start_with_a_dot() {
    assert!(is_hidden(".git"));
    assert!(is_hidden("."));
    assert!(!is_hidden("a.b"));
    assert!(!is_hidden(""));
}

#[test]
fn hidden_entries_are_shown_only_with_all() {
    let raw = vec![
        entry(".git", EntryKind::Directory),
        entry("src", EntryKind::Directory),
        entry(".env", EntryKind::File),
        entry("a.txt", EntryKind::File),
    ];
    let shown: Vec<String> = shown_entries(&raw, false).into_iter().map(|e| e.name).collect();
    assert_eq!(shown, vec!["src", "a.txt"]);
    assert_eq!(shown_entries(&raw, true), raw);
}

#[test]
fn extensions_follow_the_last_dot() {
    assert_eq!(extension_of("a.txt"), "txt");
    assert_eq!(extension_of("a.tar.GZ"), "GZ");
    assert_eq!(extension_of("Makefile"), "");
    assert_eq!(extension_of(".bashrc"), "");
    assert_eq!(extension_of(".config.toml"), "toml");
    assert_eq!(extension_of("trailing."), "");
    assert_eq!(extension_of(".."), "");
    assert_eq!(extension_of(""), "");
}

#[test]
fn a_glob_nested_too_deep_is_refused() {
    let deep = format!("{}a{}", "{".repeat(300), "}".repeat(300));
    match compile_filter(&with_filter(&deep)).unwrap_err() {
        ListError::InvalidFilterPattern { pattern, detail } => {
            assert_eq!(pattern, deep);
            assert!(!detail.is_empty());
        }
        other => panic!("unexpected error {other:?}"),
    }
    let shallow = format!("{}a,b{}", "{".repeat(3), "}".repeat(3));
    let glob = compile_filter(&with_filter(&shallow)).unwrap().unwrap();
    assert!(glob.is_match("a"));
    assert!(glob.is_match("b"));
    assert!(!glob.is_match("c"));
}

#[test]
fn long_patterns_are_globs_like_any_other() {
    let long = "a".repeat(5000);
    let glob = compile_filter(&with_filter(&long)).unwrap().unwrap();
    assert!(glob.is_match(&long));
    assert!(!glob.is_match("a"));
    let longer = format!("**/{}*.txt", "b".repeat(300_000));
    let glob = compile_filter(&with_filter(&longer)).unwrap().unwrap();
    assert!(glob.is_match(&format!("x/{}c.txt", "b".repeat(300_000))));
    assert!(!glob.is_match("x/bc.txt"));
    let wide = "é".repeat(4096);
    assert!(compile_filter(&with_filter(&wide)).is_ok());
}

#[test]
fn a_pattern_beyond_what_can_be_counted_is_refused() {
    let too_long = "a".repeat(0x1000_0001);
    match compile_filter(&with_filter(&too_long)) {
        Err(ListError::InvalidFilterPattern { pattern, detail }) => {
            assert_eq!(pattern.len(), too_long.len());
            assert_eq!(detail, "the pattern is longer than 268435456 characters");
        }
        other => panic!("unexpected outcome, refused: {}", other.is_err()),
    }
}

#[test]
fn the_refusal_is_in_the_words_of_the_glob_library() {
    match compile_filter(&with_filter("a[")).unwrap_err() {
        ListError::InvalidFilterPattern { detail, .. } => {
            assert!(detail.contains("a["), "detail {detail:?}");
            assert!(detail.contains("unclosed character class"), "detail {detail:?}");
        }
        other => panic!("unexpected error {other:?}"),
    }
}

#[test]
fn globs_of_every_shape_match_as_paths() {
    for (pattern, yes, no) in [
        ("*.txt", "a/b.txt", "a/b.rs"),
        ("notes.md", "notes.md", "a/notes.md"),
        ("**/notes.md", "a/b/notes.md", "a/b/notes.mdx"),
        ("src/**", "src/a/b.rs", "lib/a.rs"),
        ("**/*.rs", "a/b/c.rs", "a/b/c.rsx"),
        ("**/target/**", "a/target/b", "a/targets/b"),
        ("[ab]?c", "axc", "cxc"),
        ("{x,y}/*.md", "y/z.md", "w/z.md"),
        ("\\*", "*", "a"),
    ] {
        let glob = compile_filter(&with_filter(pattern)).unwrap().unwrap();
        assert!(glob.is_match(yes), "{pattern} should match {yes}");
        assert!(!glob.is_match(no), "{pattern} should not match {no}");
    }
}

#[test]
fn demanding_patterns_compile_or_are_refused() {
    let nested = format!("{}a{}", "{".repeat(2047), "}".repeat(2047));
    assert!(compile_filter(&with_filter(&nested)).is_err());
    for pattern in [
        "*".repeat(4096),
        "{a,b}".repeat(819),
        "[a-z]".repeat(819),
        "**/".repeat(1365),
        format!("{}/**", "p".repeat(4093)),
        format!("**/{}", "s".repeat(4093)),
        "?".repeat(4096),
    ] {
        match compile_filter(&with_filter(&pattern)) {
            Ok(glob) => {
                let glob = glob.unwrap();
                assert_eq!(glob.pattern(), pattern);
                for path in ["", "a", "p/q/r.txt", "nothing like it"] {
                    assert_eq!(glob.is_match(path), glob.is_match(path));
                }
            }
            Err(ListError::InvalidFilterPattern { pattern: refused, detail }) => {
                assert_eq!(refused, pattern);
                assert!(!detail.is_empty());
            }
            Err(other) => panic!("unexpected error {other:?}"),
        }
    }
}
