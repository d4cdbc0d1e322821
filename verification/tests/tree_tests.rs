use lz::entry::{EntryInfo, EntryKind};
use lz::error::ListError;
use lz::filter::compile_filter;
use lz::options::{ListOptions, SortKey};
use lz::snapshot::{read_entries, Node};
use lz::tree::{
    build_display_entries_for_dir, collect_tree_children, join_rel, listed_children,
    printable_children, subtree_has_printables, tree_prefix, DisplayEntry,
};

fn entry(name: &str, kind: EntryKind, len: u64) -> EntryInfo {
    EntryInfo {
        name: name.to_string(),
        path: format!("/root/{name}"),
        kind,
        len,
        modified: None,
        readonly: false,
    }
}

fn file(name: &str, len: u64) -> Node {
    Node::leaf(entry(name, EntryKind::File, len))
}

fn dir(name: &str, children: Vec<Node>) -> Node {
    Node::directory(entry(name, EntryKind::Directory, 4096), children).unwrap()
}

fn locked(name: &str) -> Node {
    Node::unreadable(entry(name, EntryKind::Directory, 4096), format!("Failed to read {name}"))
}

fn tree_options(filter: Option<&str>) -> ListOptions {
    let mut options = ListOptions::default();
    options.tree = true;
    options.filter = filter.map(|p| p.to_string());
    options
}

fn rows(lines: &[DisplayEntry]) -> Vec<(String, String, String)> {
    lines
        .iter()
        .map(|d| (d.prefix.clone(), d.entry.name.clone(), d.rel_path.clone()))
        .collect()
}

fn row(prefix: &str, name: &str, rel: &str) -> (String, String, String) {
    (prefix.to_string(), name.to_string(), rel.to_string())
}

fn sample() -> Node {
    dir("root", vec![dir("a", vec![file("b.txt", 3)]), file("c.txt", 5)])
}

#[test]
fn ghost_ancestors_are_shown_and_nothing_else() {
    let options = tree_options(Some("**/b.txt"));
    let glob = compile_filter(&options).unwrap();
    let lines = build_display_entries_for_dir(&sample(), &options, glob.as_ref()).unwrap();
    assert_eq!(
        rows(&lines),
        vec![row("", "root", "."), row("└── ", "a", "a"), row("    └── ", "b.txt", "a/b.txt")]
    );
    assert!(lines.iter().all(|d| d.entry.name != "c.txt"));
    assert_eq!(lines[1].entry.kind, EntryKind::Directory);
    assert_eq!(lines[2].entry.len, 3);
}

#[test]
fn a_tree_without_filter_shows_everything() {
    let options = tree_options(None);
    let root = dir(
        "root",
        vec![
            file("z.txt", 1),
            dir("b", vec![file("y", 1), dir("inner", vec![file("deep", 1)]), file("x", 1)]),
            dir("a", vec![]),
        ],
    );
    let lines = build_display_entries_for_dir(&root, &options, None).unwrap();
    assert_eq!(
        rows(&lines),
        vec![
            row("", "root", "."),
            row("├── ", "a", "a"),
            row("├── ", "b", "b"),
            row("│   ├── ", "inner", "b/inner"),
            row("│   │   └── ", "deep", "b/inner/deep"),
            row("│   ├── ", "x", "b/x"),
            row("│   └── ", "y", "b/y"),
            row("└── ", "z.txt", "z.txt"),
        ]
    );
}

#[test]
fn only_files_shows_neither_root_nor_ancestors() {
    let mut options = tree_options(None);
    options.only_files = true;
    let lines = build_display_entries_for_dir(&sample(), &options, None).unwrap();
    assert_eq!(rows(&lines), vec![row("└── ", "c.txt", "c.txt")]);
}

#[test]
fn only_dirs_shows_directories_alone() {
    let mut options = tree_options(None);
    options.only_dirs = true;
    let lines = build_display_entries_for_dir(&sample(), &options, None).unwrap();
    assert_eq!(rows(&lines), vec![row("", "root", "."), row("└── ", "a", "a")]);
}

#[test]
fn a_directory_that_matches_is_shown_without_matching_children() {
    let options = tree_options(Some("a"));
    let glob = compile_filter(&options).unwrap();
    let lines = build_display_entries_for_dir(&sample(), &options, glob.as_ref()).unwrap();
    assert_eq!(rows(&lines), vec![row("", "root", "."), row("└── ", "a", "a")]);
}

#[test]
fn hidden_entries_need_all() {
    let root = dir("root", vec![dir(".git", vec![file("config", 1)]), file("a", 1)]);
    let options = tree_options(None);
    let lines = build_display_entries_for_dir(&root, &options, None).unwrap();
    assert_eq!(rows(&lines), vec![row("", "root", "."), row("└── ", "a", "a")]);
    let mut all = tree_options(None);
    all.all = true;
    let lines = build_display_entries_for_dir(&root, &all, None).unwrap();
    assert_eq!(
        rows(&lines),
        vec![
            row("", "root", "."),
            row("├── ", ".git", ".git"),
            row("│   └── ", "config", ".git/config"),
            row("└── ", "a", "a"),
        ]
    );
}

#[test]
fn a_flat_listing_filters_sorted_entries() {
    let mut options = ListOptions::default();
    options.filter = Some("*.txt".to_string());
    let glob = compile_filter(&options).unwrap();
    let root = dir("root", vec![file("b.txt", 1), dir("d.txt", vec![]), file("a.txt", 1), file("c.rs", 1)]);
    let lines = build_display_entries_for_dir(&root, &options, glob.as_ref()).unwrap();
    assert_eq!(
        rows(&lines),
        vec![row("", "d.txt", "d.txt"), row("", "a.txt", "a.txt"), row("", "b.txt", "b.txt")]
    );
}

#[test]
fn a_flat_listing_does_not_look_below() {
    let options = ListOptions::default();
    let root = dir("root", vec![locked("secret"), file("a", 1)]);
    let lines = build_display_entries_for_dir(&root, &options, None).unwrap();
    assert_eq!(rows(&lines), vec![row("", "secret", "secret"), row("", "a", "a")]);
}

#[test]
fn an_unreadable_root_fails() {
    let root = locked("root");
    for tree in [false, true] {
        let mut options = ListOptions::default();
        options.tree = tree;
        let failed = build_display_entries_for_dir(&root, &options, None).unwrap_err();
        assert_eq!(failed, ListError::Io { message: "Failed to read root".to_string() });
    }
}

#[test]
fn an_unreadable_directory_fails_the_tree() {
    let root = dir("root", vec![file("a", 1), dir("sub", vec![locked("secret")])]);
    let failed = build_display_entries_for_dir(&root, &tree_options(None), None).unwrap_err();
    assert_eq!(failed, ListError::Io { message: "Failed to read secret".to_string() });
}

#[test]
fn a_search_stops_at_the_first_find() {
    let options = tree_options(None);
    let found_first = dir("d", vec![file("a", 1), locked("secret")]);
    assert_eq!(subtree_has_printables(&found_first, "d", &options, None), Ok(true));
    let glob_options = tree_options(Some("**/*.txt"));
    let glob = compile_filter(&glob_options).unwrap();
    let failure_first = dir("d", vec![locked("secret"), file("a.txt", 1)]);
    assert_eq!(
        subtree_has_printables(&failure_first, "d", &glob_options, glob.as_ref()),
        Err(ListError::Io { message: "Failed to read secret".to_string() })
    );
    let nothing = dir("d", vec![file("a.rs", 1), dir("e", vec![file("b.rs", 1)])]);
    assert_eq!(subtree_has_printables(&nothing, "d", &glob_options, glob.as_ref()), Ok(false));
    let deep = dir("d", vec![file("a.rs", 1), dir("e", vec![file("b.txt", 1)])]);
    assert_eq!(subtree_has_printables(&deep, "d", &glob_options, glob.as_ref()), Ok(true));
}

#[test]
fn prefixes_draw_the_levels_above() {
    assert_eq!(tree_prefix(&vec![], true), "└── ");
    assert_eq!(tree_prefix(&vec![], false), "├── ");
    assert_eq!(tree_prefix(&vec![true], false), "│   ├── ");
    assert_eq!(tree_prefix(&vec![false], true), "    └── ");
    assert_eq!(tree_prefix(&vec![true, false, true], true), "│       │   └── ");
}

#[test]
fn relative_paths_are_joined_with_slashes() {
    assert_eq!(join_rel("", "a"), "a");
    assert_eq!(join_rel("a", "b"), "a/b");
    assert_eq!(join_rel("a/b", "c.txt"), "a/b/c.txt");
}

#[test]
fn children_are_listed_in_listing_order() {
    let root = dir("root", vec![file("b", 1), file(".h", 1), dir("z", vec![]), file("a", 9)]);
    let mut options = ListOptions::default();
    assert_eq!(listed_children(&root, &options), vec![2, 3, 0]);
    options.all = true;
    assert_eq!(listed_children(&root, &options), vec![2, 1, 3, 0]);
    options.sort = SortKey::Size;
    assert_eq!(listed_children(&root, &options), vec![2, 3, 0, 1]);
    options.reverse = true;
    assert_eq!(listed_children(&root, &options), vec![2, 0, 1, 3]);
}

#[test]
fn printable_children_are_the_kept_positions() {
    let options = tree_options(Some("**/b.txt"));
    let glob = compile_filter(&options).unwrap();
    assert_eq!(printable_children(&sample(), "", &options, glob.as_ref()), Ok(vec![0]));
    assert_eq!(printable_children(&sample(), "", &tree_options(None), None), Ok(vec![0, 1]));
}

#[test]
fn collecting_appends_and_restores_the_levels() {
    let options = tree_options(None);
    let mut out = vec![DisplayEntry {
        entry: entry("kept", EntryKind::File, 0),
        prefix: String::new(),
        rel_path: "kept".to_string(),
    }];
    let mut levels = vec![true];
    let any = collect_tree_children(&sample(), "base", &options, None, &mut levels, &mut out);
    assert_eq!(any, Ok(true));
    assert_eq!(levels, vec![true]);
    assert_eq!(
        rows(&out),
        vec![
            row("", "kept", "kept"),
            row("│   ├── ", "a", "base/a"),
            row("│   │   └── ", "b.txt", "base/a/b.txt"),
            row("│   └── ", "c.txt", "base/c.txt"),
        ]
    );
    let empty = dir("empty", vec![]);
    assert_eq!(
        collect_tree_children(&empty, "", &options, None, &mut levels, &mut out),
        Ok(false)
    );
    assert_eq!(out.len(), 4);
}

#[test]
fn reading_a_directory_gives_its_visible_entries() {
    let root = dir("root", vec![file(".hidden", 1), file("b", 2), dir("a", vec![file("x", 1)])]);
    let shown: Vec<String> =
        read_entries(&root, false).unwrap().into_iter().map(|e| e.name).collect();
    assert_eq!(shown, vec!["b", "a"]);
    assert_eq!(read_entries(&root, true).unwrap().len(), 3);
    assert_eq!(
        read_entries(&locked("x"), true),
        Err(ListError::Io { message: "Failed to read x".to_string() })
    );
}

#[test]
fn nodes_count_their_entries_and_bytes() {
    let root = dir("root", vec![dir("a", vec![file("b.txt", 3)]), file("c.txt", 5)]);
    assert_eq!(root.weight(), 4);
    assert_eq!(root.bytes(), 8);
    assert_eq!(root.children().len(), 2);
    assert_eq!(root.entry().name, "root");
    let link = Node::leaf(entry("l", EntryKind::Symlink, 77));
    assert_eq!(link.weight(), 1);
    assert_eq!(link.bytes(), 0);
}

#[test]
fn a_directory_too_large_to_count_is_none() {
    let huge = vec![file("a", u64::MAX), file("b", 1)];
    assert!(Node::directory(entry("d", EntryKind::Directory, 0), huge).is_none());
    let fits = vec![file("a", u64::MAX - 1), file("b", 1)];
    assert!(Node::directory(entry("d", EntryKind::Directory, 0), fits).is_some());
}

fn find<'a>(root: &'a Node, rel_path: &str) -> Option<&'a Node> {
    let mut at = root;
    for name in rel_path.split('/') {
        at = at.children().iter().find(|child| child.entry().name == name)?;
    }
    Some(at)
}

#[test]
fn relative_paths_lead_back_to_their_entries() {
    let root = dir(
        "root",
        vec![
            file("z.txt", 11),
            dir("b", vec![file("y", 2), dir("inner", vec![file("deep.txt", 33)]), file("x", 4)]),
            dir("a", vec![]),
        ],
    );
    for (tree, filter) in [(true, None), (true, Some("**/*.txt")), (false, None), (false, Some("*"))] {
        let mut options = tree_options(filter);
        options.tree = tree;
        let glob = compile_filter(&options).unwrap();
        let lines = build_display_entries_for_dir(&root, &options, glob.as_ref()).unwrap();
        assert!(!lines.is_empty());
        for line in &lines {
            if line.rel_path == "." {
                assert_eq!(&line.entry, root.entry());
                continue;
            }
            let found = find(&root, &line.rel_path).unwrap();
            assert_eq!(found.entry().kind, line.entry.kind);
            assert_eq!(found.entry().size(), line.entry.size());
            assert_eq!(found.entry(), &line.entry);
        }
    }
}

#[test]
fn an_unreadable_node_says_why() {
    let node = locked("secret");
    assert_eq!(node.read_error(), Some("Failed to read secret".to_string()));
    assert_eq!(dir("d", vec![file("a", 1)]).read_error(), None);
    assert_eq!(Node::leaf(entry("d", EntryKind::Directory, 0)).read_error(), None);
}

#[test]
fn what_is_no_directory_cannot_be_read_as_one() {
    let note = file("a.txt", 1);
    let why =
        || ListError::Io { message: "Failed to read /root/a.txt: Not a directory".to_string() };
    assert_eq!(note.read_error(), Some("Failed to read /root/a.txt: Not a directory".to_string()));
    assert_eq!(read_entries(&note, true), Err(why()));
    for tree in [false, true] {
        let mut options = ListOptions::default();
        options.tree = tree;
        assert_eq!(build_display_entries_for_dir(&note, &options, None), Err(why()));
    }
    let options = tree_options(None);
    assert_eq!(subtree_has_printables(&note, "a.txt", &options, None), Err(why()));
    let mut out = Vec::new();
    let mut levels = Vec::new();
    assert_eq!(
        collect_tree_children(&note, "", &options, None, &mut levels, &mut out),
        Err(why())
    );
    let link = Node::leaf(entry("l", EntryKind::Symlink, 0));
    assert!(read_entries(&link, false).is_err());
    let recorded = Node::unreadable(entry("f", EntryKind::File, 0), "denied".to_string());
    assert_eq!(recorded.read_error(), Some("denied".to_string()));
}
