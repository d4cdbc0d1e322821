use lz::entry::{EntryInfo, EntryKind, Timestamp};
use lz::error::ListError;
use lz::filter::compile_filter;
use lz::format::NameStyle;
use lz::options::ListOptions;
use lz::output::{
    list_filtered, list_path_once, long_table, name_cell, output_entries, short_names, summary_lines, Output,
    SummaryLine, TextBody,
};
use lz::record::{check_printable, error_record, json_record, JsonEntry};
use lz::snapshot::Node;
use lz::summary::{compute_summary, ExtSummary};
use lz::tree::DisplayEntry;

fn entry(name: &str, kind: EntryKind, len: u64) -> EntryInfo {
    EntryInfo {
        name: name.to_string(),
        path: format!("/root/{name}"),
        kind,
        len,
        modified: Some(Timestamp { secs: 1_518_568_087, nanos: 0 }),
        readonly: false,
    }
}

fn file(name: &str, len: u64) -> Node {
    Node::leaf(entry(name, EntryKind::File, len))
}

fn dir(name: &str, children: Vec<Node>) -> Node {
    Node::directory(entry(name, EntryKind::Directory, 4096), children).unwrap()
}

fn line(name: &str, kind: EntryKind, len: u64, prefix: &str, rel: &str) -> DisplayEntry {
    DisplayEntry { entry: entry(name, kind, len), prefix: prefix.to_string(), rel_path: rel.to_string() }
}

fn sample() -> Node {
    dir("root", vec![dir("a", vec![file("b.txt", 2048)]), file("c.RS", 5)])
}

#[test]
fn entries_of_a_record_say_kind_depth_and_time() {
    let json = line("b.txt", EntryKind::File, 3, "    └── ", "a\\sub/b.txt").to_json();
    assert_eq!(
        json,
        JsonEntry {
            rel_path: "a/sub/b.txt".to_string(),
            name: "b.txt".to_string(),
            kind: "file".to_string(),
            size: 3,
            modified: Some("2018-02-14T00:28:07Z".to_string()),
            depth: 1,
        }
    );
    let root = line("root", EntryKind::Directory, 4096, "", ".").to_json();
    assert_eq!(root.kind, "dir");
    assert_eq!(root.depth, 0);
    assert_eq!(root.size, 0);
    assert_eq!(root.rel_path, ".");
    let top = line("l", EntryKind::Symlink, 9, "", "l").to_json();
    assert_eq!(top.kind, "symlink");
    assert_eq!(top.depth, 0);
    assert_eq!(line("x", EntryKind::Other, 9, "", "a/b/c/x").to_json().depth, 3);
    assert_eq!(line("x", EntryKind::Other, 9, "", "a/b/c/x").to_json().kind, "file");
    let mut unknown = line("u", EntryKind::File, 1, "", "u");
    unknown.entry.modified = None;
    assert_eq!(unknown.to_json().modified, None);
}

#[test]
fn a_record_holds_every_line_and_the_summary() {
    let mut options = ListOptions::default();
    options.tree = true;
    options.du = true;
    options.json = true;
    let listing = list_path_once(&sample(), &options).unwrap();
    assert!(check_printable(&listing.entries));
    let record = json_record("/root", &listing.entries, listing.summary.as_ref(), false);
    assert_eq!(record.root, "/root");
    assert_eq!(record.error, None);
    let shown: Vec<(&str, usize)> =
        record.entries.iter().map(|e| (e.rel_path.as_str(), e.depth)).collect();
    assert_eq!(shown, vec![(".", 0), ("a", 0), ("a/b.txt", 1), ("c.RS", 0)]);
    let summary = record.summary.unwrap();
    assert_eq!(summary.total_bytes, 2053);
    assert_eq!(summary.total_files, 2);
    assert_eq!(summary.total_dirs, 1);
    assert_eq!(summary.extensions, None);
}

#[test]
fn a_record_holds_extensions_only_on_request() {
    let summary = compute_summary(&sample(), &ListOptions::default(), None).unwrap();
    assert_eq!(summary.to_json(false).extensions, None);
    assert_eq!(
        summary.to_json(true).extensions,
        Some(vec![
            ("rs".to_string(), ExtSummary { files: 1, bytes: 5 }),
            ("txt".to_string(), ExtSummary { files: 1, bytes: 2048 }),
        ])
    );
}

#[test]
fn a_failed_listing_gives_an_empty_record_with_the_error() {
    let error = ListError::InvalidFilterPattern { pattern: "[".to_string(), detail: "why".to_string() };
    let record = error_record("/root", &error);
    assert_eq!(record.root, "/root");
    assert!(record.entries.is_empty());
    assert_eq!(record.summary, None);
    assert_eq!(record.error, Some("Invalid glob: [: why".to_string()));
}

#[test]
fn times_that_cannot_be_shown_are_found() {
    let mut bad = line("x", EntryKind::File, 1, "", "x");
    bad.entry.modified = Some(Timestamp { secs: -1, nanos: 0 });
    assert!(!bad.printable());
    assert!(!check_printable(&vec![line("a", EntryKind::File, 1, "", "a"), bad]));
    assert!(check_printable(&Vec::new()));
}

#[test]
fn a_listing_without_summary_has_none() {
    let listing = list_path_once(&sample(), &ListOptions::default()).unwrap();
    assert!(listing.summary.is_none());
    let names: Vec<&str> = listing.entries.iter().map(|d| d.entry.name.as_str()).collect();
    assert_eq!(names, vec!["a", "c.RS"]);
}

#[test]
fn a_single_file_is_listed_whatever_the_filter() {
    let mut options = ListOptions::default();
    options.filter = Some("*.rs".to_string());
    options.extensions = true;
    let listing = list_path_once(&file("notes.md", 9), &options).unwrap();
    assert_eq!(listing.entries.len(), 1);
    assert_eq!(listing.entries[0].rel_path, "notes.md");
    assert_eq!(listing.entries[0].prefix, "");
    assert_eq!(listing.summary.unwrap().total_files(), 0);
}

#[test]
fn the_summary_fails_before_the_lines() {
    let locked = Node::unreadable(entry("secret", EntryKind::Directory, 0), "denied".to_string());
    let root = dir("root", vec![dir("sub", vec![locked])]);
    let mut flat = ListOptions::default();
    assert!(list_path_once(&root, &flat).is_ok());
    flat.du = true;
    assert_eq!(
        list_path_once(&root, &flat).unwrap_err(),
        ListError::Io { message: "denied".to_string() }
    );
}

#[test]
fn a_long_table_is_as_wide_as_its_longest_cells() {
    let mut options = ListOptions::default();
    options.long = true;
    let mut second = line("big.bin", EntryKind::File, 123_456, "", "big.bin");
    second.entry.modified = Some(Timestamp { secs: 0, nanos: 7 });
    second.entry.readonly = true;
    let entries = vec![line("src", EntryKind::Directory, 4096, "├── ", "src"), second];
    let table = long_table(&entries, &options);
    assert_eq!(table.rows.len(), 2);
    assert_eq!(table.rows[0].mode, "drw");
    assert_eq!(table.rows[0].size, "0");
    assert_eq!(table.rows[0].time, "2018-02-14T00:28:07Z");
    assert_eq!(table.rows[0].name.prefix, "├── ");
    assert_eq!(table.rows[0].name.text, "src/");
    assert_eq!(table.rows[0].name.style, NameStyle::Directory);
    assert_eq!(table.rows[1].mode, "-r-");
    assert_eq!(table.rows[1].size, "123456");
    assert_eq!(table.rows[1].time, "1970-01-01T00:00:00.000000007Z");
    assert_eq!(table.mode_width, 3);
    assert_eq!(table.size_width, 6);
    assert_eq!(table.time_width, 30);
    options.human = true;
    assert_eq!(long_table(&entries, &options).rows[1].size, "120.6 KiB");
    let empty = long_table(&Vec::new(), &options);
    assert_eq!((empty.mode_width, empty.size_width, empty.time_width), (0, 0, 0));
}

#[test]
fn short_names_keep_prefix_and_style() {
    let options = ListOptions::default();
    let entries = vec![
        line("src", EntryKind::Directory, 0, "├── ", "src"),
        line("run.exe", EntryKind::File, 0, "└── ", "run.exe"),
    ];
    let cells = short_names(&entries, &options);
    assert_eq!(cells.len(), 2);
    assert_eq!(cells[1], name_cell(&entries[1], &options));
    assert_eq!(cells[1].prefix, "└── ");
    assert_eq!(cells[1].text, "run.exe");
    assert_eq!(cells[1].style, NameStyle::Executable);
}

#[test]
fn summary_lines_follow_the_options() {
    let root = dir("root", vec![file("a.txt", 1536), file("b", 10), file("c.txt", 512)]);
    let summary = compute_summary(&root, &ListOptions::default(), None).unwrap();
    let mut options = ListOptions::default();
    assert!(summary_lines(&summary, &options).is_empty());
    options.du = true;
    assert_eq!(
        summary_lines(&summary, &options),
        vec![SummaryLine::Total { bytes: "2.0 KiB".to_string() }]
    );
    options.extensions = true;
    assert_eq!(
        summary_lines(&summary, &options),
        vec![
            SummaryLine::Total { bytes: "2.0 KiB".to_string() },
            SummaryLine::Extension {
                label: "(none)".to_string(),
                files: "1 files".to_string(),
                bytes: "10 B".to_string(),
            },
            SummaryLine::Extension {
                label: ".txt".to_string(),
                files: "2 files".to_string(),
                bytes: "2.0 KiB".to_string(),
            },
        ]
    );
}

#[test]
fn output_is_a_record_or_text() {
    let entries = vec![line("a", EntryKind::File, 1, "", "a")];
    let mut options = ListOptions::default();
    match output_entries("/r", &entries, None, &options) {
        Output::Text { body: TextBody::Short(cells), summary } => {
            assert_eq!(cells.len(), 1);
            assert!(summary.is_empty());
        }
        other => panic!("unexpected output {other:?}"),
    }
    options.long = true;
    assert!(matches!(
        output_entries("/r", &entries, None, &options),
        Output::Text { body: TextBody::Long(_), .. }
    ));
    options.json = true;
    match output_entries("/r", &entries, None, &options) {
        Output::Record(record) => {
            assert_eq!(record.root, "/r");
            assert_eq!(record.entries.len(), 1);
            assert_eq!(record.summary, None);
            assert_eq!(record.error, None);
        }
        other => panic!("unexpected output {other:?}"),
    }
}

#[test]
fn a_malformed_filter_fails_the_listing_before_anything_is_read() {
    let locked = Node::unreadable(entry("root", EntryKind::Directory, 0), "denied".to_string());
    let mut options = ListOptions::default();
    options.filter = Some("[".to_string());
    match list_path_once(&locked, &options).unwrap_err() {
        ListError::InvalidFilterPattern { pattern, .. } => assert_eq!(pattern, "["),
        other => panic!("unexpected error {other:?}"),
    }
    options.filter = Some("*".to_string());
    assert_eq!(
        list_path_once(&locked, &options).unwrap_err(),
        ListError::Io { message: "denied".to_string() }
    );
}

#[test]
fn a_listing_with_a_compiled_filter_is_the_same() {
    let mut options = ListOptions::default();
    options.tree = true;
    options.filter = Some("**/b.txt".to_string());
    let glob = compile_filter(&options).unwrap();
    let one = list_filtered(&sample(), &options, glob.as_ref()).unwrap();
    let other = list_path_once(&sample(), &options).unwrap();
    assert_eq!(one.entries, other.entries);
    assert_eq!(one.entries.len(), 3);
}

fn depth(rel_path: &str) -> usize {
    line("x", EntryKind::File, 1, "", rel_path).to_json().depth
}

#[test]
fn depth_counts_components_not_slashes() {
    assert_eq!(depth("a/"), 0);
    assert_eq!(depth("a//b"), 1);
    assert_eq!(depth("a/./b"), 1);
    assert_eq!(depth("./a"), 1);
    assert_eq!(depth("."), 0);
    assert_eq!(depth(""), 0);
    assert_eq!(depth("a"), 0);
    assert_eq!(depth("a/b"), 1);
    assert_eq!(depth("a/b/"), 1);
    assert_eq!(depth("a/b/."), 1);
    assert_eq!(depth("a/../b"), 2);
    assert_eq!(depth(".."), 0);
    assert_eq!(depth("/a"), 1);
    assert_eq!(depth("/"), 0);
    assert_eq!(depth("/./a/b"), 2);
    assert_eq!(depth(".hidden/.x"), 1);
    assert_eq!(depth("a\\b/c"), 1);
}

#[test]
fn depth_is_that_of_the_components_of_the_path() {
    for rel_path in [
        "a/", "a//b", "a/./b", "./a", "", "a", "a/b/c", "/a", "/", "//a//", "./.", "a/./.", "..",
        "../..", "x/.y/z.", "./", ".a/b", "a/.",
    ] {
        let components = std::path::Path::new(rel_path).components().count();
        assert_eq!(depth(rel_path), components.saturating_sub(1), "path {rel_path:?}");
    }
}
