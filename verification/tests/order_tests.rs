use lz::entry::{EntryInfo, EntryKind, Timestamp};
use lz::options::SortKey;
use lz::order::{compare_entries, sort_entries, sort_order};
use lz::text::{compare_text, Rank};

fn entry(name: &str, kind: EntryKind, len: u64) -> EntryInfo {
    EntryInfo {
        name: name.to_string(),
        path: format!("/tmp/{name}"),
        kind,
        len,
        modified: None,
        readonly: false,
    }
}

fn aged(name: &str, secs: Option<i64>) -> EntryInfo {
    let mut e = entry(name, EntryKind::File, 0);
    e.modified = secs.map(|secs| Timestamp { secs, nanos: 0 });
    e
}

fn names(entries: &[EntryInfo]) -> Vec<&str> {
    entries.iter().map(|e| e.name.as_str()).collect()
}

#[test]
fn sort_dirs_first() {
    let file = entry("bfile", EntryKind::File, 1);
    let dir = entry("adir", EntryKind::Directory, 0);

    let mut entries = vec![file, dir];
    sort_entries(&mut entries, SortKey::Name, false);

    assert!(entries[0].is_dir());
    assert!(!entries[1].is_dir());
}

#[test]
fn directories_stay_first_for_every_key_and_direction() {
    let input = vec![
        entry("zeta.txt", EntryKind::File, 900),
        entry("alpha", EntryKind::Directory, 4096),
        entry("Beta.txt", EntryKind::File, 5),
        entry("omega", EntryKind::Directory, 4096),
        entry("link", EntryKind::Symlink, 3),
    ];
    for key in [SortKey::Name, SortKey::Size, SortKey::Age] {
        for reverse in [false, true] {
            let mut entries = input.clone();
            sort_entries(&mut entries, key, reverse);
            assert_eq!(entries.len(), input.len());
            let first_other = entries.iter().position(|e| !e.is_dir()).unwrap();
            assert_eq!(first_other, 2);
            assert!(entries[first_other..].iter().all(|e| !e.is_dir()));
        }
    }
}

#[test]
fn names_are_ordered_without_regard_to_case() {
    let mut entries = vec![
        entry("b.txt", EntryKind::File, 0),
        entry("C.txt", EntryKind::File, 0),
        entry("A.txt", EntryKind::File, 0),
        entry("Ä.txt", EntryKind::File, 0),
    ];
    sort_entries(&mut entries, SortKey::Name, false);
    assert_eq!(names(&entries), vec!["A.txt", "b.txt", "C.txt", "Ä.txt"]);
}

#[test]
fn sizes_are_ordered_from_large_to_small() {
    let mut entries = vec![
        entry("small", EntryKind::File, 1),
        entry("large", EntryKind::File, 100),
        entry("link", EntryKind::Symlink, 1000),
        entry("middle", EntryKind::File, 10),
    ];
    sort_entries(&mut entries, SortKey::Size, false);
    assert_eq!(names(&entries), vec!["large", "middle", "small", "link"]);
    sort_entries(&mut entries, SortKey::Size, true);
    assert_eq!(names(&entries), vec!["link", "small", "middle", "large"]);
}

#[test]
fn ages_are_ordered_from_new_to_old_with_unknown_last() {
    let mut entries = vec![
        aged("old", Some(10)),
        aged("unknown", None),
        aged("new", Some(30)),
        aged("before_epoch", Some(-5)),
    ];
    sort_entries(&mut entries, SortKey::Age, false);
    assert_eq!(names(&entries), vec!["new", "old", "before_epoch", "unknown"]);
    sort_entries(&mut entries, SortKey::Age, true);
    assert_eq!(names(&entries), vec!["unknown", "before_epoch", "old", "new"]);
}

#[test]
fn nanoseconds_break_equal_seconds() {
    let mut a = aged("a", Some(10));
    a.modified = Some(Timestamp { secs: 10, nanos: 1 });
    let mut b = aged("b", Some(10));
    b.modified = Some(Timestamp { secs: 10, nanos: 2 });
    assert_eq!(compare_entries(&a, &b, SortKey::Age, false), Rank::After);
    assert_eq!(compare_entries(&b, &a, SortKey::Age, false), Rank::Before);
    assert_eq!(compare_entries(&a, &a, SortKey::Age, false), Rank::Same);
}

#[test]
fn equal_ranks_keep_the_order_in_which_they_came() {
    let mut entries = vec![
        entry("first", EntryKind::File, 7),
        entry("second", EntryKind::File, 7),
        entry("big", EntryKind::File, 9),
        entry("third", EntryKind::File, 7),
    ];
    sort_entries(&mut entries, SortKey::Size, false);
    assert_eq!(names(&entries), vec!["big", "first", "second", "third"]);
    sort_entries(&mut entries, SortKey::Size, true);
    assert_eq!(names(&entries), vec!["first", "second", "third", "big"]);
}

#[test]
fn reversing_turns_each_group_round() {
    let input = vec![
        entry("m.txt", EntryKind::File, 0),
        entry("src", EntryKind::Directory, 0),
        entry("a.txt", EntryKind::File, 0),
        entry("docs", EntryKind::Directory, 0),
        entry("z.txt", EntryKind::File, 0),
        entry("bin", EntryKind::Directory, 0),
    ];
    let mut forward = input.clone();
    sort_entries(&mut forward, SortKey::Name, false);
    let mut backward = input.clone();
    sort_entries(&mut backward, SortKey::Name, true);
    assert_eq!(names(&forward), vec!["bin", "docs", "src", "a.txt", "m.txt", "z.txt"]);
    assert_eq!(names(&backward), vec!["src", "docs", "bin", "z.txt", "m.txt", "a.txt"]);
    let mut dirs: Vec<EntryInfo> = forward.iter().filter(|e| e.is_dir()).cloned().collect();
    dirs.reverse();
    let mut files: Vec<EntryInfo> = forward.iter().filter(|e| !e.is_dir()).cloned().collect();
    files.reverse();
    dirs.extend(files);
    assert_eq!(dirs, backward);
}

#[test]
fn sort_order_gives_positions() {
    let entries = vec![
        entry("c", EntryKind::File, 0),
        entry("a", EntryKind::File, 0),
        entry("d", EntryKind::Directory, 0),
        entry("b", EntryKind::File, 0),
    ];
    assert_eq!(sort_order(&entries, SortKey::Name, false), vec![2, 1, 3, 0]);
    assert_eq!(sort_order(&entries, SortKey::Name, true), vec![2, 0, 3, 1]);
    assert_eq!(sort_order(&Vec::new(), SortKey::Name, false), Vec::<usize>::new());
}

#[test]
fn texts_compare_by_code_point() {
    assert_eq!(compare_text("", ""), Rank::Same);
    assert_eq!(compare_text("", "a"), Rank::Before);
    assert_eq!(compare_text("a", ""), Rank::After);
    assert_eq!(compare_text("abc", "abd"), Rank::Before);
    assert_eq!(compare_text("abc", "ab"), Rank::After);
    assert_eq!(compare_text("Z", "a"), Rank::Before);
    assert_eq!(compare_text("é", "z"), Rank::After);
    assert_eq!(compare_text("same", "same"), Rank::Same);
}
