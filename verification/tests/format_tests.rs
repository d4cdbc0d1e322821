use lz::entry::{EntryInfo, EntryKind, Timestamp};
use lz::format::{
    format_mode, format_modified, format_name, format_size, format_time, is_probably_executable,
    rainbow_rgb, rgb_of_hash, tui_label, NameStyle,
};
use lz::options::ListOptions;

fn entry(name: &str, kind: EntryKind) -> EntryInfo {
    EntryInfo {
        name: name.to_string(),
        path: format!("/data/{name}"),
        kind,
        len: 10,
        modified: None,
        readonly: false,
    }
}

fn float_size(size: u64) -> String {
    let units = ["B", "KiB", "MiB", "GiB", "TiB"];
    let mut f = size as f64;
    let mut idx = 0usize;
    while f >= 1024.0 && idx + 1 < units.len() {
        f /= 1024.0;
        idx += 1;
    }
    if idx == 0 {
        format!("{size} {}", units[idx])
    } else {
        format!("{:.1} {}", f, units[idx])
    }
}

#[test]
fn format_size_human() {
    assert_eq!(format_size(0, true), "0 B");
    assert_eq!(format_size(1024, true), "1.0 KiB");
    assert_eq!(format_size(1536, true), "1.5 KiB");
}

#[test]
fn format_size_plain_is_decimal() {
    assert_eq!(format_size(0, false), "0");
    assert_eq!(format_size(7, false), "7");
    assert_eq!(format_size(1536, false), "1536");
    assert_eq!(format_size(1_000_000, false), "1000000");
    assert_eq!(format_size(u64::MAX, false), "18446744073709551615");
}

#[test]
fn format_size_unit_boundaries() {
    assert_eq!(format_size(1023, true), "1023 B");
    assert_eq!(format_size(1_048_575, true), "1024.0 KiB");
    assert_eq!(format_size(1_048_576, true), "1.0 MiB");
    assert_eq!(format_size(1_073_741_824, true), "1.0 GiB");
    assert_eq!(format_size(1_099_511_627_776, true), "1.0 TiB");
    assert_eq!(format_size(u64::MAX, true), "16777216.0 TiB");
}

#[test]
fn format_size_ties_go_to_the_even_tenth() {
    assert_eq!(format_size(1280, true), "1.2 KiB");
    assert_eq!(format_size(1792, true), "1.8 KiB");
    assert_eq!(format_size(1024 + 51, true), "1.0 KiB");
    assert_eq!(format_size(1024 + 52, true), "1.1 KiB");
}

#[test]
fn format_size_agrees_with_double_precision() {
    let mut n: u64 = 1;
    let mut seen = 0;
    while n < u64::MAX / 3 {
        for d in [0u64, 1, 2, 51, 52, 255, 256, 257, 511, 512, 513] {
            for v in [n.wrapping_sub(d), n.saturating_add(d)] {
                assert_eq!(format_size(v, true), float_size(v), "size {v}");
                seen += 1;
            }
        }
        n = n * 3 + 1;
    }
    for shift in 0..64 {
        let p = 1u64 << shift;
        for v in [p - 1, p, p + 1, p + p / 2, p + p / 4, p + p / 4 * 3] {
            assert_eq!(format_size(v, true), float_size(v), "size {v}");
            seen += 1;
        }
    }
    for v in [
        u64::MAX,
        u64::MAX - 1,
        u64::MAX - 1023,
        u64::MAX - 1024,
        u64::MAX - 1025,
        (1u64 << 53) + 1,
        (1u64 << 53) + 3,
        (1u64 << 60) + (1u64 << 7),
        (1u64 << 60) + (1u64 << 7) + 1,
        (1u64 << 60) + 3 * (1u64 << 7),
    ] {
        assert_eq!(format_size(v, true), float_size(v), "size {v}");
        seen += 1;
    }
    assert!(seen > 1000);
}

#[test]
fn format_mode_shows_kind_and_write_permission() {
    assert_eq!(format_mode(&entry("d", EntryKind::Directory)), "drw");
    assert_eq!(format_mode(&entry("l", EntryKind::Symlink)), "lrw");
    assert_eq!(format_mode(&entry("f", EntryKind::File)), "-rw");
    assert_eq!(format_mode(&entry("o", EntryKind::Other)), "-rw");
    let mut locked = entry("f", EntryKind::File);
    locked.readonly = true;
    assert_eq!(format_mode(&locked), "-r-");
}

#[test]
fn executable_names_go_by_extension() {
    assert!(is_probably_executable("setup.exe"));
    assert!(is_probably_executable("RUN.BAT"));
    assert!(is_probably_executable("a.b.Cmd"));
    assert!(!is_probably_executable("exe"));
    assert!(!is_probably_executable(".exe"));
    assert!(!is_probably_executable("notes.txt"));
    assert!(!is_probably_executable("archive.exe.gz"));
    assert!(!is_probably_executable(""));
}

#[test]
fn rainbow_colour_depends_on_the_path_with_slashes() {
    let a = rainbow_rgb("src/main.rs");
    assert_eq!(a, rainbow_rgb("src/main.rs"));
    assert_eq!(a, rainbow_rgb("src\\main.rs"));
    for p in ["a", "b", "c/d", "", "x.txt", "читать"] {
        let (r, g, b) = rainbow_rgb(p);
        assert!((64..=223).contains(&r));
        assert!((64..=223).contains(&g));
        assert!((64..=223).contains(&b));
    }
    let colours: Vec<(u8, u8, u8)> =
        ["a", "b", "c", "d", "e", "f", "g", "h"].iter().map(|p| rainbow_rgb(p)).collect();
    assert!(colours.iter().any(|c| *c != colours[0]));
}

#[test]
fn colour_of_a_hash_takes_its_three_low_bytes() {
    assert_eq!(rgb_of_hash(0), (64, 64, 64));
    assert_eq!(rgb_of_hash(0x03_02_01), (65, 66, 67));
    assert_eq!(rgb_of_hash(0xff), (64 + 95, 64, 64));
    assert_eq!(rgb_of_hash(0x9f_a0_00), (64, 64, 64 + 159));
    assert_eq!(rgb_of_hash(0xffff_ffff_ff00_0000), (64, 64, 64));
}

#[test]
fn labels_carry_icon_and_directory_mark() {
    let plain = ListOptions::default();
    let mut icons = ListOptions::default();
    icons.icons = true;
    assert_eq!(tui_label(&entry("src", EntryKind::Directory), &plain), "src/");
    assert_eq!(tui_label(&entry("a.txt", EntryKind::File), &plain), "a.txt");
    assert_eq!(tui_label(&entry("src", EntryKind::Directory), &icons), "📁 src/");
    assert_eq!(tui_label(&entry("ln", EntryKind::Symlink), &icons), "🔗 ln");
    assert_eq!(tui_label(&entry("a.txt", EntryKind::File), &icons), "📄 a.txt");
}

#[test]
fn names_are_styled_by_kind() {
    let options = ListOptions::default();
    assert_eq!(
        format_name(&entry("src", EntryKind::Directory), "src", &options),
        ("src/".to_string(), NameStyle::Directory)
    );
    assert_eq!(
        format_name(&entry("ln.exe", EntryKind::Symlink), "ln.exe", &options),
        ("ln.exe".to_string(), NameStyle::Symlink)
    );
    assert_eq!(
        format_name(&entry("run.exe", EntryKind::File), "run.exe", &options),
        ("run.exe".to_string(), NameStyle::Executable)
    );
    assert_eq!(
        format_name(&entry("a.txt", EntryKind::File), "a.txt", &options),
        ("a.txt".to_string(), NameStyle::Plain)
    );
    let mut rainbow = ListOptions::default();
    rainbow.rainbow = true;
    let (red, green, blue) = rainbow_rgb("d/a.txt");
    assert_eq!(
        format_name(&entry("a.txt", EntryKind::File), "d/a.txt", &rainbow),
        ("a.txt".to_string(), NameStyle::Rainbow { red, green, blue })
    );
}

#[test]
fn times_are_written_in_utc() {
    assert_eq!(format_time(&Timestamp { secs: 0, nanos: 0 }), "1970-01-01T00:00:00Z");
    assert_eq!(
        format_time(&Timestamp { secs: 1_518_568_087, nanos: 0 }),
        "2018-02-14T00:28:07Z"
    );
    assert_eq!(
        format_time(&Timestamp { secs: 1_518_568_087, nanos: 5 }),
        "2018-02-14T00:28:07.000000005Z"
    );
    assert_eq!(
        format_modified(Some(Timestamp { secs: 86_400, nanos: 0 })),
        Some("1970-01-02T00:00:00Z".to_string())
    );
    assert_eq!(format_modified(None), Some("-".to_string()));
}

#[test]
fn times_out_of_range_have_no_text() {
    assert_eq!(format_modified(Some(Timestamp { secs: -1, nanos: 0 })), None);
    assert_eq!(format_modified(Some(Timestamp { secs: 253_402_300_800, nanos: 0 })), None);
    assert!(Timestamp { secs: 253_402_300_799, nanos: 999_999_999 }.printable());
    assert_eq!(
        format_modified(Some(Timestamp { secs: 253_402_300_799, nanos: 0 })),
        Some("9999-12-31T23:59:59Z".to_string())
    );
}
