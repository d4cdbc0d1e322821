//! Sizes, modes, names, colours and times as text.

use vstd::prelude::*;
use vstd::string::StringExecFns;
use crate::entry::{extension_of, extension_text, EntryInfo, EntryKind, Timestamp};
use crate::filter::{match_path, normalize_match_path};
use crate::options::ListOptions;
use crate::text::{
    ascii_lowercase, decimal_string, decimal_text, digit_char, push_decimal, same_text,
    to_ascii_lowercase,
};

verus! {

/// The quotient of `n` by `d` rounded to the nearest whole number, a tie
/// going to the even one.
pub open spec fn rounded_quotient(n: nat, d: nat) -> nat {
    let q = n / d;
    let r = n % d;
    if 2 * r < d {
        q
    } else if 2 * r > d {
        q + 1
    } else if q % 2 == 0 {
        q
    } else {
        q + 1
    }
}

/// The distance between neighbouring numbers that a binary float with 53
/// significant bits can hold, at the height of `size`.
pub open spec fn float_step(size: nat) -> nat {
    if size < 0x20_0000_0000_0000 {
        1
    } else if size < 0x40_0000_0000_0000 {
        2
    } else if size < 0x80_0000_0000_0000 {
        4
    } else if size < 0x100_0000_0000_0000 {
        8
    } else if size < 0x200_0000_0000_0000 {
        16
    } else if size < 0x400_0000_0000_0000 {
        32
    } else if size < 0x800_0000_0000_0000 {
        64
    } else if size < 0x1000_0000_0000_0000 {
        128
    } else if size < 0x2000_0000_0000_0000 {
        256
    } else if size < 0x4000_0000_0000_0000 {
        512
    } else if size < 0x8000_0000_0000_0000 {
        1024
    } else {
        2048
    }
}

/// The number nearest to `size` that a binary float with 53 significant bits
/// can hold: sizes are scaled from this number, as if they had been measured
/// in double precision.
pub open spec fn float_value(size: nat) -> nat {
    rounded_quotient(size, float_step(size)) * float_step(size)
}

/// Which binary unit a size is written in: the largest of B, KiB, MiB, GiB
/// and TiB that is not above it, bytes for less than 1024.
pub open spec fn unit_index(size: nat) -> nat {
    if size < 0x400 {
        0
    } else if size < 0x10_0000 {
        1
    } else if size < 0x4000_0000 {
        2
    } else if size < 0x100_0000_0000 {
        3
    } else {
        4
    }
}

/// Bytes in one unit.
pub open spec fn unit_bytes(index: nat) -> nat {
    if index == 0 {
        1
    } else if index == 1 {
        0x400
    } else if index == 2 {
        0x10_0000
    } else if index == 3 {
        0x4000_0000
    } else {
        0x100_0000_0000
    }
}

/// The name of a unit.
pub open spec fn unit_name(index: nat) -> Seq<char> {
    if index == 0 {
        "B"@
    } else if index == 1 {
        "KiB"@
    } else if index == 2 {
        "MiB"@
    } else if index == 3 {
        "GiB"@
    } else {
        "TiB"@
    }
}

/// A size in tenths of its unit, rounded to the nearest tenth, a tie going
/// to the even one.
pub open spec fn size_tenths(size: nat) -> nat {
    rounded_quotient(float_value(size) * 10, unit_bytes(unit_index(size)))
}

/// A size as text. Plain: its decimal writing. For people: below 1024 the
/// bytes and `B`; from there on the size in its unit with one decimal, a
/// blank and the unit.
pub open spec fn size_text(size: nat, human: bool) -> Seq<char> {
    if !human {
        decimal_text(size)
    } else if size < 0x400 {
        decimal_text(size) + " B"@
    } else {
        decimal_text(size_tenths(size) / 10).push('.').push(digit_char(size_tenths(size) % 10)).push(
            ' ',
        ) + unit_name(unit_index(size))
    }
}

fn float_step_of(size: u64) -> (r: u64)
    ensures
        r == float_step(size as nat),
        1 <= r <= 2048,
{
    if size < 0x20_0000_0000_0000 {
        1
    } else if size < 0x40_0000_0000_0000 {
        2
    } else if size < 0x80_0000_0000_0000 {
        4
    } else if size < 0x100_0000_0000_0000 {
        8
    } else if size < 0x200_0000_0000_0000 {
        16
    } else if size < 0x400_0000_0000_0000 {
        32
    } else if size < 0x800_0000_0000_0000 {
        64
    } else if size < 0x1000_0000_0000_0000 {
        128
    } else if size < 0x2000_0000_0000_0000 {
        256
    } else if size < 0x4000_0000_0000_0000 {
        512
    } else if size < 0x8000_0000_0000_0000 {
        1024
    } else {
        2048
    }
}

fn rounded_div(n: u128, d: u128) -> (r: u128)
    requires
        0 < d <= 0x100_0000_0000,
        n <= 0xffff_ffff_ffff_ffff_ffff,
    ensures
        r == rounded_quotient(n as nat, d as nat),
        r <= n,
{
    let q = n / d;
    let r = n % d;
    assert(q <= n) by (nonlinear_arith)
        requires
            q == n / d,
            d > 0,
            n >= 0,
    ;
    if 2 * r < d {
        q
    } else if 2 * r > d {
        assert(q < n) by (nonlinear_arith)
            requires
                q == n / d,
                r == n % d,
                2 * r > d,
                d > 0,
                n >= 0,
        ;
        q + 1
    } else if q % 2 == 0 {
        q
    } else {
        assert(q < n) by (nonlinear_arith)
            requires
                q == n / d,
                r == n % d,
                2 * r == d,
                d > 0,
                n >= 0,
        ;
        q + 1
    }
}

/// Writes a size as text: in plain decimal, or for people with a binary unit.
pub fn format_size(size: u64, human: bool) -> (r: String)
    ensures
        r@ == size_text(size as nat, human),
{
    if !human {
        return decimal_string(size);
    }
    if size < 0x400 {
        let mut out = decimal_string(size);
        out.append(" B");
        return out;
    }
    let (unit, name): (u128, &str) = if size < 0x10_0000 {
        (0x400, "KiB")
    } else if size < 0x4000_0000 {
        (0x10_0000, "MiB")
    } else if size < 0x100_0000_0000 {
        (0x4000_0000, "GiB")
    } else {
        (0x100_0000_0000, "TiB")
    };
    let step = float_step_of(size);
    let steps = rounded_div(size as u128, step as u128);
    assert(steps * step <= 0x1_0000_0000_0000_0800) by (nonlinear_arith)
        requires
            steps <= size,
            step <= 2048,
            steps == rounded_quotient(size as nat, step as nat),
            size <= 0xffff_ffff_ffff_ffff,
            step >= 1,
            rounded_quotient(size as nat, step as nat) <= size as nat / step as nat + 1,
            (size as nat / step as nat) * step <= size,
    ;
    let value = steps * (step as u128);
    let tenths = rounded_div(value * 10, unit);
    assert(tenths <= 0xffff_ffff_ffff_ffff) by (nonlinear_arith)
        requires
            tenths == rounded_quotient((value * 10) as nat, unit as nat),
            rounded_quotient((value * 10) as nat, unit as nat) <= (value * 10) as nat / unit as nat
                + 1,
            value <= 0x1_0000_0000_0000_0800,
            unit >= 0x400,
    ;
    let whole = (tenths / 10) as u64;
    let tenth = (tenths % 10) as u64;
    let mut out = decimal_string(whole);
    out.push('.');
    push_decimal(&mut out, tenth);
    out.push(' ');
    out.append(name);
    assert(decimal_text(tenth as nat) =~= seq![digit_char(tenth as nat)]);
    assert(out@ =~= size_text(size as nat, human));
    out
}


/// The three characters of an entry's mode: `d` for a directory, `l` for a
/// link, `-` for anything else; `r`; and `w` unless writing is forbidden.
pub open spec fn mode_text(entry: EntryInfo) -> Seq<char> {
    seq![
        if entry.is_dir() {
            'd'
        } else if entry.is_symlink() {
            'l'
        } else {
            '-'
        },
        'r',
        if entry.readonly {
            '-'
        } else {
            'w'
        },
    ]
}

/// Writes an entry's mode.
pub fn format_mode(entry: &EntryInfo) -> (r: String)
    ensures
        r@ == mode_text(*entry),
{
    let mut out = String::new();
    out.push(
        if entry.is_dir() {
            'd'
        } else if entry.is_symlink() {
            'l'
        } else {
            '-'
        },
    );
    out.push('r');
    out.push(
        if entry.readonly {
            '-'
        } else {
            'w'
        },
    );
    assert(out@ =~= mode_text(*entry));
    out
}

/// Whether a file name ends in `.exe`, `.bat` or `.cmd`, in capital or
/// small letters.
pub open spec fn executable_name(name: Seq<char>) -> bool {
    let ext = ascii_lowercase(extension_text(name));
    ext == "exe"@ || ext == "bat"@ || ext == "cmd"@
}

/// Whether a file name has the extension of a program.
pub fn is_probably_executable(name: &str) -> (r: bool)
    ensures
        r == executable_name(name@),
{
    let extension = extension_of(name);
    let ext = to_ascii_lowercase(extension.as_str());
    same_text(ext.as_str(), "exe") || same_text(ext.as_str(), "bat") || same_text(
        ext.as_str(),
        "cmd",
    )
}

/// The hash that a `std::collections::hash_map::DefaultHasher` made by `new`
/// gives for a text.
pub uninterp spec fn text_hash(text: Seq<char>) -> u64;

/// Feeds a text to a `DefaultHasher` made by `DefaultHasher::new` and takes
/// what `finish` gives. All hashers made so are the same, so the hash
/// depends on the text alone; it is known only as `text_hash`.
#[verifier::external_body]
fn hash_text(text: &str) -> (h: u64)
    ensures
        h == text_hash(text@),
{
    let mut hasher = std::collections::hash_map::DefaultHasher::new();
    std::hash::Hash::hash(text, &mut hasher);
    std::hash::Hasher::finish(&hasher)
}

/// One colour channel from a byte of the hash: between 64 and 223.
pub open spec fn channel(byte: nat) -> nat {
    64 + byte % 160
}

/// The colour for a hash: red from its lowest byte, green from the next,
/// blue from the third.
pub open spec fn hash_rgb(h: u64) -> (u8, u8, u8) {
    (
        channel(h as nat % 256) as u8,
        channel(h as nat / 256 % 256) as u8,
        channel(h as nat / 65536 % 256) as u8,
    )
}

/// The colour for a hash.
pub fn rgb_of_hash(h: u64) -> (r: (u8, u8, u8))
    ensures
        r == hash_rgb(h),
{
    let red: u64 = h & 0xFF;
    let green: u64 = (h >> 8) & 0xFF;
    let blue: u64 = (h >> 16) & 0xFF;
    assert(h & 0xFF == h % 256) by (bit_vector);
    assert((h >> 8) & 0xFF == h / 256 % 256) by (bit_vector);
    assert((h >> 16) & 0xFF == h / 65536 % 256) by (bit_vector);
    ((64 + red % 160) as u8, (64 + green % 160) as u8, (64 + blue % 160) as u8)
}

/// The colour in which a path is shown among the colours of the rainbow: it
/// depends on the path alone, written with slashes, and no channel is darker
/// than 64 or lighter than 223.
pub fn rainbow_rgb(path: &str) -> (r: (u8, u8, u8))
    ensures
        r == hash_rgb(text_hash(match_path(path@))),
        64 <= r.0 <= 223 && 64 <= r.1 <= 223 && 64 <= r.2 <= 223,
{
    let normal = normalize_match_path(path);
    rgb_of_hash(hash_text(normal.as_str()))
}

/// The icon before a name: a folder, a link or a sheet; nothing without icons.
pub open spec fn icon_text(entry: EntryInfo, icons: bool) -> Seq<char> {
    if !icons {
        Seq::empty()
    } else if entry.is_dir() {
        "📁 "@
    } else if entry.is_symlink() {
        "🔗 "@
    } else {
        "📄 "@
    }
}

/// A name as a listing writes it: the icon, the name, and a slash behind a
/// directory.
pub open spec fn label_text(entry: EntryInfo, icons: bool) -> Seq<char> {
    icon_text(entry, icons) + entry.name@ + (if entry.is_dir() {
        seq!['/']
    } else {
        Seq::empty()
    })
}

/// Writes the label of an entry in the navigator's list.
pub fn tui_label(entry: &EntryInfo, options: &ListOptions) -> (r: String)
    ensures
        r@ == label_text(*entry, options.icons),
{
    let mut out = String::new();
    if options.icons {
        if entry.is_dir() {
            out.append("📁 ");
        } else if entry.is_symlink() {
            out.append("🔗 ");
        } else {
            out.append("📄 ");
        }
    }
    out.append(entry.name.as_str());
    if entry.is_dir() {
        out.push('/');
    }
    assert(out@ =~= label_text(*entry, options.icons));
    out
}

/// How a name is to be coloured.
#[derive(Clone, Copy, Debug, PartialEq, Eq, Structural)]
pub enum NameStyle {
    /// In the colour of its path.
    Rainbow { red: u8, green: u8, blue: u8 },
    Directory,
    Symlink,
    Executable,
    Plain,
}

/// The style of a name: with `rainbow` the colour of its relative path,
/// else by kind, a link before a program.
pub open spec fn name_style(entry: EntryInfo, rel_path: Seq<char>, rainbow: bool) -> NameStyle {
    if rainbow {
        let rgb = hash_rgb(text_hash(match_path(rel_path)));
        NameStyle::Rainbow { red: rgb.0, green: rgb.1, blue: rgb.2 }
    } else if entry.is_dir() {
        NameStyle::Directory
    } else if entry.is_symlink() {
        NameStyle::Symlink
    } else if executable_name(entry.name@) {
        NameStyle::Executable
    } else {
        NameStyle::Plain
    }
}

/// Writes the name of an entry as a listing shows it, and says how it is
/// to be coloured.
pub fn format_name(entry: &EntryInfo, rel_path: &str, options: &ListOptions) -> (r: (
    String,
    NameStyle,
))
    ensures
        r.0@ == label_text(*entry, options.icons),
        r.1 == name_style(*entry, rel_path@, options.rainbow),
{
    let full = tui_label(entry, options);
    let style = if options.rainbow {
        let (red, green, blue) = rainbow_rgb(rel_path);
        NameStyle::Rainbow { red, green, blue }
    } else if entry.is_dir() {
        NameStyle::Directory
    } else if entry.is_symlink() {
        NameStyle::Symlink
    } else if is_probably_executable(entry.name.as_str()) {
        NameStyle::Executable
    } else {
        NameStyle::Plain
    };
    (full, style)
}

/// The text that `humantime::format_rfc3339` shows for the time that lies
/// the given seconds and nanoseconds after the Unix epoch.
pub uninterp spec fn rfc3339_text(secs: u64, nanos: u32) -> Seq<char>;

/// Shows a time with `humantime::format_rfc3339`, in UTC and with fractions
/// of a second only where there are any. humantime shows no time from the
/// year 10000 on, so these are left out; the text depends on the time alone
/// and is known only as `rfc3339_text`.
#[verifier::external_body]
fn format_rfc3339(secs: u64, nanos: u32) -> (r: String)
    requires
        secs < 253_402_300_800,
        nanos < 1_000_000_000,
    ensures
        r@ == rfc3339_text(secs, nanos),
{
    let at = std::time::UNIX_EPOCH + std::time::Duration::new(secs, nanos);
    humantime::format_rfc3339(at).to_string()
}

impl Timestamp {
    /// Whether the time can be shown: it lies between the Unix epoch and the
    /// end of the year 9999.
    pub open spec fn spec_printable(&self) -> bool {
        0 <= self.secs < 253_402_300_800 && self.nanos < 1_000_000_000
    }

    #[verifier::when_used_as_spec(spec_printable)]
    pub fn printable(&self) -> (r: bool)
        ensures
            r == self.spec_printable(),
    {
        0 <= self.secs && self.secs < 253_402_300_800 && self.nanos < 1_000_000_000
    }
}

/// Whether a time of modification can be shown: none can, as a dash.
pub open spec fn modified_printable(modified: Option<Timestamp>) -> bool {
    modified matches Some(t) ==> t.printable()
}

/// A time of modification as text: the time in UTC, or a dash for none.
pub open spec fn modified_text(modified: Option<Timestamp>) -> Seq<char> {
    match modified {
        Some(t) => rfc3339_text(t.secs as u64, t.nanos),
        None => "-"@,
    }
}

/// The time as text, in UTC.
pub fn format_time(time: &Timestamp) -> (r: String)
    requires
        time.printable(),
    ensures
        r@ == rfc3339_text(time.secs as u64, time.nanos),
{
    format_rfc3339(time.secs as u64, time.nanos)
}

/// Writes a time of modification, or a dash for none. There is no text for
/// a time that cannot be shown.
pub fn format_modified(modified: Option<Timestamp>) -> (r: Option<String>)
    ensures
        r is Some <==> modified_printable(modified),
        r matches Some(text) ==> text@ == modified_text(modified),
{
    match modified {
        None => Some(String::from_str("-")),
        Some(t) => if t.printable() {
            Some(format_time(&t))
        } else {
            None
        },
    }
}

} // verus!
