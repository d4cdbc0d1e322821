//! Structured records of listings.

use vstd::prelude::*;
use vstd::string::StringExecFns;
use crate::entry::EntryInfo;
use crate::error::ListError;
use crate::filter::{match_path, normalize_match_path};
use crate::format::{format_time, modified_printable, modified_text};
use crate::summary::{ext_counts, ExtCount, ExtSummary, ListingSummary};
use crate::text::{chars_of, same_text};
use crate::tree::{DisplayEntry, DisplayLine};

verus! {

/// One entry of a structured record.
#[derive(Debug, PartialEq, Eq)]
pub struct JsonEntry {
    pub rel_path: String,
    pub name: String,
    pub kind: String,
    pub size: u64,
    pub modified: Option<String>,
    pub depth: usize,
}

/// What an entry of a structured record says.
pub struct JsonEntryView {
    pub rel_path: Seq<char>,
    pub name: Seq<char>,
    pub kind: Seq<char>,
    pub size: u64,
    pub modified: Option<Seq<char>>,
    pub depth: nat,
}

impl View for JsonEntry {
    type V = JsonEntryView;

    open spec fn view(&self) -> JsonEntryView {
        JsonEntryView {
            rel_path: self.rel_path@,
            name: self.name@,
            kind: self.kind@,
            size: self.size,
            modified: match self.modified {
                Some(t) => Some(t@),
                None => None,
            },
            depth: self.depth as nat,
        }
    }
}

/// The parts of a path between its slashes, from first to last. A path
/// without a slash is one part; a slash at either end leaves an empty part
/// there.
pub open spec fn path_parts(path: Seq<char>) -> Seq<Seq<char>>
    decreases path.len(),
{
    if path.len() == 0 {
        seq![Seq::empty()]
    } else {
        let before = path_parts(path.drop_last());
        if path.last() == '/' {
            before.push(Seq::empty())
        } else {
            before.drop_last().push(before.last().push(path.last()))
        }
    }
}

/// Whether a part of a path is a component: it is not empty, and it is no
/// lone dot unless it is the first part.
pub open spec fn is_component(part: Seq<char>, first: bool) -> bool {
    part.len() > 0 && (first || part != seq!['.'])
}

/// How many of the parts are components.
pub open spec fn components_among(parts: Seq<Seq<char>>) -> nat
    decreases parts.len(),
{
    if parts.len() == 0 {
        0
    } else {
        components_among(parts.drop_last()) + (if is_component(parts.last(), parts.len() == 1) {
            1nat
        } else {
            0nat
        })
    }
}

/// The number of components of a path: its parts between slashes, without
/// the empty ones and without the lone dots behind the first part, and one
/// more for the root if the path starts with a slash.
pub open spec fn component_count(path: Seq<char>) -> nat {
    components_among(path_parts(path)) + (if path.len() > 0 && path[0] == '/' {
        1nat
    } else {
        0nat
    })
}

/// How deep a relative path lies below the root: the number of its
/// components less one. The root itself, written as a dot, and what is
/// directly in it lie at depth 0.
pub open spec fn rel_depth(rel_path: Seq<char>) -> nat {
    if rel_path == "."@ || component_count(rel_path) == 0 {
        0
    } else {
        (component_count(rel_path) - 1) as nat
    }
}

/// The kind of an entry in a structured record.
pub open spec fn kind_text(entry: EntryInfo) -> Seq<char> {
    if entry.is_dir() {
        "dir"@
    } else if entry.is_symlink() {
        "symlink"@
    } else {
        "file"@
    }
}

/// What a line of a listing says in a structured record: its relative path
/// with slashes, name, kind and size, its time of modification in UTC if it
/// has one, and its depth.
pub open spec fn json_entry_of(line: DisplayLine) -> JsonEntryView {
    JsonEntryView {
        rel_path: match_path(line.rel_path),
        name: line.entry.name@,
        kind: kind_text(line.entry),
        size: line.entry.size(),
        modified: match line.entry.modified {
            Some(_) => Some(modified_text(line.entry.modified)),
            None => None,
        },
        depth: rel_depth(line.rel_path),
    }
}

/// Counts the components of a relative path and takes one off.
fn depth_of(rel_path: &str) -> (r: usize)
    ensures
        r == rel_depth(rel_path@),
{
    if same_text(rel_path, ".") {
        return 0;
    }
    let chars = chars_of(rel_path);
    let rooted = chars.len() > 0 && chars[0] == '/';
    let ghost mut done: Seq<Seq<char>> = Seq::empty();
    let mut part: Vec<char> = Vec::new();
    let mut first = true;
    let mut count: usize = 0;
    let mut i: usize = 0;
    assert(chars@.take(0) =~= Seq::<char>::empty());
    assert(path_parts(chars@.take(0)) =~= done.push(part@));
    while i < chars.len()
        invariant
            i <= chars.len(),
            rooted == (chars.len() > 0 && chars@[0] == '/'),
            path_parts(chars@.take(i as int)) == done.push(part@),
            count == components_among(done),
            first == (done.len() == 0),
            count + part.len() + (if rooted && i > 0 { 1int } else { 0int }) <= i,
        decreases chars.len() - i,
    {
        let ghost before = path_parts(chars@.take(i as int));
        proof {
            assert(chars@.take(i as int + 1).drop_last() == chars@.take(i as int));
            assert(chars@.take(i as int + 1).last() == chars@[i as int]);
            assert(before.drop_last() =~= done);
            assert(before.last() == part@);
        }
        if chars[i] == '/' {
            if part.len() > 0 && (first || !(part.len() == 1 && part[0] == '.')) {
                assert(is_component(part@, first));
                count += 1;
            } else {
                assert(part@.len() == 1 && part@[0] == '.' ==> part@ =~= seq!['.']);
                assert(!is_component(part@, first));
            }
            proof {
                assert(done.push(part@).drop_last() =~= done);
                done = done.push(part@);
            }
            part = Vec::new();
            first = false;
            assert(path_parts(chars@.take(i as int + 1)) =~= done.push(part@));
        } else {
            part.push(chars[i]);
            assert(path_parts(chars@.take(i as int + 1)) =~= done.push(part@));
        }
        i += 1;
    }
    assert(chars@.take(chars.len() as int) == chars@);
    proof {
        assert(done.push(part@).drop_last() =~= done);
        assert(part@.len() == 1 && part@[0] == '.' ==> part@ =~= seq!['.']);
    }
    if part.len() > 0 && (first || !(part.len() == 1 && part[0] == '.')) {
        count += 1;
    }
    if rooted {
        count += 1;
    }
    if count == 0 {
        0
    } else {
        count - 1
    }
}

impl DisplayEntry {
    /// Whether the line's time of modification can be shown.
    pub open spec fn spec_printable(&self) -> bool {
        modified_printable(self.entry.modified)
    }

    /// Whether the line's time of modification can be shown.
    #[verifier::when_used_as_spec(spec_printable)]
    pub fn printable(&self) -> (r: bool)
        ensures
            r == self.spec_printable(),
    {
        match self.entry.modified {
            Some(t) => t.printable(),
            None => true,
        }
    }

    /// The line as an entry of a structured record.
    pub fn to_json(&self) -> (r: JsonEntry)
        requires
            self.printable(),
        ensures
            r@ == json_entry_of(self@),
    {
        let kind = if self.entry.is_dir() {
            "dir"
        } else if self.entry.is_symlink() {
            "symlink"
        } else {
            "file"
        };
        let modified = match &self.entry.modified {
            Some(t) => Some(format_time(t)),
            None => None,
        };
        JsonEntry {
            rel_path: normalize_match_path(self.rel_path.as_str()),
            name: self.entry.name.clone(),
            kind: String::from_str(kind),
            size: self.entry.size(),
            modified,
            depth: depth_of(self.rel_path.as_str()),
        }
    }
}

/// The summary of a structured record.
#[derive(Debug, PartialEq, Eq)]
pub struct JsonSummary {
    pub total_bytes: u64,
    pub total_files: u64,
    pub total_dirs: u64,
    /// The files and bytes of each extension, in ascending order of the
    /// extensions, where they were asked for.
    pub extensions: Option<Vec<(String, ExtSummary)>>,
}

/// What the summary of a structured record says.
pub struct JsonSummaryView {
    pub total_bytes: nat,
    pub total_files: nat,
    pub total_dirs: nat,
    pub extensions: Option<Seq<ExtCount>>,
}

impl View for JsonSummary {
    type V = JsonSummaryView;

    open spec fn view(&self) -> JsonSummaryView {
        JsonSummaryView {
            total_bytes: self.total_bytes as nat,
            total_files: self.total_files as nat,
            total_dirs: self.total_dirs as nat,
            extensions: match self.extensions {
                Some(rows) => Some(ext_counts(rows@)),
                None => None,
            },
        }
    }
}

impl ListingSummary {
    /// What the summary says in a structured record: the totals, and the
    /// table of extensions only where it is asked for.
    pub open(crate) spec fn json_view(self, include_extensions: bool) -> JsonSummaryView {
        JsonSummaryView {
            total_bytes: self.counts().total_bytes,
            total_files: self.counts().total_files,
            total_dirs: self.counts().total_dirs,
            extensions: if include_extensions {
                Some(self.counts().ext)
            } else {
                None
            },
        }
    }

    /// The summary as part of a structured record.
    pub fn to_json(&self, include_extensions: bool) -> (r: JsonSummary)
        ensures
            r@ == self.json_view(include_extensions),
    {
        let extensions = if include_extensions {
            let mut rows: Vec<(String, ExtSummary)> = Vec::new();
            let mut i: usize = 0;
            while i < self.ext.len()
                invariant
                    i <= self.ext.len(),
                    rows@ == self.ext@.take(i as int),
                decreases self.ext.len() - i,
            {
                rows.push((self.ext[i].0.clone(), self.ext[i].1));
                assert(rows@ =~= self.ext@.take(i as int + 1));
                i += 1;
            }
            assert(self.ext@.take(self.ext.len() as int) =~= self.ext@);
            Some(rows)
        } else {
            None
        };
        JsonSummary {
            total_bytes: self.total_bytes,
            total_files: self.total_files,
            total_dirs: self.total_dirs,
            extensions,
        }
    }
}

/// One structured record: the root, its entries and summary, or the error
/// that kept them from being made.
#[derive(Debug, PartialEq, Eq)]
pub struct JsonOutput {
    pub root: String,
    pub entries: Vec<JsonEntry>,
    pub summary: Option<JsonSummary>,
    pub error: Option<String>,
}

/// What the entries of a structured record say.
pub open spec fn json_entries(entries: Seq<JsonEntry>) -> Seq<JsonEntryView> {
    entries.map_values(|e: JsonEntry| e@)
}

/// Whether the times of modification of all lines can be shown.
pub open spec fn all_printable(entries: Seq<DisplayEntry>) -> bool {
    forall|i: int| 0 <= i < entries.len() ==> (#[trigger] entries[i]).printable()
}

/// Finds out whether the times of modification of all lines can be shown.
pub fn check_printable(entries: &Vec<DisplayEntry>) -> (r: bool)
    ensures
        r == all_printable(entries@),
{
    let mut i: usize = 0;
    while i < entries.len()
        invariant
            i <= entries.len(),
            forall|j: int| 0 <= j < i ==> (#[trigger] entries@[j]).printable(),
        decreases entries.len() - i,
    {
        if !entries[i].printable() {
            return false;
        }
        i += 1;
    }
    true
}

/// The structured record of a listing: every line as an entry, the summary
/// if there is one, and no error.
pub fn json_record(
    root: &str,
    entries: &Vec<DisplayEntry>,
    summary: Option<&ListingSummary>,
    include_extensions: bool,
) -> (r: JsonOutput)
    requires
        all_printable(entries@),
    ensures
        r.root@ == root@,
        json_entries(r.entries@) == entries@.map_values(|d: DisplayEntry| json_entry_of(d@)),
        match summary {
            Some(s) => r.summary matches Some(j) && j@ == s.json_view(include_extensions),
            None => r.summary is None,
        },
        r.error is None,
{
    let mut out: Vec<JsonEntry> = Vec::new();
    let mut i: usize = 0;
    while i < entries.len()
        invariant
            i <= entries.len(),
            all_printable(entries@),
            json_entries(out@) == entries@.map_values(|d: DisplayEntry| json_entry_of(d@)).take(
                i as int,
            ),
        decreases entries.len() - i,
    {
        let ghost before = json_entries(out@);
        out.push(entries[i].to_json());
        assert(json_entries(out@) =~= before.push(json_entry_of(entries@[i as int]@)));
        assert(json_entries(out@) =~= entries@.map_values(
            |d: DisplayEntry| json_entry_of(d@),
        ).take(i as int + 1));
        i += 1;
    }
    assert(json_entries(out@) =~= entries@.map_values(|d: DisplayEntry| json_entry_of(d@)));
    JsonOutput {
        root: String::from_str(root),
        entries: out,
        summary: match summary {
            Some(s) => Some(s.to_json(include_extensions)),
            None => None,
        },
        error: None,
    }
}

/// The structured record of a listing that failed: no entries, no summary,
/// and the error as text.
pub fn error_record(root: &str, error: &ListError) -> (r: JsonOutput)
    ensures
        r.root@ == root@,
        r.entries@.len() == 0,
        r.summary is None,
        r.error matches Some(text) && text@ == error.message_text(),
{
    JsonOutput {
        root: String::from_str(root),
        entries: Vec::new(),
        summary: None,
        error: Some(error.message()),
    }
}

} // verus!
