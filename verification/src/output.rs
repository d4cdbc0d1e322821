//! One run of a listing, and what it puts out: a structured record, or the
//! rows and names of a text with the lines of its summary.

use vstd::prelude::*;
use vstd::string::{StrSliceExecFns, StringExecFns};
use crate::error::ListError;
use crate::filter::{
    compile_filter, pattern_compiles, pattern_of, refusal_text, GlobFilter,
};
use crate::format::{
    format_mode, format_name, format_size, format_time, label_text, mode_text,
    modified_text, name_style, size_text, NameStyle,
};
use crate::options::ListOptions;
use crate::record::{all_printable, json_entries, json_entry_of, json_record, JsonOutput};
use crate::snapshot::Node;
use crate::summary::{
    ascending, compute_summary, summary_dirs, summary_failure, summary_files, ExtCount, ExtSummary,
    ListingSummary, SummaryCounts,
};
use crate::text::{decimal_text, push_decimal};
use crate::tree::{
    build_display_entries_for_dir, display_failure, display_lines, flat_line, lines_of,
    DisplayEntry, DisplayLine,
};

verus! {

/// What one run of a listing gives: its lines and, where one was asked
/// for, its summary.
#[derive(Debug)]
pub struct Listing {
    pub entries: Vec<DisplayEntry>,
    pub summary: Option<ListingSummary>,
}

/// Whether the options ask for a summary.
pub open spec fn wants_summary(options: ListOptions) -> bool {
    options.du || options.extensions
}

/// The reason why a listing fails, if it does: that of its summary, where
/// one is asked for, else that of its lines. Only a directory can fail.
pub open spec fn listing_failure(
    root: Node,
    options: ListOptions,
    pattern: Option<Seq<char>>,
) -> Option<Seq<char>> {
    if !root.info().is_dir() {
        None
    } else if wants_summary(options) && summary_failure(root, options) is Some {
        summary_failure(root, options)
    } else {
        display_failure(root, options, pattern)
    }
}

/// The lines of a listing: those of the directory, or the one line of a
/// root that is no directory, whatever the filter.
pub open spec fn listing_lines(
    root: Node,
    options: ListOptions,
    pattern: Option<Seq<char>>,
) -> Seq<DisplayLine> {
    if root.info().is_dir() {
        display_lines(root, options, pattern)
    } else {
        seq![flat_line(root.info())]
    }
}

/// The pattern that the options name as their filter.
pub open spec fn filter_pattern(options: ListOptions) -> Option<Seq<char>> {
    match options.filter {
        Some(p) => Some(p@),
        None => None,
    }
}

/// Makes a listing with a filter that is compiled already: the summary
/// first, where the options ask for one, then the lines. Fails exactly
/// where a directory that it reads cannot be read.
pub fn list_filtered(root: &Node, options: &ListOptions, matcher: Option<&GlobFilter>) -> (r:
    Result<Listing, ListError>)
    ensures
        match listing_failure(*root, *options, pattern_of(matcher)) {
            Some(m) => r matches Err(ListError::Io { message }) && message@ == m,
            None => {
                &&& r matches Ok(listing)
                &&& lines_of(listing.entries@) == listing_lines(
                    *root,
                    *options,
                    pattern_of(matcher),
                )
                &&& match listing.summary {
                    Some(s) => wants_summary(*options) && s.counts()
                        == SummaryCounts::empty().added(
                        summary_files(*root, *options, pattern_of(matcher)),
                        summary_dirs(*root, *options, pattern_of(matcher)).len(),
                    ) && s.counts().balanced() && ascending(s.counts().ext),
                    None => !wants_summary(*options),
                }
            },
        },
{
    let summary = if options.du || options.extensions {
        match compute_summary(root, options, matcher) {
            Ok(s) => Some(s),
            Err(e) => {
                return Err(e);
            },
        }
    } else {
        None
    };
    if root.entry.is_dir() {
        match build_display_entries_for_dir(root, options, matcher) {
            Ok(entries) => Ok(Listing { entries, summary }),
            Err(e) => Err(e),
        }
    } else {
        let mut entries: Vec<DisplayEntry> = Vec::new();
        entries.push(
            DisplayEntry {
                entry: root.entry.clone(),
                prefix: String::new(),
                rel_path: root.entry.name.clone(),
            },
        );
        assert(lines_of(entries@) =~= seq![flat_line(root.info())]);
        Ok(Listing { entries, summary })
    }
}

/// Makes a listing once: compiles the filter, sums up where the options
/// ask for it, then makes the lines. A filter that is no glob is refused
/// before anything is listed; else the listing fails exactly where a
/// directory that it reads cannot be read.
pub fn list_path_once(root: &Node, options: &ListOptions) -> (r: Result<Listing, ListError>)
    ensures
        match options.filter {
            Some(p) if !pattern_compiles(p@) => r matches Err(
                ListError::InvalidFilterPattern { pattern, detail },
            ) && pattern@ == p@ && detail@ == refusal_text(p@),
            _ => match listing_failure(*root, *options, filter_pattern(*options)) {
                Some(m) => r matches Err(ListError::Io { message }) && message@ == m,
                None => {
                    &&& r matches Ok(listing)
                    &&& lines_of(listing.entries@) == listing_lines(
                        *root,
                        *options,
                        filter_pattern(*options),
                    )
                    &&& match listing.summary {
                        Some(s) => wants_summary(*options) && s.counts()
                            == SummaryCounts::empty().added(
                            summary_files(*root, *options, filter_pattern(*options)),
                            summary_dirs(*root, *options, filter_pattern(*options)).len(),
                        ) && s.counts().balanced() && ascending(s.counts().ext),
                        None => !wants_summary(*options),
                    }
                },
            },
        },
{
    match compile_filter(options) {
        Ok(matcher) => list_filtered(root, options, matcher.as_ref()),
        Err(e) => Err(e),
    }
}

/// The name of a line: the glyphs before it, its text, and how the text
/// is to be coloured.
#[derive(Debug, PartialEq, Eq)]
pub struct NameCell {
    pub prefix: String,
    pub text: String,
    pub style: NameStyle,
}

/// What the name of a line says.
pub struct NameCellView {
    pub prefix: Seq<char>,
    pub text: Seq<char>,
    pub style: NameStyle,
}

impl View for NameCell {
    type V = NameCellView;

    open spec fn view(&self) -> NameCellView {
        NameCellView { prefix: self.prefix@, text: self.text@, style: self.style }
    }
}

/// The name of a line of a listing.
pub open spec fn name_cell_of(line: DisplayLine, options: ListOptions) -> NameCellView {
    NameCellView {
        prefix: line.prefix,
        text: label_text(line.entry, options.icons),
        style: name_style(line.entry, line.rel_path, options.rainbow),
    }
}

/// Names the line of a listing.
pub fn name_cell(line: &DisplayEntry, options: &ListOptions) -> (r: NameCell)
    ensures
        r@ == name_cell_of(line@, *options),
{
    let (text, style) = format_name(&line.entry, line.rel_path.as_str(), options);
    NameCell { prefix: line.prefix.clone(), text, style }
}

/// One row of a long listing.
#[derive(Debug, PartialEq, Eq)]
pub struct LongRow {
    pub mode: String,
    pub size: String,
    pub time: String,
    pub name: NameCell,
}

/// What a row of a long listing says.
pub struct LongRowView {
    pub mode: Seq<char>,
    pub size: Seq<char>,
    pub time: Seq<char>,
    pub name: NameCellView,
}

impl View for LongRow {
    type V = LongRowView;

    open spec fn view(&self) -> LongRowView {
        LongRowView { mode: self.mode@, size: self.size@, time: self.time@, name: self.name@ }
    }
}

/// The row of a line in a long listing: mode, size, time of modification
/// and name.
pub open spec fn long_row_of(line: DisplayLine, options: ListOptions) -> LongRowView {
    LongRowView {
        mode: mode_text(line.entry),
        size: size_text(line.entry.size() as nat, options.human),
        time: modified_text(line.entry.modified),
        name: name_cell_of(line, options),
    }
}

/// The rows of a long listing.
pub open spec fn long_rows_of(lines: Seq<DisplayLine>, options: ListOptions) -> Seq<LongRowView> {
    lines.map_values(|l: DisplayLine| long_row_of(l, options))
}

/// The width of a column: the length of its longest text.
pub open spec fn column_width(rows: Seq<LongRowView>, column: spec_fn(LongRowView) -> Seq<char>) -> nat
    decreases rows.len(),
{
    if rows.len() == 0 {
        0
    } else {
        let before = column_width(rows.drop_last(), column);
        let here = column(rows.last()).len();
        if here > before {
            here
        } else {
            before
        }
    }
}

/// A long listing: its rows and the widths of the columns before the names.
#[derive(Debug, PartialEq, Eq)]
pub struct LongTable {
    pub rows: Vec<LongRow>,
    pub mode_width: usize,
    pub size_width: usize,
    pub time_width: usize,
}

/// What the rows of a long listing say.
pub open spec fn long_rows(rows: Seq<LongRow>) -> Seq<LongRowView> {
    rows.map_values(|r: LongRow| r@)
}

fn wider(width: usize, text: &str) -> (r: usize)
    ensures
        r == (if text@.len() > width {
            text@.len()
        } else {
            width as nat
        }),
{
    let n = text.unicode_len();
    if n > width {
        n
    } else {
        width
    }
}

/// Lays out a long listing: one row for each line, and each column as wide
/// as its longest text.
pub fn long_table(entries: &Vec<DisplayEntry>, options: &ListOptions) -> (r: LongTable)
    requires
        all_printable(entries@),
    ensures
        long_rows(r.rows@) == long_rows_of(lines_of(entries@), *options),
        r.mode_width == column_width(long_rows(r.rows@), |row: LongRowView| row.mode),
        r.size_width == column_width(long_rows(r.rows@), |row: LongRowView| row.size),
        r.time_width == column_width(long_rows(r.rows@), |row: LongRowView| row.time),
{
    let ghost want = long_rows_of(lines_of(entries@), *options);
    let ghost by_mode = |row: LongRowView| row.mode;
    let ghost by_size = |row: LongRowView| row.size;
    let ghost by_time = |row: LongRowView| row.time;
    let mut rows: Vec<LongRow> = Vec::new();
    let mut mode_width: usize = 0;
    let mut size_width: usize = 0;
    let mut time_width: usize = 0;
    let mut i: usize = 0;
    while i < entries.len()
        invariant
            i <= entries.len(),
            all_printable(entries@),
            want == long_rows_of(lines_of(entries@), *options),
            by_mode == (|row: LongRowView| row.mode),
            by_size == (|row: LongRowView| row.size),
            by_time == (|row: LongRowView| row.time),
            long_rows(rows@) == want.take(i as int),
            mode_width == column_width(want.take(i as int), by_mode),
            size_width == column_width(want.take(i as int), by_size),
            time_width == column_width(want.take(i as int), by_time),
        decreases entries.len() - i,
    {
        let line = &entries[i];
        let mode = format_mode(&line.entry);
        let size = format_size(line.entry.size(), options.human);
        let time = match &line.entry.modified {
            Some(t) => format_time(t),
            None => String::from_str("-"),
        };
        let name = name_cell(line, options);
        proof {
            assert(want.take(i as int + 1).drop_last() == want.take(i as int));
            assert(want.take(i as int + 1).last() == long_row_of(line@, *options));
        }
        mode_width = wider(mode_width, mode.as_str());
        size_width = wider(size_width, size.as_str());
        time_width = wider(time_width, time.as_str());
        let ghost before = long_rows(rows@);
        rows.push(LongRow { mode, size, time, name });
        assert(long_rows(rows@) =~= before.push(long_row_of(line@, *options)));
        assert(long_rows(rows@) =~= want.take(i as int + 1));
        i += 1;
    }
    assert(want.take(entries.len() as int) == want);
    LongTable { rows, mode_width, size_width, time_width }
}

/// The names of a short listing.
pub open spec fn name_cells(cells: Seq<NameCell>) -> Seq<NameCellView> {
    cells.map_values(|c: NameCell| c@)
}

/// Names every line of a listing.
pub fn short_names(entries: &Vec<DisplayEntry>, options: &ListOptions) -> (r: Vec<NameCell>)
    ensures
        name_cells(r@) == lines_of(entries@).map_values(|l: DisplayLine| name_cell_of(l, *options)),
{
    let ghost want = lines_of(entries@).map_values(|l: DisplayLine| name_cell_of(l, *options));
    let mut cells: Vec<NameCell> = Vec::new();
    let mut i: usize = 0;
    while i < entries.len()
        invariant
            i <= entries.len(),
            want == lines_of(entries@).map_values(|l: DisplayLine| name_cell_of(l, *options)),
            name_cells(cells@) == want.take(i as int),
        decreases entries.len() - i,
    {
        let ghost before = name_cells(cells@);
        cells.push(name_cell(&entries[i], options));
        assert(name_cells(cells@) =~= before.push(name_cell_of(entries@[i as int]@, *options)));
        assert(name_cells(cells@) =~= want.take(i as int + 1));
        i += 1;
    }
    assert(want.take(entries.len() as int) == want);
    cells
}

/// One line of the summary below a listing.
#[derive(Debug, PartialEq, Eq)]
pub enum SummaryLine {
    /// All bytes together, as a size for people.
    Total { bytes: String },
    /// One extension with its files and bytes.
    Extension { label: String, files: String, bytes: String },
}

/// What a line of the summary says.
pub enum SummaryLineView {
    Total { bytes: Seq<char> },
    Extension { label: Seq<char>, files: Seq<char>, bytes: Seq<char> },
}

impl View for SummaryLine {
    type V = SummaryLineView;

    open spec fn view(&self) -> SummaryLineView {
        match self {
            SummaryLine::Total { bytes } => SummaryLineView::Total { bytes: bytes@ },
            SummaryLine::Extension { label, files, bytes } => SummaryLineView::Extension {
                label: label@,
                files: files@,
                bytes: bytes@,
            },
        }
    }
}

/// The line of one extension: the extension behind a dot, or `(none)` for
/// files without one; the number of files; their bytes as a size for people.
pub open spec fn extension_line(row: ExtCount) -> SummaryLineView {
    SummaryLineView::Extension {
        label: if row.ext.len() == 0 {
            "(none)"@
        } else {
            seq!['.'] + row.ext
        },
        files: decimal_text(row.files) + " files"@,
        bytes: size_text(row.bytes, true),
    }
}

/// The lines of the summary below a listing: the total with `du`, then
/// with `extensions` one line for each extension in ascending order.
pub open spec fn summary_lines_of(counts: SummaryCounts, options: ListOptions) -> Seq<
    SummaryLineView,
> {
    (if options.du {
        seq![SummaryLineView::Total { bytes: size_text(counts.total_bytes, true) }]
    } else {
        Seq::empty()
    }) + (if options.extensions {
        counts.ext.map_values(|row: ExtCount| extension_line(row))
    } else {
        Seq::empty()
    })
}

/// What the lines of a summary say.
pub open spec fn summary_line_views(lines: Seq<SummaryLine>) -> Seq<SummaryLineView> {
    lines.map_values(|l: SummaryLine| l@)
}

fn extension_row(ext: &str, stats: &ExtSummary) -> (r: SummaryLine)
    ensures
        r@ == extension_line(
            ExtCount { ext: ext@, files: stats.files as nat, bytes: stats.bytes as nat },
        ),
{
    let label = if ext.is_empty() {
        String::from_str("(none)")
    } else {
        let mut label = String::new();
        label.push('.');
        label.append(ext);
        assert(label@ =~= seq!['.'] + ext@);
        label
    };
    let mut files = String::new();
    push_decimal(&mut files, stats.files);
    files.append(" files");
    assert(files@ =~= decimal_text(stats.files as nat) + " files"@);
    SummaryLine::Extension { label, files, bytes: format_size(stats.bytes, true) }
}

/// Writes the lines of the summary below a listing.
pub fn summary_lines(summary: &ListingSummary, options: &ListOptions) -> (r: Vec<SummaryLine>)
    ensures
        summary_line_views(r@) == summary_lines_of(summary.counts(), *options),
{
    let mut lines: Vec<SummaryLine> = Vec::new();
    if options.du {
        lines.push(SummaryLine::Total { bytes: format_size(summary.total_bytes(), true) });
    }
    let ghost head = summary_line_views(lines@);
    assert(head =~= if options.du {
        seq![SummaryLineView::Total { bytes: size_text(summary.counts().total_bytes, true) }]
    } else {
        Seq::<SummaryLineView>::empty()
    });
    if options.extensions {
        let rows = summary.extensions();
        let ghost want = summary.counts().ext.map_values(|row: ExtCount| extension_line(row));
        let mut i: usize = 0;
        while i < rows.len()
            invariant
                i <= rows.len(),
                crate::summary::ext_counts(rows@) == summary.counts().ext,
                want == summary.counts().ext.map_values(|row: ExtCount| extension_line(row)),
                summary_line_views(lines@) == head + want.take(i as int),
            decreases rows.len() - i,
        {
            let ghost before = summary_line_views(lines@);
            let line = extension_row(rows[i].0.as_str(), &rows[i].1);
            assert(crate::summary::ext_counts(rows@)[i as int] == ExtCount {
                ext: rows@[i as int].0@,
                files: rows@[i as int].1.files as nat,
                bytes: rows@[i as int].1.bytes as nat,
            });
            lines.push(line);
            assert(summary_line_views(lines@) =~= before.push(want[i as int]));
            assert(summary_line_views(lines@) =~= head + want.take(i as int + 1));
            i += 1;
        }
        assert(want.take(rows.len() as int) == want);
    } else {
        assert(summary_line_views(lines@) =~= head + Seq::<SummaryLineView>::empty());
    }
    lines
}

/// The body of a listing as text.
#[derive(Debug, PartialEq, Eq)]
pub enum TextBody {
    Long(LongTable),
    Short(Vec<NameCell>),
}

/// What a listing puts out: one structured record, or text with the lines
/// of the summary below it.
#[derive(Debug, PartialEq, Eq)]
pub enum Output {
    Record(JsonOutput),
    Text { body: TextBody, summary: Vec<SummaryLine> },
}

/// Turns a listing into what is put out. With `json` it is one structured
/// record. Else it is text: a long table with `long`, the names without;
/// and below it the lines of the summary, if there is one.
pub fn output_entries(
    root: &str,
    entries: &Vec<DisplayEntry>,
    summary: Option<&ListingSummary>,
    options: &ListOptions,
) -> (r: Output)
    requires
        options.json || options.long ==> all_printable(entries@),
    ensures
        match r {
            Output::Record(record) => {
                &&& options.json
                &&& record.root@ == root@
                &&& json_entries(record.entries@) == entries@.map_values(
                    |d: DisplayEntry| json_entry_of(d@),
                )
                &&& match summary {
                    Some(s) => record.summary matches Some(j) && j@ == s.json_view(
                        options.extensions,
                    ),
                    None => record.summary is None,
                }
                &&& record.error is None
            },
            Output::Text { body, summary: lines } => {
                &&& !options.json
                &&& match body {
                    TextBody::Long(table) => {
                        &&& options.long
                        &&& long_rows(table.rows@) == long_rows_of(lines_of(entries@), *options)
                        &&& table.mode_width == column_width(
                            long_rows(table.rows@),
                            |row: LongRowView| row.mode,
                        )
                        &&& table.size_width == column_width(
                            long_rows(table.rows@),
                            |row: LongRowView| row.size,
                        )
                        &&& table.time_width == column_width(
                            long_rows(table.rows@),
                            |row: LongRowView| row.time,
                        )
                    },
                    TextBody::Short(cells) => !options.long && name_cells(cells@) == lines_of(
                        entries@,
                    ).map_values(|l: DisplayLine| name_cell_of(l, *options)),
                }
                &&& summary_line_views(lines@) == (match summary {
                    Some(s) => summary_lines_of(s.counts(), *options),
                    None => Seq::empty(),
                })
            },
        },
{
    if options.json {
        return Output::Record(json_record(root, entries, summary, options.extensions));
    }
    let body = if options.long {
        TextBody::Long(long_table(entries, options))
    } else {
        TextBody::Short(short_names(entries, options))
    };
    let lines = match summary {
        Some(s) => summary_lines(s, options),
        None => {
            let none: Vec<SummaryLine> = Vec::new();
            assert(summary_line_views(none@) =~= Seq::empty());
            none
        },
    };
    Output::Text { body, summary: lines }
}

} // verus!
