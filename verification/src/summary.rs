//! Totals of files, directories and bytes, and the table of extensions.

use vstd::prelude::*;
use crate::entry::{extension_of, extension_text, hidden_name, is_hidden, EntryInfo};
use crate::error::ListError;
use crate::filter::{entry_printed, pattern_of, should_print_entry, GlobFilter};
use crate::options::ListOptions;
use crate::snapshot::{byte_count, byte_count_all, entry_count, entry_count_all, Node};
use crate::text::{
    ascii_lowercase, compare_text, lemma_lex_rank_flipped, lemma_lex_rank_transitive, lex_rank,
    to_ascii_lowercase, Rank,
};
use crate::tree::{child_rel, join_rel};

verus! {

/// How many files have one extension, and how many bytes they hold.
#[derive(Clone, Copy, Debug, PartialEq, Eq, Structural)]
pub struct ExtSummary {
    pub files: u64,
    pub bytes: u64,
}

/// The count for one extension, in unbounded numbers.
pub struct ExtCount {
    pub ext: Seq<char>,
    pub files: nat,
    pub bytes: nat,
}

/// What a table of extensions says, row by row.
pub open spec fn ext_counts(rows: Seq<(String, ExtSummary)>) -> Seq<ExtCount> {
    rows.map_values(
        |r: (String, ExtSummary)|
            ExtCount { ext: r.0@, files: r.1.files as nat, bytes: r.1.bytes as nat },
    )
}

/// The key under which a file is counted: its extension in small ASCII
/// letters, empty if it has none.
pub open spec fn ext_key(entry: EntryInfo) -> Seq<char> {
    ascii_lowercase(extension_text(entry.name@))
}

/// A table of extensions after one more file: its row counts one file and
/// its bytes more; a new row stands before the first row with a larger key.
pub open spec fn ext_added(rows: Seq<ExtCount>, ext: Seq<char>, bytes: nat) -> Seq<ExtCount>
    decreases rows.len(),
{
    if rows.len() == 0 {
        seq![ExtCount { ext, files: 1, bytes }]
    } else {
        match lex_rank(rows[0].ext, ext) {
            Rank::Same => rows.update(
                0,
                ExtCount { ext: rows[0].ext, files: rows[0].files + 1, bytes: rows[0].bytes + bytes },
            ),
            Rank::After => seq![ExtCount { ext, files: 1, bytes }] + rows,
            Rank::Before => seq![rows[0]] + ext_added(rows.drop_first(), ext, bytes),
        }
    }
}

/// The files of all rows together.
pub open spec fn rows_files(rows: Seq<ExtCount>) -> nat
    decreases rows.len(),
{
    if rows.len() == 0 {
        0
    } else {
        rows[0].files + rows_files(rows.drop_first())
    }
}

/// The bytes of all rows together.
pub open spec fn rows_bytes(rows: Seq<ExtCount>) -> nat
    decreases rows.len(),
{
    if rows.len() == 0 {
        0
    } else {
        rows[0].bytes + rows_bytes(rows.drop_first())
    }
}

/// One more file is one more file and its bytes more in the table as a whole.
pub proof fn lemma_ext_added_sums(rows: Seq<ExtCount>, ext: Seq<char>, bytes: nat)
    ensures
        rows_files(ext_added(rows, ext, bytes)) == rows_files(rows) + 1,
        rows_bytes(ext_added(rows, ext, bytes)) == rows_bytes(rows) + bytes,
    decreases rows.len(),
{
    let added = ext_added(rows, ext, bytes);
    if rows.len() == 0 {
        assert(added.drop_first() =~= rows);
    } else {
        match lex_rank(rows[0].ext, ext) {
            Rank::Same => {
                assert(added.drop_first() =~= rows.drop_first());
            },
            Rank::After => {
                assert(added.drop_first() =~= rows);
            },
            Rank::Before => {
                lemma_ext_added_sums(rows.drop_first(), ext, bytes);
                assert(added.drop_first() =~= ext_added(rows.drop_first(), ext, bytes));
            },
        }
    }
}

/// No row holds more than the table as a whole.
pub proof fn lemma_row_within_sums(rows: Seq<ExtCount>, i: int)
    requires
        0 <= i < rows.len(),
    ensures
        rows[i].files <= rows_files(rows),
        rows[i].bytes <= rows_bytes(rows),
    decreases rows.len(),
{
    if i > 0 {
        lemma_row_within_sums(rows.drop_first(), i - 1);
    }
}

/// Rows with smaller keys stay as they are when a file is added.
pub proof fn lemma_ext_added_after(rows: Seq<ExtCount>, ext: Seq<char>, bytes: nat, p: int)
    requires
        0 <= p <= rows.len(),
        forall|j: int| 0 <= j < p ==> lex_rank(#[trigger] rows[j].ext, ext) == Rank::Before,
    ensures
        ext_added(rows, ext, bytes) == rows.take(p) + ext_added(rows.skip(p), ext, bytes),
    decreases p,
{
    if p == 0 {
        assert(rows.skip(0) == rows);
        assert(rows.take(0) + ext_added(rows, ext, bytes) =~= ext_added(rows, ext, bytes));
    } else {
        let rest = rows.drop_first();
        assert(lex_rank(rows[0].ext, ext) == Rank::Before);
        assert forall|j: int| 0 <= j < p - 1 implies lex_rank(#[trigger] rest[j].ext, ext)
            == Rank::Before by {
            assert(rest[j] == rows[j + 1]);
        }
        lemma_ext_added_after(rest, ext, bytes, p - 1);
        assert(rest.skip(p - 1) == rows.skip(p));
        assert(seq![rows[0]] + (rest.take(p - 1) + ext_added(rows.skip(p), ext, bytes))
            =~= rows.take(p) + ext_added(rows.skip(p), ext, bytes));
    }
}

/// Whether the rows stand in ascending order of their extensions, each
/// extension once.
pub open spec fn ascending(rows: Seq<ExtCount>) -> bool {
    forall|i: int, j: int|
        0 <= i < j < rows.len() ==> lex_rank(rows[i].ext, rows[j].ext) == Rank::Before
}

/// After one more file every row is for the extension of the file or for
/// an extension that had a row before.
pub proof fn lemma_ext_added_keys(rows: Seq<ExtCount>, ext: Seq<char>, bytes: nat, i: int)
    requires
        0 <= i < ext_added(rows, ext, bytes).len(),
    ensures
        ext_added(rows, ext, bytes)[i].ext == ext || exists|j: int|
            0 <= j < rows.len() && rows[j].ext == ext_added(rows, ext, bytes)[i].ext,
    decreases rows.len(),
{
    if rows.len() > 0 {
        match lex_rank(rows[0].ext, ext) {
            Rank::Same => {
                assert(rows[i].ext == ext_added(rows, ext, bytes)[i].ext);
            },
            Rank::After => {
                if i > 0 {
                    assert(rows[i - 1].ext == ext_added(rows, ext, bytes)[i].ext);
                }
            },
            Rank::Before => {
                if i == 0 {
                    assert(rows[0].ext == ext_added(rows, ext, bytes)[i].ext);
                } else {
                    let rest = rows.drop_first();
                    lemma_ext_added_keys(rest, ext, bytes, i - 1);
                    let row = ext_added(rest, ext, bytes)[i - 1];
                    if row.ext != ext {
                        let j = choose|j: int| 0 <= j < rest.len() && rest[j].ext == row.ext;
                        assert(rows[j + 1].ext == row.ext);
                    }
                }
            },
        }
    }
}

/// One more file keeps the table in ascending order.
pub proof fn lemma_ext_added_ascending(rows: Seq<ExtCount>, ext: Seq<char>, bytes: nat)
    requires
        ascending(rows),
    ensures
        ascending(ext_added(rows, ext, bytes)),
    decreases rows.len(),
{
    let added = ext_added(rows, ext, bytes);
    if rows.len() > 0 {
        match lex_rank(rows[0].ext, ext) {
            Rank::Same => {},
            Rank::After => {
                lemma_lex_rank_flipped(rows[0].ext, ext);
                assert forall|i: int, j: int| 0 <= i < j < added.len() implies lex_rank(
                    added[i].ext,
                    added[j].ext,
                ) == Rank::Before by {
                    if i == 0 {
                        if j > 1 {
                            lemma_lex_rank_transitive(ext, rows[0].ext, rows[j - 1].ext);
                        }
                    } else {
                        assert(added[i] == rows[i - 1] && added[j] == rows[j - 1]);
                    }
                }
            },
            Rank::Before => {
                let rest = rows.drop_first();
                assert(ascending(rest)) by {
                    assert forall|i: int, j: int| 0 <= i < j < rest.len() implies lex_rank(
                        rest[i].ext,
                        rest[j].ext,
                    ) == Rank::Before by {
                        assert(rest[i] == rows[i + 1] && rest[j] == rows[j + 1]);
                    }
                }
                lemma_ext_added_ascending(rest, ext, bytes);
                let tail = ext_added(rest, ext, bytes);
                assert forall|i: int, j: int| 0 <= i < j < added.len() implies lex_rank(
                    added[i].ext,
                    added[j].ext,
                ) == Rank::Before by {
                    assert(added[j] == tail[j - 1]);
                    if i == 0 {
                        lemma_ext_added_keys(rest, ext, bytes, j - 1);
                        if tail[j - 1].ext != ext {
                            let k = choose|k: int|
                                0 <= k < rest.len() && rest[k].ext == tail[j - 1].ext;
                            assert(rest[k] == rows[k + 1]);
                        }
                    } else {
                        assert(added[i] == tail[i - 1]);
                    }
                }
            },
        }
    }
}

/// Counts one more file in a table of extensions: under its extension in
/// small ASCII letters, with its size.
pub fn add_extension_stat(rows: &mut Vec<(String, ExtSummary)>, entry: &EntryInfo)
    requires
        rows_files(ext_counts(old(rows)@)) < u64::MAX,
        rows_bytes(ext_counts(old(rows)@)) + entry.size() <= u64::MAX,
    ensures
        ext_counts(final(rows)@) == ext_added(
            ext_counts(old(rows)@),
            ext_key(*entry),
            entry.size() as nat,
        ),
{
    let extension = extension_of(entry.name.as_str());
    let ext = to_ascii_lowercase(extension.as_str());
    let ghost before = ext_counts(rows@);
    let mut p: usize = 0;
    let mut at = Rank::Before;
    while at == Rank::Before && p < rows.len()
        invariant
            p <= rows.len(),
            rows@ == old(rows)@,
            before == ext_counts(rows@),
            forall|j: int| 0 <= j < p ==> lex_rank(#[trigger] before[j].ext, ext@) == Rank::Before,
            at != Rank::Before ==> p < rows.len() && at == lex_rank(before[p as int].ext, ext@),
        decreases rows.len() - p + (if at == Rank::Before { 1int } else { 0int }),
    {
        let r = compare_text(rows[p].0.as_str(), ext.as_str());
        if r == Rank::Before {
            p += 1;
        } else {
            at = r;
        }
    }
    proof {
        lemma_ext_added_after(before, ext@, entry.size() as nat, p as int);
    }
    let ghost tail = before.skip(p as int);
    if at == Rank::Same {
        proof {
            lemma_row_within_sums(before, p as int);
            assert(tail[0] == before[p as int]);
        }
        let key = rows[p].0.clone();
        let old_stats = rows[p].1;
        rows.set(
            p,
            (key, ExtSummary { files: old_stats.files + 1, bytes: old_stats.bytes + entry.size() }),
        );
        assert(ext_counts(rows@) =~= before.take(p as int) + ext_added(
            tail,
            ext@,
            entry.size() as nat,
        ));
    } else if at == Rank::After {
        assert(tail[0] == before[p as int]);
        rows.insert(p, (ext, ExtSummary { files: 1, bytes: entry.size() }));
        assert(ext_counts(rows@) =~= before.take(p as int) + ext_added(
            tail,
            ext@,
            entry.size() as nat,
        ));
    } else {
        assert(tail.len() == 0);
        rows.push((ext, ExtSummary { files: 1, bytes: entry.size() }));
        assert(ext_counts(rows@) =~= before.take(p as int) + ext_added(
            tail,
            ext@,
            entry.size() as nat,
        ));
    }
}

/// The sizes of the entries together.
pub open spec fn sum_sizes(files: Seq<EntryInfo>) -> nat
    decreases files.len(),
{
    if files.len() == 0 {
        0
    } else {
        sum_sizes(files.drop_last()) + files.last().size() as nat
    }
}

/// A table of extensions after the files were added one after the other.
pub open spec fn ext_rows_from(rows: Seq<ExtCount>, files: Seq<EntryInfo>) -> Seq<ExtCount>
    decreases files.len(),
{
    if files.len() == 0 {
        rows
    } else {
        ext_added(
            ext_rows_from(rows, files.drop_last()),
            ext_key(files.last()),
            files.last().size() as nat,
        )
    }
}

/// What a summary says, in unbounded numbers.
pub struct SummaryCounts {
    pub total_bytes: nat,
    pub total_files: nat,
    pub total_dirs: nat,
    pub ext: Seq<ExtCount>,
}

impl SummaryCounts {
    /// The summary of nothing.
    pub open spec fn empty() -> SummaryCounts {
        SummaryCounts { total_bytes: 0, total_files: 0, total_dirs: 0, ext: Seq::empty() }
    }

    /// The summary after these files and this many directories more were counted.
    pub open spec fn added(self, files: Seq<EntryInfo>, dirs: nat) -> SummaryCounts {
        SummaryCounts {
            total_bytes: self.total_bytes + sum_sizes(files),
            total_files: self.total_files + files.len(),
            total_dirs: self.total_dirs + dirs,
            ext: ext_rows_from(self.ext, files),
        }
    }

    /// What the table of extensions holds is what the totals say of files and bytes.
    pub open spec fn balanced(self) -> bool {
        &&& rows_files(self.ext) == self.total_files
        &&& rows_bytes(self.ext) == self.total_bytes
    }
}

/// Adding files in two goes is adding them in one.
pub proof fn lemma_added_twice(
    s: SummaryCounts,
    first: Seq<EntryInfo>,
    first_dirs: nat,
    second: Seq<EntryInfo>,
    second_dirs: nat,
)
    ensures
        s.added(first, first_dirs).added(second, second_dirs) == s.added(
            first + second,
            first_dirs + second_dirs,
        ),
    decreases second.len(),
{
    if second.len() == 0 {
        assert(first + second =~= first);
    } else {
        lemma_added_twice(s, first, first_dirs, second.drop_last(), second_dirs);
        assert((first + second).drop_last() =~= first + second.drop_last());
        assert((first + second).last() == second.last());
    }
}

/// Adding files keeps a summary balanced.
pub proof fn lemma_added_balanced(s: SummaryCounts, files: Seq<EntryInfo>, dirs: nat)
    requires
        s.balanced(),
    ensures
        s.added(files, dirs).balanced(),
    decreases files.len(),
{
    if files.len() > 0 {
        lemma_added_balanced(s, files.drop_last(), dirs);
        lemma_ext_added_sums(
            ext_rows_from(s.ext, files.drop_last()),
            ext_key(files.last()),
            files.last().size() as nat,
        );
    }
}

/// A table that grows file by file from an ascending one is ascending.
pub proof fn lemma_ext_rows_ascending(rows: Seq<ExtCount>, files: Seq<EntryInfo>)
    requires
        ascending(rows),
    ensures
        ascending(ext_rows_from(rows, files)),
    decreases files.len(),
{
    if files.len() > 0 {
        lemma_ext_rows_ascending(rows, files.drop_last());
        lemma_ext_added_ascending(
            ext_rows_from(rows, files.drop_last()),
            ext_key(files.last()),
            files.last().size() as nat,
        );
    }
}

/// Totals of bytes, files and directories, and the files and bytes of each
/// extension, in ascending order of the extensions.
#[derive(Debug, PartialEq, Eq)]
pub struct ListingSummary {
    pub(crate) total_bytes: u64,
    pub(crate) total_files: u64,
    pub(crate) total_dirs: u64,
    pub(crate) ext: Vec<(String, ExtSummary)>,
}

impl ListingSummary {
    /// What the summary says.
    pub open(crate) spec fn counts(self) -> SummaryCounts {
        SummaryCounts {
            total_bytes: self.total_bytes as nat,
            total_files: self.total_files as nat,
            total_dirs: self.total_dirs as nat,
            ext: ext_counts(self.ext@),
        }
    }

    /// The rows of the table add up to the totals of files and bytes, and
    /// stand in ascending order of their extensions.
    #[verifier::type_invariant]
    pub open(crate) spec fn sound(self) -> bool {
        self.counts().balanced() && ascending(self.counts().ext)
    }

    /// A summary of nothing.
    pub fn new() -> (r: ListingSummary)
        ensures
            r.counts() == SummaryCounts::empty(),
    {
        let ext: Vec<(String, ExtSummary)> = Vec::new();
        assert(ext_counts(ext@) =~= Seq::empty());
        ListingSummary { total_bytes: 0, total_files: 0, total_dirs: 0, ext }
    }

    pub fn total_bytes(&self) -> (r: u64)
        ensures
            r == self.counts().total_bytes,
    {
        self.total_bytes
    }

    pub fn total_files(&self) -> (r: u64)
        ensures
            r == self.counts().total_files,
    {
        self.total_files
    }

    pub fn total_dirs(&self) -> (r: u64)
        ensures
            r == self.counts().total_dirs,
    {
        self.total_dirs
    }

    /// The table of extensions, row by row in ascending order; its rows add
    /// up to the totals of files and bytes.
    pub fn extensions(&self) -> (r: &Vec<(String, ExtSummary)>)
        ensures
            ext_counts(r@) == self.counts().ext,
            ascending(ext_counts(r@)),
            rows_files(ext_counts(r@)) == self.counts().total_files,
            rows_bytes(ext_counts(r@)) == self.counts().total_bytes,
    {
        proof {
            use_type_invariant(self);
        }
        &self.ext
    }

    /// The summary with one file more: in the totals and under its extension.
    pub fn count_file(self, entry: &EntryInfo) -> (r: ListingSummary)
        requires
            self.counts().total_files < u64::MAX,
            self.counts().total_bytes + entry.size() <= u64::MAX,
        ensures
            r.counts() == self.counts().added(seq![*entry], 0),
    {
        proof {
            use_type_invariant(&self);
            lemma_ext_added_sums(self.counts().ext, ext_key(*entry), entry.size() as nat);
            lemma_ext_added_ascending(self.counts().ext, ext_key(*entry), entry.size() as nat);
            let one = seq![*entry];
            assert(one.drop_last() =~= Seq::<EntryInfo>::empty());
            assert(sum_sizes(one.drop_last()) == 0);
            assert(ext_rows_from(self.counts().ext, one.drop_last()) == self.counts().ext);
        }
        let ListingSummary { total_bytes, total_files, total_dirs, ext } = self;
        let mut ext = ext;
        add_extension_stat(&mut ext, entry);
        ListingSummary {
            total_bytes: total_bytes + entry.size(),
            total_files: total_files + 1,
            total_dirs,
            ext,
        }
    }

    /// The summary with one directory more.
    pub fn count_dir(self) -> (r: ListingSummary)
        requires
            self.counts().total_dirs < u64::MAX,
        ensures
            r.counts() == self.counts().added(Seq::empty(), 1),
    {
        proof {
            use_type_invariant(&self);
        }
        let ListingSummary { total_bytes, total_files, total_dirs, ext } = self;
        ListingSummary { total_bytes, total_files, total_dirs: total_dirs + 1, ext }
    }
}

/// The files that a summary counts below a directory, in the order of the
/// walk: of the entries that a listing shows, at any depth, those that are no
/// directories and pass the filter. What is in a directory is walked whether
/// or not the directory passes the filter.
pub open spec fn counted_files(
    dir: Node,
    base: Seq<char>,
    options: ListOptions,
    pattern: Option<Seq<char>>,
) -> Seq<EntryInfo>
    decreases dir, 1nat, 0nat,
{
    files_upto(dir, dir.kids().len() as int, base, options, pattern)
}

/// The counted files among the first `n` nodes of a directory and below them.
pub open spec fn files_upto(
    dir: Node,
    n: int,
    base: Seq<char>,
    options: ListOptions,
    pattern: Option<Seq<char>>,
) -> Seq<EntryInfo>
    decreases dir, 0nat, n,
{
    if 0 < n <= dir.kids().len() {
        let child = dir.kids()[n - 1];
        let rel = child_rel(base, child.info().name@);
        let before = files_upto(dir, n - 1, base, options, pattern);
        if !(options.all || !hidden_name(child.info().name@)) {
            before
        } else if child.info().is_dir() {
            before + counted_files(child, rel, options, pattern)
        } else if entry_printed(child.info(), rel, options, pattern) {
            before.push(child.info())
        } else {
            before
        }
    } else {
        Seq::empty()
    }
}

/// The directories that a summary counts below a directory: of the entries
/// that a listing shows, at any depth, the directories that pass the filter,
/// each after what it holds.
pub open spec fn counted_dirs(
    dir: Node,
    base: Seq<char>,
    options: ListOptions,
    pattern: Option<Seq<char>>,
) -> Seq<EntryInfo>
    decreases dir, 1nat, 0nat,
{
    dirs_upto(dir, dir.kids().len() as int, base, options, pattern)
}

/// The counted directories among the first `n` nodes of a directory and below them.
pub open spec fn dirs_upto(
    dir: Node,
    n: int,
    base: Seq<char>,
    options: ListOptions,
    pattern: Option<Seq<char>>,
) -> Seq<EntryInfo>
    decreases dir, 0nat, n,
{
    if 0 < n <= dir.kids().len() {
        let child = dir.kids()[n - 1];
        let rel = child_rel(base, child.info().name@);
        let before = dirs_upto(dir, n - 1, base, options, pattern);
        if !(options.all || !hidden_name(child.info().name@)) {
            before
        } else if child.info().is_dir() {
            before + counted_dirs(child, rel, options, pattern) + (if entry_printed(
                child.info(),
                rel,
                options,
                pattern,
            ) {
                seq![child.info()]
            } else {
                Seq::empty()
            })
        } else {
            before
        }
    } else {
        Seq::empty()
    }
}

/// The reason why the walk below a directory fails, if it does: that of the
/// first directory on the way that cannot be read.
pub open spec fn summary_failure(dir: Node, options: ListOptions) -> Option<Seq<char>>
    decreases dir, 1nat, 0nat,
{
    match dir.read_failure() {
        Some(m) => Some(m),
        None => summary_failure_from(dir, 0, options),
    }
}

/// The first failure of the walk from the node at position `i` on.
pub open spec fn summary_failure_from(dir: Node, i: int, options: ListOptions) -> Option<
    Seq<char>,
>
    decreases dir, 0nat, dir.kids().len() - i,
{
    if 0 <= i < dir.kids().len() {
        let child = dir.kids()[i];
        if (options.all || !hidden_name(child.info().name@)) && child.info().is_dir() {
            match summary_failure(child, options) {
                Some(m) => Some(m),
                None => summary_failure_from(dir, i + 1, options),
            }
        } else {
            summary_failure_from(dir, i + 1, options)
        }
    } else {
        None
    }
}

/// What the walk counts below the first `n` nodes of a directory is no more
/// than what is there.
pub proof fn lemma_counted_within(
    dir: Node,
    n: int,
    base: Seq<char>,
    options: ListOptions,
    pattern: Option<Seq<char>>,
)
    requires
        0 <= n <= dir.kids().len(),
    ensures
        files_upto(dir, n, base, options, pattern).len() + dirs_upto(
            dir,
            n,
            base,
            options,
            pattern,
        ).len() <= entry_count_all(dir.kids().take(n)),
        sum_sizes(files_upto(dir, n, base, options, pattern)) <= byte_count_all(dir.kids().take(n)),
    decreases dir, n,
{
    if n > 0 {
        let child = dir.kids()[n - 1];
        let rel = child_rel(base, child.info().name@);
        lemma_counted_within(dir, n - 1, base, options, pattern);
        assert(dir.kids().take(n).drop_last() == dir.kids().take(n - 1));
        assert(dir.kids().take(n).last() == child);
        assert(entry_count_all(dir.kids().take(n)) == entry_count_all(dir.kids().take(n - 1))
            + entry_count(child));
        assert(byte_count_all(dir.kids().take(n)) == byte_count_all(dir.kids().take(n - 1))
            + byte_count(child));
        let before = files_upto(dir, n - 1, base, options, pattern);
        if child.info().is_dir() {
            lemma_counted_within(child, child.kids().len() as int, rel, options, pattern);
            assert(child.kids().take(child.kids().len() as int) == child.kids());
            lemma_sum_sizes_concat(before, counted_files(child, rel, options, pattern));
            let dirs_before = dirs_upto(dir, n - 1, base, options, pattern);
            let shown = options.all || !hidden_name(child.info().name@);
            assert(counted_files(child, rel, options, pattern).len() + counted_dirs(
                child,
                rel,
                options,
                pattern,
            ).len() <= entry_count_all(child.kids()));
            assert(entry_count(child) == 1 + entry_count_all(child.kids()));
            assert(files_upto(dir, n, base, options, pattern).len() <= before.len()
                + counted_files(child, rel, options, pattern).len());
            assert(dirs_upto(dir, n, base, options, pattern).len() <= dirs_before.len()
                + counted_dirs(child, rel, options, pattern).len() + 1);
        } else {
            assert(before.push(child.info()).drop_last() == before);
            assert(before.push(child.info()).last() == child.info());
        }
    } else {
        assert(dir.kids().take(0).len() == 0);
    }
}

/// The sizes of two rows of entries together are the sizes of the one plus
/// those of the other.
pub proof fn lemma_sum_sizes_concat(a: Seq<EntryInfo>, b: Seq<EntryInfo>)
    ensures
        sum_sizes(a + b) == sum_sizes(a) + sum_sizes(b),
    decreases b.len(),
{
    if b.len() == 0 {
        assert(a + b =~= a);
    } else {
        lemma_sum_sizes_concat(a, b.drop_last());
        assert((a + b).drop_last() =~= a + b.drop_last());
        assert((a + b).last() == b.last());
    }
}


/// What is counted among the first nodes of a directory stays counted
/// when more nodes are walked.
pub proof fn lemma_files_upto_grows(
    dir: Node,
    k: int,
    n: int,
    base: Seq<char>,
    options: ListOptions,
    pattern: Option<Seq<char>>,
    file: EntryInfo,
)
    requires
        0 <= k <= n <= dir.kids().len(),
        files_upto(dir, k, base, options, pattern).contains(file),
    ensures
        files_upto(dir, n, base, options, pattern).contains(file),
    decreases n - k,
{
    if k < n {
        lemma_files_upto_grows(dir, k, n - 1, base, options, pattern, file);
        let before = files_upto(dir, n - 1, base, options, pattern);
        let now = files_upto(dir, n, base, options, pattern);
        let at = choose|at: int| 0 <= at < before.len() && before[at] == file;
        assert(before.len() <= now.len() && now[at] == file);
    }
}

/// A file that a listing shows and that passes the filter is counted below
/// the directory that holds it.
pub proof fn lemma_file_is_counted(
    dir: Node,
    i: int,
    base: Seq<char>,
    options: ListOptions,
    pattern: Option<Seq<char>>,
)
    requires
        0 <= i < dir.kids().len(),
        options.all || !hidden_name(dir.kids()[i].info().name@),
        !dir.kids()[i].info().is_dir(),
        entry_printed(
            dir.kids()[i].info(),
            child_rel(base, dir.kids()[i].info().name@),
            options,
            pattern,
        ),
    ensures
        counted_files(dir, base, options, pattern).contains(dir.kids()[i].info()),
{
    let upto = files_upto(dir, i + 1, base, options, pattern);
    assert(upto[upto.len() - 1] == dir.kids()[i].info());
    lemma_files_upto_grows(
        dir,
        i + 1,
        dir.kids().len() as int,
        base,
        options,
        pattern,
        dir.kids()[i].info(),
    );
}

/// What is counted below a directory that a listing shows is counted below
/// the directory that holds it, whether or not the directory in between
/// passes the filter: a directory that is filtered out is still walked.
pub proof fn lemma_counted_through(
    dir: Node,
    i: int,
    base: Seq<char>,
    options: ListOptions,
    pattern: Option<Seq<char>>,
    file: EntryInfo,
)
    requires
        0 <= i < dir.kids().len(),
        options.all || !hidden_name(dir.kids()[i].info().name@),
        dir.kids()[i].info().is_dir(),
        counted_files(
            dir.kids()[i],
            child_rel(base, dir.kids()[i].info().name@),
            options,
            pattern,
        ).contains(file),
    ensures
        counted_files(dir, base, options, pattern).contains(file),
{
    let child = dir.kids()[i];
    let below = counted_files(child, child_rel(base, child.info().name@), options, pattern);
    let before = files_upto(dir, i, base, options, pattern);
    let upto = files_upto(dir, i + 1, base, options, pattern);
    assert(upto == before + below);
    let at = choose|at: int| 0 <= at < below.len() && below[at] == file;
    assert(upto[before.len() + at] == file);
    lemma_files_upto_grows(dir, i + 1, dir.kids().len() as int, base, options, pattern, file);
}

/// The first nodes of a row hold no more than the whole row.
pub proof fn lemma_prefix_within(nodes: Seq<Node>, n: int)
    requires
        0 <= n <= nodes.len(),
    ensures
        entry_count_all(nodes.take(n)) <= entry_count_all(nodes),
        byte_count_all(nodes.take(n)) <= byte_count_all(nodes),
    decreases nodes.len() - n,
{
    if n == nodes.len() {
        assert(nodes.take(n) == nodes);
    } else {
        lemma_prefix_within(nodes, n + 1);
        assert(nodes.take(n + 1).drop_last() == nodes.take(n));
    }
}

/// Walks everything below a directory and counts it into a summary: each
/// entry that a listing shows and that passes the filter, a directory as a
/// directory, anything else as a file with its size and extension. Gives the
/// summary with all of it added, or fails where a directory on the way
/// cannot be read, with its reason. The counters must have room for what is
/// below the directory.
pub fn walk_summary_dir(
    dir: &Node,
    base: &str,
    options: &ListOptions,
    matcher: Option<&GlobFilter>,
    summary: ListingSummary,
) -> (r: Result<ListingSummary, ListError>)
    requires
        summary.counts().total_files + summary.counts().total_dirs + entry_count_all(dir.kids())
            <= u64::MAX,
        summary.counts().total_bytes + byte_count_all(dir.kids()) <= u64::MAX,
    ensures
        match summary_failure(*dir, *options) {
            Some(m) => r matches Err(ListError::Io { message }) && message@ == m,
            None => r matches Ok(walked) && walked.counts() == summary.counts().added(
                counted_files(*dir, base@, *options, pattern_of(matcher)),
                counted_dirs(*dir, base@, *options, pattern_of(matcher)).len(),
            ),
        },
    decreases dir,
{
    if let Some(message) = dir.read_error() {
        return Err(ListError::Io { message });
    }
    let ghost pattern = pattern_of(matcher);
    let ghost start = summary.counts();
    let mut summary = summary;
    let mut i: usize = 0;
    while i < dir.children.len()
        invariant
            i <= dir.children.len(),
            pattern == pattern_of(matcher),
            start.total_files + start.total_dirs + entry_count_all(dir.kids()) <= u64::MAX,
            start.total_bytes + byte_count_all(dir.kids()) <= u64::MAX,
            summary.counts() == start.added(
                files_upto(*dir, i as int, base@, *options, pattern),
                dirs_upto(*dir, i as int, base@, *options, pattern).len(),
            ),
            summary_failure(*dir, *options) == summary_failure_from(*dir, i as int, *options),
        decreases dir.children.len() - i,
    {
        let child = &dir.children[i];
        let ghost files = files_upto(*dir, i as int, base@, *options, pattern);
        let ghost dirs = dirs_upto(*dir, i as int, base@, *options, pattern);
        proof {
            lemma_counted_within(*dir, i as int, base@, *options, pattern);
            lemma_prefix_within(dir.kids(), i as int + 1);
            assert(dir.kids().take(i as int + 1).drop_last() == dir.kids().take(i as int));
            assert(dir.kids().take(i as int + 1).last() == *child);
            assert(entry_count_all(dir.kids().take(i as int + 1)) == entry_count_all(
                dir.kids().take(i as int),
            ) + entry_count(*child));
            assert(byte_count_all(dir.kids().take(i as int + 1)) == byte_count_all(
                dir.kids().take(i as int),
            ) + byte_count(*child));
            assert(entry_count(*child) == 1 + entry_count_all(child.kids()));
            assert(byte_count(*child) == child.info().size() + byte_count_all(child.kids()));
        }
        if options.all || !is_hidden(child.entry.name.as_str()) {
            let rel = join_rel(base, child.entry.name.as_str());
            if child.entry.is_dir() {
                let walked = walk_summary_dir(child, rel.as_str(), options, matcher, summary);
                match walked {
                    Ok(s) => {
                        summary = s;
                    },
                    Err(e) => {
                        return Err(e);
                    },
                }
                let ghost more_files = counted_files(*child, rel@, *options, pattern);
                let ghost more_dirs = counted_dirs(*child, rel@, *options, pattern);
                proof {
                    lemma_added_twice(start, files, dirs.len(), more_files, more_dirs.len());
                    lemma_counted_within(
                        *child,
                        child.kids().len() as int,
                        rel@,
                        *options,
                        pattern,
                    );
                    assert(child.kids().take(child.kids().len() as int) == child.kids());
                    lemma_sum_sizes_concat(files, more_files);
                }
                if should_print_entry(&child.entry, rel.as_str(), options, matcher) {
                    proof {
                        lemma_added_twice(
                            start,
                            files + more_files,
                            (dirs + more_dirs).len(),
                            Seq::empty(),
                            1,
                        );
                        assert(files + more_files + Seq::<EntryInfo>::empty() =~= files
                            + more_files);
                    }
                    summary = summary.count_dir();
                    assert(summary.counts() == start.added(
                        files + more_files,
                        (dirs + more_dirs + seq![child.entry]).len(),
                    ));
                } else {
                    assert(dirs + more_dirs + Seq::<EntryInfo>::empty() =~= dirs + more_dirs);
                }
            } else if should_print_entry(&child.entry, rel.as_str(), options, matcher) {
                summary = summary.count_file(&child.entry);
                proof {
                    lemma_added_twice(start, files, dirs.len(), seq![child.entry], 0);
                    assert(files + seq![child.entry] =~= files.push(child.entry));
                }
            }
        }
        i += 1;
    }
    Ok(summary)
}

/// The files that a summary of a listing counts: for a directory those that
/// the walk below it counts, for anything else the root itself if it passes
/// the filter under its own name.
pub open spec fn summary_files(
    root: Node,
    options: ListOptions,
    pattern: Option<Seq<char>>,
) -> Seq<EntryInfo> {
    if root.info().is_dir() {
        counted_files(root, Seq::empty(), options, pattern)
    } else if entry_printed(root.info(), root.info().name@, options, pattern) {
        seq![root.info()]
    } else {
        Seq::empty()
    }
}

/// The directories that a summary of a listing counts: those below the root.
pub open spec fn summary_dirs(
    root: Node,
    options: ListOptions,
    pattern: Option<Seq<char>>,
) -> Seq<EntryInfo> {
    if root.info().is_dir() {
        counted_dirs(root, Seq::empty(), options, pattern)
    } else {
        Seq::empty()
    }
}

/// Sums up what is below the root of a listing, or the root itself if it is
/// no directory. The number of files is the number of counted files, the
/// bytes are their sizes together, and the table of extensions holds each of
/// them once, so that its rows add up to the totals. Fails exactly where a
/// directory on the way cannot be read.
pub fn compute_summary(
    root: &Node,
    options: &ListOptions,
    matcher: Option<&GlobFilter>,
) -> (r: Result<ListingSummary, ListError>)
    ensures
        match (if root.info().is_dir() {
            summary_failure(*root, *options)
        } else {
            None
        }) {
            Some(m) => r matches Err(ListError::Io { message }) && message@ == m,
            None => r matches Ok(summary) && summary.counts() == SummaryCounts::empty().added(
                summary_files(*root, *options, pattern_of(matcher)),
                summary_dirs(*root, *options, pattern_of(matcher)).len(),
            ) && summary.counts().balanced() && ascending(summary.counts().ext),
        },
{
    let ghost pattern = pattern_of(matcher);
    let summary = ListingSummary::new();
    proof {
        use_type_invariant(root);
        reveal_strlit("");
        assert(""@ =~= Seq::<char>::empty());
    }
    let summed = if !root.entry.is_dir() {
        if should_print_entry(&root.entry, root.entry.name.as_str(), options, matcher) {
            summary.count_file(&root.entry)
        } else {
            assert(summary.counts() == SummaryCounts::empty().added(Seq::empty(), 0));
            summary
        }
    } else {
        match walk_summary_dir(root, "", options, matcher, summary) {
            Ok(walked) => walked,
            Err(e) => {
                return Err(e);
            },
        }
    };
    proof {
        use_type_invariant(&summed);
    }
    Ok(summed)
}

} // verus!
