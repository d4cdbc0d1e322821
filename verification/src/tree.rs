//! The lines of a listing, flat or as a tree in which a directory is shown
//! for what lies below it.

use vstd::prelude::*;
use vstd::string::StringExecFns;
use crate::entry::{hidden_name, is_hidden, EntryInfo};
use crate::error::ListError;
use crate::filter::{entry_printed, pattern_of, should_print_entry, GlobFilter};
use crate::options::ListOptions;
use crate::order::{
    lemma_sorted_order_is_permutation, positions, sort_entries, sort_order, sorted_entries,
    sorted_order,
};
use crate::snapshot::{entries_of, read_entries, visible_nodes, Node};

verus! {

/// One line of a listing: an entry, the glyphs drawn to the left of its name
/// (none in a flat listing) and its path relative to the root of the listing.
#[derive(Debug, PartialEq, Eq)]
pub struct DisplayEntry {
    pub entry: EntryInfo,
    pub prefix: String,
    pub rel_path: String,
}

/// What a line of a listing says.
pub struct DisplayLine {
    pub entry: EntryInfo,
    pub prefix: Seq<char>,
    pub rel_path: Seq<char>,
}

impl View for DisplayEntry {
    type V = DisplayLine;

    open spec fn view(&self) -> DisplayLine {
        DisplayLine { entry: self.entry, prefix: self.prefix@, rel_path: self.rel_path@ }
    }
}

impl Clone for DisplayEntry {
    fn clone(&self) -> (r: Self)
        ensures
            r == *self,
    {
        DisplayEntry {
            entry: self.entry.clone(),
            prefix: self.prefix.clone(),
            rel_path: self.rel_path.clone(),
        }
    }
}

/// What the lines of a listing say, line by line.
pub open spec fn lines_of(entries: Seq<DisplayEntry>) -> Seq<DisplayLine> {
    entries.map_values(|d: DisplayEntry| d@)
}

/// The relative path of an entry in a directory with the relative path
/// `base`: directly below the root it is the name, deeper down the
/// directory's path, a slash and the name.
pub open spec fn child_rel(base: Seq<char>, name: Seq<char>) -> Seq<char> {
    if base.len() == 0 {
        name
    } else {
        base.push('/') + name
    }
}

/// Builds the relative path of an entry in a directory.
pub fn join_rel(base: &str, name: &str) -> (r: String)
    ensures
        r@ == child_rel(base@, name@),
{
    if base.is_empty() {
        String::from_str(name)
    } else {
        let mut out = String::from_str(base);
        out.push('/');
        out.append(name);
        out
    }
}

/// The glyphs for the levels above an entry: a bar where the ancestor has
/// siblings still to come, blanks where it was the last.
pub open spec fn ancestor_bars(ancestor_more: Seq<bool>) -> Seq<char>
    decreases ancestor_more.len(),
{
    if ancestor_more.len() == 0 {
        Seq::empty()
    } else {
        ancestor_bars(ancestor_more.drop_last()) + (if ancestor_more.last() {
            "│   "@
        } else {
            "    "@
        })
    }
}

/// The glyphs to the left of an entry's name: those of its ancestors, then
/// a corner if it is the last of its siblings and a branch if it is not.
pub open spec fn prefix_text(ancestor_more: Seq<bool>, is_last: bool) -> Seq<char> {
    ancestor_bars(ancestor_more) + (if is_last {
        "└── "@
    } else {
        "├── "@
    })
}

/// Draws the glyphs to the left of an entry's name.
pub fn tree_prefix(ancestor_more: &Vec<bool>, is_last: bool) -> (r: String)
    ensures
        r@ == prefix_text(ancestor_more@, is_last),
{
    let mut out = String::new();
    let mut i: usize = 0;
    while i < ancestor_more.len()
        invariant
            i <= ancestor_more.len(),
            out@ == ancestor_bars(ancestor_more@.take(i as int)),
        decreases ancestor_more.len() - i,
    {
        proof {
            assert(ancestor_more@.take(i as int + 1).drop_last() == ancestor_more@.take(i as int));
        }
        if ancestor_more[i] {
            out.append("│   ");
        } else {
            out.append("    ");
        }
        i += 1;
    }
    assert(ancestor_more@.take(ancestor_more.len() as int) == ancestor_more@);
    if is_last {
        out.append("└── ");
    } else {
        out.append("├── ");
    }
    out
}

/// The positions among the first `n` nodes of those that a listing shows,
/// from first to last.
pub open spec fn shown_positions(kids: Seq<Node>, n: int, all: bool) -> Seq<int>
    decreases n,
{
    if n <= 0 {
        Seq::empty()
    } else if all || !hidden_name(kids[n - 1].info().name@) {
        shown_positions(kids, n - 1, all).push(n - 1)
    } else {
        shown_positions(kids, n - 1, all)
    }
}

/// The positions of the nodes that a listing shows, in listing order.
pub open spec fn listed_positions(kids: Seq<Node>, options: ListOptions) -> Seq<int> {
    let shown = shown_positions(kids, kids.len() as int, options.all);
    let entries = shown.map_values(|i: int| kids[i].info());
    sorted_order(entries, options.sort, options.reverse).map_values(|j: int| shown[j])
}

/// The shown positions are positions among the first `n` nodes.
pub proof fn lemma_shown_positions_in_range(kids: Seq<Node>, n: int, all: bool)
    requires
        0 <= n <= kids.len(),
    ensures
        shown_positions(kids, n, all).len() <= n,
        forall|k: int|
            0 <= k < shown_positions(kids, n, all).len() ==> 0 <= #[trigger] shown_positions(
                kids,
                n,
                all,
            )[k] < n,
    decreases n,
{
    if n > 0 {
        lemma_shown_positions_in_range(kids, n - 1, all);
    }
}

/// The listed positions are positions of nodes.
pub proof fn lemma_listed_positions_in_range(kids: Seq<Node>, options: ListOptions)
    ensures
        listed_positions(kids, options).len() <= kids.len(),
        forall|k: int|
            0 <= k < listed_positions(kids, options).len() ==> 0 <= #[trigger] listed_positions(
                kids,
                options,
            )[k] < kids.len(),
{
    let shown = shown_positions(kids, kids.len() as int, options.all);
    let entries = shown.map_values(|i: int| kids[i].info());
    lemma_shown_positions_in_range(kids, kids.len() as int, options.all);
    lemma_sorted_order_is_permutation(entries, options.sort, options.reverse);
}

/// The shown positions are those of the visible nodes, in their order.
pub proof fn lemma_shown_positions_are_visible(kids: Seq<Node>, n: int, all: bool)
    requires
        0 <= n <= kids.len(),
    ensures
        shown_positions(kids, n, all).map_values(|i: int| kids[i]) == visible_nodes(
            kids.take(n),
            all,
        ),
    decreases n,
{
    reveal(Seq::filter);
    let shown = shown_positions(kids, n, all);
    if n > 0 {
        lemma_shown_positions_are_visible(kids, n - 1, all);
        assert(kids.take(n).drop_last() == kids.take(n - 1));
        assert(kids.take(n).last() == kids[n - 1]);
        let before = shown_positions(kids, n - 1, all);
        if all || !hidden_name(kids[n - 1].info().name@) {
            assert(shown.map_values(|i: int| kids[i]) =~= before.map_values(|i: int| kids[i]).push(
                kids[n - 1],
            ));
        }
    } else {
        assert(kids.take(0) =~= Seq::<Node>::empty());
        assert(shown.map_values(|i: int| kids[i]) =~= Seq::<Node>::empty());
    }
}

/// A tree lists what is in a directory as a flat listing does: the entries
/// at the listed positions are the visible entries in listing order.
pub proof fn lemma_listed_entries_are_sorted(kids: Seq<Node>, options: ListOptions)
    ensures
        listed_positions(kids, options).map_values(|i: int| kids[i].info()) == sorted_entries(
            entries_of(visible_nodes(kids, options.all)),
            options.sort,
            options.reverse,
        ),
{
    let shown = shown_positions(kids, kids.len() as int, options.all);
    let entries = shown.map_values(|i: int| kids[i].info());
    let order = sorted_order(entries, options.sort, options.reverse);
    lemma_shown_positions_are_visible(kids, kids.len() as int, options.all);
    lemma_shown_positions_in_range(kids, kids.len() as int, options.all);
    lemma_sorted_order_is_permutation(entries, options.sort, options.reverse);
    assert(kids.take(kids.len() as int) == kids);
    assert(entries =~= entries_of(visible_nodes(kids, options.all)));
    assert(listed_positions(kids, options).map_values(|i: int| kids[i].info())
        =~= sorted_entries(entries, options.sort, options.reverse));
}

/// The positions of a directory's nodes in the order in which a listing shows them.
pub fn listed_children(dir: &Node, options: &ListOptions) -> (r: Vec<usize>)
    ensures
        positions(r@) == listed_positions(dir.kids(), *options),
        forall|k: int| 0 <= k < r@.len() ==> #[trigger] r@[k] < dir.kids().len(),
{
    let all = options.all;
    let mut shown: Vec<usize> = Vec::new();
    let mut entries: Vec<EntryInfo> = Vec::new();
    let mut i: usize = 0;
    while i < dir.children.len()
        invariant
            i <= dir.children.len(),
            positions(shown@) == shown_positions(dir.kids(), i as int, all),
            entries@ == positions(shown@).map_values(|p: int| dir.kids()[p].info()),
        decreases dir.children.len() - i,
    {
        let child = &dir.children[i];
        if all || !is_hidden(child.entry.name.as_str()) {
            shown.push(i);
            entries.push(child.entry.clone());
            assert(positions(shown@) =~= shown_positions(dir.kids(), i as int + 1, all));
            assert(entries@ =~= positions(shown@).map_values(|p: int| dir.kids()[p].info()));
        }
        i += 1;
    }
    let order = sort_order(&entries, options.sort, options.reverse);
    proof {
        lemma_shown_positions_in_range(dir.kids(), dir.kids().len() as int, all);
        lemma_sorted_order_is_permutation(entries@, options.sort, options.reverse);
        lemma_listed_positions_in_range(dir.kids(), *options);
    }
    let mut listed: Vec<usize> = Vec::new();
    let mut k: usize = 0;
    while k < order.len()
        invariant
            k <= order.len(),
            order@.len() == shown@.len(),
            forall|j: int| 0 <= j < order@.len() ==> 0 <= #[trigger] positions(order@)[j] < shown@.len(),
            positions(listed@) == positions(order@).map_values(|j: int| positions(shown@)[j]).take(
                k as int,
            ),
        decreases order.len() - k,
    {
        assert(positions(order@)[k as int] == order@[k as int]);
        assert(positions(shown@)[order@[k as int] as int] == shown@[order@[k as int] as int]);
        let ghost before = positions(listed@);
        let ghost mapped = positions(order@).map_values(|j: int| positions(shown@)[j]);
        listed.push(shown[order[k]]);
        assert(positions(listed@) =~= before.push(shown@[order@[k as int] as int] as int));
        assert(mapped.take(k as int + 1) =~= mapped.take(k as int).push(mapped[k as int]));
        k += 1;
    }
    assert(positions(listed@) =~= listed_positions(dir.kids(), *options));
    assert forall|k: int| 0 <= k < listed@.len() implies #[trigger] listed@[k] < dir.kids().len() by {
        assert(positions(listed@)[k] == listed@[k]);
    }
    listed
}

/// Whether something below a directory is shown for its own sake: some
/// entry that a listing shows, at any depth, passes the filter.
pub open spec fn has_printables(
    dir: Node,
    base: Seq<char>,
    options: ListOptions,
    pattern: Option<Seq<char>>,
) -> bool
    decreases dir, 1nat, 0nat,
{
    dir.read_failure() is None && printable_from(dir, 0, base, options, pattern)
}

/// Whether, from the node at position `i` on, a directory holds something
/// that is shown for its own sake.
pub open spec fn printable_from(
    dir: Node,
    i: int,
    base: Seq<char>,
    options: ListOptions,
    pattern: Option<Seq<char>>,
) -> bool
    decreases dir, 0nat, dir.kids().len() - i,
{
    if 0 <= i < dir.kids().len() {
        let child = dir.kids()[i];
        let rel = child_rel(base, child.info().name@);
        ||| ((options.all || !hidden_name(child.info().name@)) && (entry_printed(
            child.info(),
            rel,
            options,
            pattern,
        ) || (child.info().is_dir() && has_printables(child, rel, options, pattern))))
        ||| printable_from(dir, i + 1, base, options, pattern)
    } else {
        false
    }
}

/// What looking for something to show below a directory comes to.
pub enum Probe {
    /// Something is shown for its own sake.
    Found,
    /// Nothing is, and every directory on the way could be read.
    Absent,
    /// A directory could not be read before anything was found.
    Failed(Seq<char>),
}

/// Looks below a directory for something that is shown for its own sake,
/// entry by entry in the order in which they were read, descending into each
/// directory before going on to the next entry, until the first find or the
/// first directory that cannot be read.
pub open spec fn probe(
    dir: Node,
    base: Seq<char>,
    options: ListOptions,
    pattern: Option<Seq<char>>,
) -> Probe
    decreases dir, 1nat, 0nat,
{
    match dir.read_failure() {
        Some(m) => Probe::Failed(m),
        None => probe_from(dir, 0, base, options, pattern),
    }
}

/// The search of `probe` from the node at position `i` on.
pub open spec fn probe_from(
    dir: Node,
    i: int,
    base: Seq<char>,
    options: ListOptions,
    pattern: Option<Seq<char>>,
) -> Probe
    decreases dir, 0nat, dir.kids().len() - i,
{
    if 0 <= i < dir.kids().len() {
        let child = dir.kids()[i];
        let rel = child_rel(base, child.info().name@);
        if !(options.all || !hidden_name(child.info().name@)) {
            probe_from(dir, i + 1, base, options, pattern)
        } else if entry_printed(child.info(), rel, options, pattern) {
            Probe::Found
        } else if child.info().is_dir() {
            match probe(child, rel, options, pattern) {
                Probe::Absent => probe_from(dir, i + 1, base, options, pattern),
                found_or_failed => found_or_failed,
            }
        } else {
            probe_from(dir, i + 1, base, options, pattern)
        }
    } else {
        Probe::Absent
    }
}

/// A search that finds something finds what is there, and a search that
/// ends without a find or a failure has missed nothing.
pub proof fn lemma_probe_agrees(
    dir: Node,
    base: Seq<char>,
    options: ListOptions,
    pattern: Option<Seq<char>>,
)
    ensures
        probe(dir, base, options, pattern) is Found ==> has_printables(dir, base, options, pattern),
        probe(dir, base, options, pattern) is Absent ==> !has_printables(
            dir,
            base,
            options,
            pattern,
        ),
    decreases dir, 1nat, 0nat,
{
    if dir.read_failure() is None {
        lemma_probe_from_agrees(dir, 0, base, options, pattern);
    }
}

/// `lemma_probe_agrees` for the search from position `i` on.
pub proof fn lemma_probe_from_agrees(
    dir: Node,
    i: int,
    base: Seq<char>,
    options: ListOptions,
    pattern: Option<Seq<char>>,
)
    ensures
        probe_from(dir, i, base, options, pattern) is Found ==> printable_from(
            dir,
            i,
            base,
            options,
            pattern,
        ),
        probe_from(dir, i, base, options, pattern) is Absent ==> !printable_from(
            dir,
            i,
            base,
            options,
            pattern,
        ),
    decreases dir, 0nat, dir.kids().len() - i,
{
    if 0 <= i < dir.kids().len() {
        let child = dir.kids()[i];
        let rel = child_rel(base, child.info().name@);
        lemma_probe_from_agrees(dir, i + 1, base, options, pattern);
        if child.info().is_dir() {
            lemma_probe_agrees(child, rel, options, pattern);
        }
    }
}

/// Finds out whether something below a directory is shown for its own sake.
/// The answer is that of `probe`: a find, none, or the reason why a directory
/// on the way could not be read.
pub fn subtree_has_printables(
    dir: &Node,
    base: &str,
    options: &ListOptions,
    matcher: Option<&GlobFilter>,
) -> (r: Result<bool, ListError>)
    ensures
        match probe(*dir, base@, *options, pattern_of(matcher)) {
            Probe::Found => r == Ok::<bool, ListError>(true),
            Probe::Absent => r == Ok::<bool, ListError>(false),
            Probe::Failed(m) => r matches Err(ListError::Io { message }) && message@ == m,
        },
    decreases dir,
{
    if let Some(message) = dir.read_error() {
        return Err(ListError::Io { message });
    }
    let mut i: usize = 0;
    while i < dir.children.len()
        invariant
            i <= dir.children.len(),
            dir.read_failure() is None,
            probe(*dir, base@, *options, pattern_of(matcher)) == probe_from(
                *dir,
                i as int,
                base@,
                *options,
                pattern_of(matcher),
            ),
        decreases dir.children.len() - i,
    {
        let child = &dir.children[i];
        if options.all || !is_hidden(child.entry.name.as_str()) {
            let rel = join_rel(base, child.entry.name.as_str());
            if should_print_entry(&child.entry, rel.as_str(), options, matcher) {
                return Ok(true);
            }
            if child.entry.is_dir() {
                match subtree_has_printables(child, rel.as_str(), options, matcher) {
                    Ok(true) => {
                        return Ok(true);
                    },
                    Ok(false) => {},
                    Err(e) => {
                        return Err(e);
                    },
                }
            }
        }
        i += 1;
    }
    Ok(false)
}


/// Whether an entry of a tree listing is shown: for its own sake, or as a
/// directory on the way to something that is. Where only files are wanted no
/// directory is shown on the way.
pub open spec fn included(
    child: Node,
    rel: Seq<char>,
    options: ListOptions,
    pattern: Option<Seq<char>>,
) -> bool {
    ||| entry_printed(child.info(), rel, options, pattern)
    ||| (child.info().is_dir() && !options.only_files && has_printables(
        child,
        rel,
        options,
        pattern,
    ))
}

/// Of the first `k` listed positions those whose entry is shown, in listing order.
pub open spec fn kept_upto(
    dir: Node,
    listed: Seq<int>,
    k: int,
    base: Seq<char>,
    options: ListOptions,
    pattern: Option<Seq<char>>,
) -> Seq<int>
    decreases k,
{
    if k <= 0 {
        Seq::empty()
    } else {
        let before = kept_upto(dir, listed, k - 1, base, options, pattern);
        let child = dir.kids()[listed[k - 1]];
        if included(child, child_rel(base, child.info().name@), options, pattern) {
            before.push(listed[k - 1])
        } else {
            before
        }
    }
}

/// The positions of the entries of a directory that a tree listing shows, in
/// listing order.
pub open spec fn kept_positions(
    dir: Node,
    base: Seq<char>,
    options: ListOptions,
    pattern: Option<Seq<char>>,
) -> Seq<int> {
    let listed = listed_positions(dir.kids(), options);
    kept_upto(dir, listed, listed.len() as int, base, options, pattern)
}

/// The reason why the first search below a listed directory fails, from the
/// listed position `k` on, if one fails.
pub open spec fn probe_failure_from(
    dir: Node,
    listed: Seq<int>,
    k: int,
    base: Seq<char>,
    options: ListOptions,
    pattern: Option<Seq<char>>,
) -> Option<Seq<char>>
    decreases listed.len() - k,
{
    if 0 <= k < listed.len() {
        let child = dir.kids()[listed[k]];
        let rel = child_rel(base, child.info().name@);
        if child.info().is_dir() {
            match probe(child, rel, options, pattern) {
                Probe::Failed(m) => Some(m),
                _ => probe_failure_from(dir, listed, k + 1, base, options, pattern),
            }
        } else {
            probe_failure_from(dir, listed, k + 1, base, options, pattern)
        }
    } else {
        None
    }
}

/// The lines of a tree listing below a directory, where every directory on
/// the way can be read: each shown entry in listing order, directly followed
/// by the lines below it if it is a directory.
pub open spec fn tree_lines(
    dir: Node,
    base: Seq<char>,
    ancestor_more: Seq<bool>,
    options: ListOptions,
    pattern: Option<Seq<char>>,
) -> Seq<DisplayLine>
    decreases dir, 1nat, 0nat,
{
    rows_from(
        dir,
        kept_positions(dir, base, options, pattern),
        0,
        base,
        ancestor_more,
        options,
        pattern,
    )
}

/// The lines for the kept positions from the `k`-th on.
pub open spec fn rows_from(
    dir: Node,
    kept: Seq<int>,
    k: int,
    base: Seq<char>,
    ancestor_more: Seq<bool>,
    options: ListOptions,
    pattern: Option<Seq<char>>,
) -> Seq<DisplayLine>
    decreases dir, 0nat, kept.len() - k,
{
    if 0 <= k < kept.len() {
        let rest = rows_from(dir, kept, k + 1, base, ancestor_more, options, pattern);
        if 0 <= kept[k] < dir.kids().len() {
            let child = dir.kids()[kept[k]];
            let rel = child_rel(base, child.info().name@);
            let is_last = k + 1 == kept.len();
            let line = DisplayLine {
                entry: child.info(),
                prefix: prefix_text(ancestor_more, is_last),
                rel_path: rel,
            };
            let below = if child.info().is_dir() {
                tree_lines(child, rel, ancestor_more.push(!is_last), options, pattern)
            } else {
                Seq::empty()
            };
            seq![line] + below + rest
        } else {
            rest
        }
    } else {
        Seq::empty()
    }
}

/// The reason why a tree listing below a directory fails, if it does: that
/// the directory itself cannot be read; else the first failed search below
/// one of its listed directories; else the first failure below one of its
/// shown directories.
pub open spec fn tree_failure(
    dir: Node,
    base: Seq<char>,
    options: ListOptions,
    pattern: Option<Seq<char>>,
) -> Option<Seq<char>>
    decreases dir, 1nat, 0nat,
{
    match dir.read_failure() {
        Some(m) => Some(m),
        None => match probe_failure_from(
            dir,
            listed_positions(dir.kids(), options),
            0,
            base,
            options,
            pattern,
        ) {
            Some(m) => Some(m),
            None => walk_failure_from(
                dir,
                kept_positions(dir, base, options, pattern),
                0,
                base,
                options,
                pattern,
            ),
        },
    }
}

/// The first failure below the shown directories from the `k`-th kept
/// position on.
pub open spec fn walk_failure_from(
    dir: Node,
    kept: Seq<int>,
    k: int,
    base: Seq<char>,
    options: ListOptions,
    pattern: Option<Seq<char>>,
) -> Option<Seq<char>>
    decreases dir, 0nat, kept.len() - k,
{
    if 0 <= k < kept.len() {
        if 0 <= kept[k] < dir.kids().len() && dir.kids()[kept[k]].info().is_dir() {
            let child = dir.kids()[kept[k]];
            match tree_failure(child, child_rel(base, child.info().name@), options, pattern) {
                Some(m) => Some(m),
                None => walk_failure_from(dir, kept, k + 1, base, options, pattern),
            }
        } else {
            walk_failure_from(dir, kept, k + 1, base, options, pattern)
        }
    } else {
        None
    }
}

/// Picks the entries of a directory that a tree listing shows, as positions
/// in listing order, or gives the reason why the first search below one of
/// its directories failed.
pub fn printable_children(
    dir: &Node,
    base: &str,
    options: &ListOptions,
    matcher: Option<&GlobFilter>,
) -> (r: Result<Vec<usize>, ListError>)
    ensures
        match probe_failure_from(
            *dir,
            listed_positions(dir.kids(), *options),
            0,
            base@,
            *options,
            pattern_of(matcher),
        ) {
            Some(m) => r matches Err(ListError::Io { message }) && message@ == m,
            None => r matches Ok(kept) && positions(kept@) == kept_positions(
                *dir,
                base@,
                *options,
                pattern_of(matcher),
            ) && forall|j: int| 0 <= j < kept@.len() ==> #[trigger] kept@[j] < dir.kids().len(),
        },
{
    let listed = listed_children(dir, options);
    let ghost spots = listed_positions(dir.kids(), *options);
    let ghost pattern = pattern_of(matcher);
    let mut kept: Vec<usize> = Vec::new();
    let mut k: usize = 0;
    while k < listed.len()
        invariant
            k <= listed.len(),
            spots == listed_positions(dir.kids(), *options),
            pattern == pattern_of(matcher),
            positions(listed@) == spots,
            forall|j: int| 0 <= j < listed@.len() ==> #[trigger] listed@[j] < dir.kids().len(),
            probe_failure_from(*dir, spots, 0, base@, *options, pattern) == probe_failure_from(
                *dir,
                spots,
                k as int,
                base@,
                *options,
                pattern,
            ),
            positions(kept@) == kept_upto(*dir, spots, k as int, base@, *options, pattern),
            forall|j: int| 0 <= j < kept@.len() ==> #[trigger] kept@[j] < dir.kids().len(),
        decreases listed.len() - k,
    {
        let pos = listed[k];
        assert(spots[k as int] == pos);
        let child = &dir.children[pos];
        let rel = join_rel(base, child.entry.name.as_str());
        let mut below = false;
        if child.entry.is_dir() {
            match subtree_has_printables(child, rel.as_str(), options, matcher) {
                Ok(found) => {
                    below = found;
                },
                Err(e) => {
                    return Err(e);
                },
            }
            proof {
                lemma_probe_agrees(*child, rel@, *options, pattern);
            }
        }
        let direct = should_print_entry(&child.entry, rel.as_str(), options, matcher);
        let context = child.entry.is_dir() && !options.only_files && below;
        if direct || context {
            kept.push(pos);
        }
        assert(positions(kept@) =~= kept_upto(
            *dir,
            spots,
            k as int + 1,
            base@,
            *options,
            pattern,
        ));
        k += 1;
    }
    Ok(kept)
}

/// Appends to `out` the lines of a tree listing below a directory. The
/// levels above are given by `ancestor_more`, which is the same afterwards.
/// Says whether any line was added; fails with the reason of `tree_failure`
/// where a directory on the way cannot be read.
pub fn collect_tree_children(
    dir: &Node,
    base: &str,
    options: &ListOptions,
    matcher: Option<&GlobFilter>,
    ancestor_more: &mut Vec<bool>,
    out: &mut Vec<DisplayEntry>,
) -> (r: Result<bool, ListError>)
    ensures
        match tree_failure(*dir, base@, *options, pattern_of(matcher)) {
            Some(m) => r matches Err(ListError::Io { message }) && message@ == m,
            None => {
                &&& r == Ok::<bool, ListError>(
                    kept_positions(*dir, base@, *options, pattern_of(matcher)).len() > 0,
                )
                &&& lines_of(final(out)@) == lines_of(old(out)@) + tree_lines(
                    *dir,
                    base@,
                    old(ancestor_more)@,
                    *options,
                    pattern_of(matcher),
                )
                &&& final(ancestor_more)@ == old(ancestor_more)@
            },
        },
    decreases dir,
{
    if let Some(message) = dir.read_error() {
        return Err(ListError::Io { message });
    }
    let kept = match printable_children(dir, base, options, matcher) {
        Ok(kept) => kept,
        Err(e) => {
            return Err(e);
        },
    };
    let ghost pattern = pattern_of(matcher);
    let ghost spots = positions(kept@);
    let ghost levels = ancestor_more@;
    let ghost start = lines_of(out@);
    let total = kept.len();
    let mut any_printed = false;
    let mut idx: usize = 0;
    while idx < total
        invariant
            idx <= total,
            total == kept@.len(),
            pattern == pattern_of(matcher),
            spots == positions(kept@),
            forall|j: int| 0 <= j < kept@.len() ==> #[trigger] kept@[j] < dir.kids().len(),
            ancestor_more@ == levels,
            any_printed == (idx > 0),
            tree_failure(*dir, base@, *options, pattern) == walk_failure_from(
                *dir,
                spots,
                0,
                base@,
                *options,
                pattern,
            ),
            walk_failure_from(*dir, spots, 0, base@, *options, pattern) == walk_failure_from(
                *dir,
                spots,
                idx as int,
                base@,
                *options,
                pattern,
            ),
            lines_of(out@) + rows_from(*dir, spots, idx as int, base@, levels, *options, pattern)
                == start + rows_from(*dir, spots, 0, base@, levels, *options, pattern),
        decreases total - idx,
    {
        let pos = kept[idx];
        assert(spots[idx as int] == pos);
        let child = &dir.children[pos];
        let is_last = idx + 1 == total;
        let prefix = tree_prefix(ancestor_more, is_last);
        let rel = join_rel(base, child.entry.name.as_str());
        let ghost shown = lines_of(out@);
        let ghost line = DisplayLine { entry: child.entry, prefix: prefix@, rel_path: rel@ };
        let ghost rest = rows_from(*dir, spots, idx as int + 1, base@, levels, *options, pattern);
        out.push(DisplayEntry { entry: child.entry.clone(), prefix, rel_path: rel.clone() });
        assert(lines_of(out@) =~= shown.push(line));
        any_printed = true;
        if child.entry.is_dir() {
            ancestor_more.push(!is_last);
            match collect_tree_children(child, rel.as_str(), options, matcher, ancestor_more, out) {
                Ok(_) => {},
                Err(e) => {
                    return Err(e);
                },
            }
            ancestor_more.pop();
            assert(ancestor_more@ =~= levels);
            let ghost below = tree_lines(*child, rel@, levels.push(!is_last), *options, pattern);
            assert(lines_of(out@) + rest =~= shown + (seq![line] + below + rest));
        } else {
            assert(lines_of(out@) + rest =~= shown + (seq![line] + Seq::<DisplayLine>::empty()
                + rest));
        }
        idx += 1;
    }
    assert(lines_of(out@) =~= lines_of(out@) + rows_from(
        *dir,
        spots,
        idx as int,
        base@,
        levels,
        *options,
        pattern,
    ));
    Ok(any_printed)
}


/// The line of an entry in a flat listing: no glyphs, and its name as its
/// relative path.
pub open spec fn flat_line(entry: EntryInfo) -> DisplayLine {
    DisplayLine { entry, prefix: Seq::empty(), rel_path: entry.name@ }
}

/// The lines of a flat listing of a directory: the entries that a listing
/// shows, in listing order, as far as they pass the filter.
pub open spec fn flat_lines(
    dir: Node,
    options: ListOptions,
    pattern: Option<Seq<char>>,
) -> Seq<DisplayLine> {
    sorted_entries(
        entries_of(visible_nodes(dir.kids(), options.all)),
        options.sort,
        options.reverse,
    ).filter(|e: EntryInfo| entry_printed(e, e.name@, options, pattern)).map_values(
        |e: EntryInfo| flat_line(e),
    )
}

/// The line of the root of a tree listing: no glyphs, and a dot as its path.
pub open spec fn root_line(dir: Node) -> DisplayLine {
    DisplayLine { entry: dir.info(), prefix: Seq::empty(), rel_path: "."@ }
}

/// The lines of a listing of a directory, where every directory that the
/// listing reads can be read. A tree listing starts with the root itself,
/// unless only files are wanted.
pub open spec fn display_lines(
    dir: Node,
    options: ListOptions,
    pattern: Option<Seq<char>>,
) -> Seq<DisplayLine> {
    if options.tree {
        (if options.only_files {
            Seq::empty()
        } else {
            seq![root_line(dir)]
        }) + tree_lines(dir, Seq::empty(), Seq::empty(), options, pattern)
    } else {
        flat_lines(dir, options, pattern)
    }
}

/// The reason why a listing of a directory fails, if it does.
pub open spec fn display_failure(
    dir: Node,
    options: ListOptions,
    pattern: Option<Seq<char>>,
) -> Option<Seq<char>> {
    if options.tree {
        tree_failure(dir, Seq::empty(), options, pattern)
    } else {
        dir.read_failure()
    }
}

/// Builds the lines of a listing of a directory: flat, or as a tree with
/// `options.tree`. Fails exactly where a directory that the listing reads
/// cannot be read, with the reason of the first such directory. What is no
/// directory cannot be read as one.
pub fn build_display_entries_for_dir(
    dir: &Node,
    options: &ListOptions,
    matcher: Option<&GlobFilter>,
) -> (r: Result<Vec<DisplayEntry>, ListError>)
    ensures
        match display_failure(*dir, *options, pattern_of(matcher)) {
            Some(m) => r matches Err(ListError::Io { message }) && message@ == m,
            None => r matches Ok(out) && lines_of(out@) == display_lines(
                *dir,
                *options,
                pattern_of(matcher),
            ),
        },
{
    let ghost pattern = pattern_of(matcher);
    proof {
        reveal_strlit("");
        assert(""@ =~= Seq::<char>::empty());
    }
    if options.tree {
        let mut out: Vec<DisplayEntry> = Vec::new();
        if !options.only_files {
            out.push(
                DisplayEntry {
                    entry: dir.entry.clone(),
                    prefix: String::new(),
                    rel_path: String::from_str("."),
                },
            );
        }
        let ghost first = lines_of(out@);
        assert(first =~= if options.only_files {
            Seq::<DisplayLine>::empty()
        } else {
            seq![root_line(*dir)]
        });
        let mut ancestor_more: Vec<bool> = Vec::new();
        match collect_tree_children(dir, "", options, matcher, &mut ancestor_more, &mut out) {
            Ok(_) => Ok(out),
            Err(e) => Err(e),
        }
    } else {
        let mut entries = match read_entries(dir, options.all) {
            Ok(entries) => entries,
            Err(e) => {
                return Err(e);
            },
        };
        sort_entries(&mut entries, options.sort, options.reverse);
        let ghost keep = |e: EntryInfo| entry_printed(e, e.name@, *options, pattern);
        let mut out: Vec<DisplayEntry> = Vec::new();
        let mut i: usize = 0;
        while i < entries.len()
            invariant
                i <= entries.len(),
                pattern == pattern_of(matcher),
                keep == (|e: EntryInfo| entry_printed(e, e.name@, *options, pattern)),
                lines_of(out@) == entries@.take(i as int).filter(keep).map_values(
                    |e: EntryInfo| flat_line(e),
                ),
            decreases entries.len() - i,
        {
            proof {
                assert(entries@.take(i as int + 1).drop_last() == entries@.take(i as int));
                reveal(Seq::filter);
            }
            let entry = &entries[i];
            proof {
                reveal_strlit("");
            }
            let rel_path = join_rel("", entry.name.as_str());
            if should_print_entry(entry, rel_path.as_str(), options, matcher) {
                let ghost shown = lines_of(out@);
                out.push(DisplayEntry { entry: entry.clone(), prefix: String::new(), rel_path });
                assert(lines_of(out@) =~= shown.push(flat_line(*entry)));
            }
            assert(lines_of(out@) =~= entries@.take(i as int + 1).filter(keep).map_values(
                |e: EntryInfo| flat_line(e),
            ));
            i += 1;
        }
        assert(entries@.take(entries.len() as int) == entries@);
        Ok(out)
    }
}


/// Whether what was read holds an entry at a relative path below a
/// directory: going down from the directory name by name, as the path says,
/// leads to the entry.
pub open spec fn found_below(
    dir: Node,
    base: Seq<char>,
    rel_path: Seq<char>,
    entry: EntryInfo,
) -> bool
    decreases dir, 1nat, 0nat,
{
    found_from(dir, 0, base, rel_path, entry)
}

/// `found_below` for the nodes from position `i` on.
pub open spec fn found_from(
    dir: Node,
    i: int,
    base: Seq<char>,
    rel_path: Seq<char>,
    entry: EntryInfo,
) -> bool
    decreases dir, 0nat, dir.kids().len() - i,
{
    if 0 <= i < dir.kids().len() {
        let child = dir.kids()[i];
        let rel = child_rel(base, child.info().name@);
        ||| (rel == rel_path && child.info() == entry)
        ||| (child.info().is_dir() && found_below(child, rel, rel_path, entry))
        ||| found_from(dir, i + 1, base, rel_path, entry)
    } else {
        false
    }
}

/// What is found at or below one node of a directory is found below the directory.
pub proof fn lemma_found_through(
    dir: Node,
    position: int,
    i: int,
    base: Seq<char>,
    rel_path: Seq<char>,
    entry: EntryInfo,
)
    requires
        0 <= i <= position < dir.kids().len(),
        ({
            let child = dir.kids()[position];
            let rel = child_rel(base, child.info().name@);
            ||| (rel == rel_path && child.info() == entry)
            ||| (child.info().is_dir() && found_below(child, rel, rel_path, entry))
        }),
    ensures
        found_from(dir, i, base, rel_path, entry),
    decreases position - i,
{
    if i < position {
        lemma_found_through(dir, position, i + 1, base, rel_path, entry);
    }
}

/// Every line of a tree listing below a directory names an entry that is
/// found at the line's relative path.
pub proof fn lemma_tree_lines_found(
    dir: Node,
    base: Seq<char>,
    ancestor_more: Seq<bool>,
    options: ListOptions,
    pattern: Option<Seq<char>>,
)
    ensures
        forall|t: int|
            0 <= t < tree_lines(dir, base, ancestor_more, options, pattern).len() ==> found_below(
                dir,
                base,
                (#[trigger] tree_lines(dir, base, ancestor_more, options, pattern)[t]).rel_path,
                tree_lines(dir, base, ancestor_more, options, pattern)[t].entry,
            ),
    decreases dir, 1nat, 0nat,
{
    lemma_rows_found(
        dir,
        kept_positions(dir, base, options, pattern),
        0,
        base,
        ancestor_more,
        options,
        pattern,
    );
}

/// `lemma_tree_lines_found` for the lines from the `k`-th kept position on.
pub proof fn lemma_rows_found(
    dir: Node,
    kept: Seq<int>,
    k: int,
    base: Seq<char>,
    ancestor_more: Seq<bool>,
    options: ListOptions,
    pattern: Option<Seq<char>>,
)
    ensures
        forall|t: int|
            0 <= t < rows_from(dir, kept, k, base, ancestor_more, options, pattern).len()
                ==> found_below(
                dir,
                base,
                (#[trigger] rows_from(dir, kept, k, base, ancestor_more, options, pattern)[t]).rel_path,
                rows_from(dir, kept, k, base, ancestor_more, options, pattern)[t].entry,
            ),
    decreases dir, 0nat, kept.len() - k,
{
    if 0 <= k < kept.len() {
        let rows = rows_from(dir, kept, k, base, ancestor_more, options, pattern);
        let rest = rows_from(dir, kept, k + 1, base, ancestor_more, options, pattern);
        lemma_rows_found(dir, kept, k + 1, base, ancestor_more, options, pattern);
        if 0 <= kept[k] < dir.kids().len() {
            let child = dir.kids()[kept[k]];
            let rel = child_rel(base, child.info().name@);
            let is_last = k + 1 == kept.len();
            let below = if child.info().is_dir() {
                tree_lines(child, rel, ancestor_more.push(!is_last), options, pattern)
            } else {
                Seq::empty()
            };
            if child.info().is_dir() {
                lemma_tree_lines_found(child, rel, ancestor_more.push(!is_last), options, pattern);
            }
            assert forall|t: int| 0 <= t < rows.len() implies found_below(
                dir,
                base,
                (#[trigger] rows[t]).rel_path,
                rows[t].entry,
            ) by {
                if t == 0 {
                    lemma_found_through(dir, kept[k], 0, base, rows[t].rel_path, rows[t].entry);
                } else if t < 1 + below.len() {
                    assert(rows[t] == below[t - 1]);
                    lemma_found_through(dir, kept[k], 0, base, rows[t].rel_path, rows[t].entry);
                } else {
                    assert(rows[t] == rest[t - 1 - below.len()]);
                }
            }
        }
    }
}

/// Every line of a flat listing names an entry of the directory, found
/// under its name.
pub proof fn lemma_flat_lines_found(dir: Node, options: ListOptions, pattern: Option<Seq<char>>)
    ensures
        forall|t: int|
            0 <= t < flat_lines(dir, options, pattern).len() ==> found_below(
                dir,
                Seq::empty(),
                (#[trigger] flat_lines(dir, options, pattern)[t]).rel_path,
                flat_lines(dir, options, pattern)[t].entry,
            ),
{
    let nodes = visible_nodes(dir.kids(), options.all);
    let entries = entries_of(nodes);
    let sorted = sorted_entries(entries, options.sort, options.reverse);
    let keep = |e: EntryInfo| entry_printed(e, e.name@, options, pattern);
    let kept = sorted.filter(keep);
    let lines = flat_lines(dir, options, pattern);
    lemma_sorted_order_is_permutation(entries, options.sort, options.reverse);
    assert forall|t: int| 0 <= t < lines.len() implies found_below(
        dir,
        Seq::empty(),
        (#[trigger] lines[t]).rel_path,
        lines[t].entry,
    ) by {
        let e = kept[t];
        assert(lines[t] == flat_line(e));
        assert(kept.contains(e));
        sorted.lemma_filter_contains_rev(keep, e);
        let i = choose|i: int| 0 <= i < sorted.len() && sorted[i] == e;
        let from = sorted_order(entries, options.sort, options.reverse)[i];
        assert(e == entries[from]);
        let node = nodes[from];
        assert(nodes.contains(node));
        dir.kids().lemma_filter_contains_rev(
            |n: Node| options.all || !hidden_name(n.info().name@),
            node,
        );
        let position = choose|p: int| 0 <= p < dir.kids().len() && dir.kids()[p] == node;
        lemma_found_through(dir, position, 0, Seq::empty(), e.name@, e);
    }
}

/// Every line of a listing leads back to its entry: it is the line of the
/// root, or its relative path, taken from the root name by name, leads to
/// an entry that was read there and that is the entry of the line, with its
/// kind and its size.
pub proof fn lemma_relative_paths_lead_back(
    root: Node,
    options: ListOptions,
    pattern: Option<Seq<char>>,
)
    ensures
        forall|t: int|
            0 <= t < display_lines(root, options, pattern).len() ==> {
                let line = #[trigger] display_lines(root, options, pattern)[t];
                line == root_line(root) || found_below(
                    root,
                    Seq::empty(),
                    line.rel_path,
                    line.entry,
                )
            },
{
    if options.tree {
        lemma_tree_lines_found(root, Seq::empty(), Seq::empty(), options, pattern);
    } else {
        lemma_flat_lines_found(root, options, pattern);
    }
}

} // verus!
