//! The order of a listing: directories first, then by name, size or age,
//! with a stable sort and the laws that hold of it.

use vstd::prelude::*;
use crate::entry::{EntryInfo, Timestamp};
use crate::options::SortKey;
use crate::text::{
    compare_text, int_rank, lemma_lex_rank_flipped, lemma_lex_rank_transitive, lex_rank,
    to_lowercase, unicode_lowercase, Rank,
};

verus! {

/// Rank of two modification times: an unknown time comes before any known
/// one, known times go by seconds, then by nanoseconds.
pub open spec fn time_rank(a: Option<Timestamp>, b: Option<Timestamp>) -> Rank {
    match (a, b) {
        (None, None) => Rank::Same,
        (None, Some(_)) => Rank::Before,
        (Some(_), None) => Rank::After,
        (Some(x), Some(y)) => if x.secs != y.secs {
            int_rank(x.secs as int, y.secs as int)
        } else {
            int_rank(x.nanos as int, y.nanos as int)
        },
    }
}

/// Rank of two entries by the key alone: names without regard to case, from
/// small to large; sizes from large to small; times from new to old, with
/// unknown times last.
pub open spec fn key_rank(a: EntryInfo, b: EntryInfo, key: SortKey) -> Rank {
    match key {
        SortKey::Name => lex_rank(unicode_lowercase(a.name@), unicode_lowercase(b.name@)),
        SortKey::Size => int_rank(b.size() as int, a.size() as int),
        SortKey::Age => time_rank(b.modified, a.modified),
    }
}

/// Rank of two entries in a listing: a directory comes before anything that
/// is none; within each of the two groups the key decides, turned round when
/// `reverse` is set.
pub open spec fn entry_rank(a: EntryInfo, b: EntryInfo, key: SortKey, reverse: bool) -> Rank {
    if a.is_dir() != b.is_dir() {
        if a.is_dir() {
            Rank::Before
        } else {
            Rank::After
        }
    } else if reverse {
        key_rank(a, b, key).flipped()
    } else {
        key_rank(a, b, key)
    }
}

fn compare_u64(a: u64, b: u64) -> (r: Rank)
    ensures
        r == int_rank(a as int, b as int),
{
    if a < b {
        Rank::Before
    } else if a == b {
        Rank::Same
    } else {
        Rank::After
    }
}

fn compare_times(a: Option<Timestamp>, b: Option<Timestamp>) -> (r: Rank)
    ensures
        r == time_rank(a, b),
{
    match (a, b) {
        (None, None) => Rank::Same,
        (None, Some(_)) => Rank::Before,
        (Some(_), None) => Rank::After,
        (Some(x), Some(y)) => {
            if x.secs < y.secs {
                Rank::Before
            } else if x.secs > y.secs {
                Rank::After
            } else if x.nanos < y.nanos {
                Rank::Before
            } else if x.nanos == y.nanos {
                Rank::Same
            } else {
                Rank::After
            }
        },
    }
}

/// Compares two entries as a listing orders them.
pub fn compare_entries(a: &EntryInfo, b: &EntryInfo, key: SortKey, reverse: bool) -> (r: Rank)
    ensures
        r == entry_rank(*a, *b, key, reverse),
{
    if a.is_dir() != b.is_dir() {
        return if a.is_dir() {
            Rank::Before
        } else {
            Rank::After
        };
    }
    let by_key = match key {
        SortKey::Name => {
            let x = to_lowercase(a.name.as_str());
            let y = to_lowercase(b.name.as_str());
            compare_text(x.as_str(), y.as_str())
        },
        SortKey::Size => compare_u64(b.size(), a.size()),
        SortKey::Age => compare_times(b.modified, a.modified),
    };
    if reverse {
        by_key.flip()
    } else {
        by_key
    }
}

/// Where a new entry goes into entries already placed: before the first one
/// that ranks after it, or at the end.
pub open spec fn insert_position(
    placed: Seq<EntryInfo>,
    x: EntryInfo,
    key: SortKey,
    reverse: bool,
) -> int
    decreases placed.len(),
{
    if placed.len() == 0 {
        0
    } else if entry_rank(placed[0], x, key, reverse) == Rank::After {
        0
    } else {
        1 + insert_position(placed.drop_first(), x, key, reverse)
    }
}

/// The entries at the given positions.
pub open spec fn pick(s: Seq<EntryInfo>, order: Seq<int>) -> Seq<EntryInfo> {
    order.map_values(|i: int| s[i])
}

/// The positions of the entries in listing order: each entry in turn is put
/// among those before it, behind all that do not rank after it, so entries of
/// equal rank stay in the order in which they came.
pub open spec fn sorted_order(s: Seq<EntryInfo>, key: SortKey, reverse: bool) -> Seq<int>
    decreases s.len(),
{
    if s.len() == 0 {
        Seq::empty()
    } else {
        let head = s.drop_last();
        let before = sorted_order(head, key, reverse);
        before.insert(insert_position(pick(head, before), s.last(), key, reverse), s.len() - 1)
    }
}

/// The entries in listing order.
pub open spec fn sorted_entries(s: Seq<EntryInfo>, key: SortKey, reverse: bool) -> Seq<EntryInfo> {
    pick(s, sorted_order(s, key, reverse))
}

/// The insert position lies within the placed entries or just behind them;
/// nothing before it ranks after the new entry, and the entry at it does.
pub proof fn lemma_insert_position(placed: Seq<EntryInfo>, x: EntryInfo, key: SortKey, reverse: bool)
    ensures
        0 <= insert_position(placed, x, key, reverse) <= placed.len(),
        forall|j: int|
            0 <= j < insert_position(placed, x, key, reverse) ==> entry_rank(
                #[trigger] placed[j],
                x,
                key,
                reverse,
            ) != Rank::After,
        insert_position(placed, x, key, reverse) < placed.len() ==> entry_rank(
            placed[insert_position(placed, x, key, reverse)],
            x,
            key,
            reverse,
        ) == Rank::After,
    decreases placed.len(),
{
    if placed.len() > 0 && entry_rank(placed[0], x, key, reverse) != Rank::After {
        let rest = placed.drop_first();
        lemma_insert_position(rest, x, key, reverse);
        let p = insert_position(rest, x, key, reverse);
        assert forall|j: int| 0 <= j < p + 1 implies entry_rank(
            #[trigger] placed[j],
            x,
            key,
            reverse,
        ) != Rank::After by {
            if j > 0 {
                assert(placed[j] == rest[j - 1]);
            }
        }
        if p < rest.len() {
            assert(placed[p + 1] == rest[p]);
        }
    }
}

/// A position with the two properties of the insert position is the insert position.
pub proof fn lemma_insert_position_is(
    placed: Seq<EntryInfo>,
    x: EntryInfo,
    key: SortKey,
    reverse: bool,
    p: int,
)
    requires
        0 <= p <= placed.len(),
        forall|j: int| 0 <= j < p ==> entry_rank(#[trigger] placed[j], x, key, reverse) != Rank::After,
        p < placed.len() ==> entry_rank(placed[p], x, key, reverse) == Rank::After,
    ensures
        insert_position(placed, x, key, reverse) == p,
{
    lemma_insert_position(placed, x, key, reverse);
    let q = insert_position(placed, x, key, reverse);
    if q < p {
        assert(entry_rank(placed[q], x, key, reverse) != Rank::After);
    } else if p < q {
        assert(entry_rank(placed[p], x, key, reverse) != Rank::After);
    }
}

/// The listing order names each position of the input once.
pub proof fn lemma_sorted_order_is_permutation(s: Seq<EntryInfo>, key: SortKey, reverse: bool)
    ensures
        sorted_order(s, key, reverse).len() == s.len(),
        forall|i: int|
            0 <= i < s.len() ==> 0 <= #[trigger] sorted_order(s, key, reverse)[i] < s.len(),
        forall|i: int, j: int|
            0 <= i < j < s.len() ==> sorted_order(s, key, reverse)[i] != sorted_order(
                s,
                key,
                reverse,
            )[j],
        forall|k: int| 0 <= k < s.len() ==> sorted_order(s, key, reverse).contains(k),
    decreases s.len(),
{
    if s.len() > 0 {
        let head = s.drop_last();
        let before = sorted_order(head, key, reverse);
        lemma_sorted_order_is_permutation(head, key, reverse);
        lemma_insert_position(pick(head, before), s.last(), key, reverse);
        let p = insert_position(pick(head, before), s.last(), key, reverse);
        let now = sorted_order(s, key, reverse);
        assert(now == before.insert(p, s.len() - 1));
        assert forall|k: int| 0 <= k < s.len() implies now.contains(k) by {
            if k == s.len() - 1 {
                assert(now[p] == k);
            } else {
                assert(before.contains(k));
                let i = choose|i: int| 0 <= i < before.len() && before[i] == k;
                if i < p {
                    assert(now[i] == k);
                } else {
                    assert(now[i + 1] == k);
                }
            }
        }
    }
}

/// Sorting one entry more puts it into the sorted rest at its insert position.
pub proof fn lemma_sorted_entries_step(s: Seq<EntryInfo>, key: SortKey, reverse: bool)
    requires
        s.len() > 0,
    ensures
        sorted_entries(s, key, reverse) == sorted_entries(s.drop_last(), key, reverse).insert(
            insert_position(sorted_entries(s.drop_last(), key, reverse), s.last(), key, reverse),
            s.last(),
        ),
{
    let head = s.drop_last();
    let before = sorted_order(head, key, reverse);
    lemma_sorted_order_is_permutation(head, key, reverse);
    lemma_insert_position(pick(head, before), s.last(), key, reverse);
    let p = insert_position(pick(head, before), s.last(), key, reverse);
    let now = sorted_order(s, key, reverse);
    assert(now == before.insert(p, s.len() - 1));
    assert(pick(s, now) =~= pick(head, before).insert(p, s.last()));
}

/// The sorted entries are the input's entries, each as often as there.
pub proof fn lemma_sorted_entries_same_entries(s: Seq<EntryInfo>, key: SortKey, reverse: bool)
    ensures
        sorted_entries(s, key, reverse).len() == s.len(),
        sorted_entries(s, key, reverse).to_multiset() == s.to_multiset(),
    decreases s.len(),
{
    lemma_sorted_order_is_permutation(s, key, reverse);
    if s.len() == 0 {
        assert(sorted_entries(s, key, reverse) =~= s);
    } else {
        let head = s.drop_last();
        lemma_sorted_entries_same_entries(head, key, reverse);
        lemma_sorted_entries_step(s, key, reverse);
        let done = sorted_entries(head, key, reverse);
        lemma_insert_position(done, s.last(), key, reverse);
        let p = insert_position(done, s.last(), key, reverse);
        vstd::seq_lib::to_multiset_insert(done, p, s.last());
        assert(s == head.push(s.last()));
        vstd::seq_lib::to_multiset_insert(head, head.len() as int, s.last());
        assert(head.insert(head.len() as int, s.last()) =~= head.push(s.last()));
    }
}

/// In every listing order all directories stand before everything else,
/// whatever the key and whether or not it is reversed.
pub proof fn lemma_directories_first(s: Seq<EntryInfo>, key: SortKey, reverse: bool)
    ensures
        forall|i: int, j: int|
            0 <= i < j < s.len() && sorted_entries(s, key, reverse)[j].is_dir()
                ==> sorted_entries(s, key, reverse)[i].is_dir(),
    decreases s.len(),
{
    lemma_sorted_entries_same_entries(s, key, reverse);
    if s.len() > 0 {
        let head = s.drop_last();
        let x = s.last();
        lemma_directories_first(head, key, reverse);
        lemma_sorted_entries_same_entries(head, key, reverse);
        lemma_sorted_entries_step(s, key, reverse);
        let done = sorted_entries(head, key, reverse);
        lemma_insert_position(done, x, key, reverse);
        let p = insert_position(done, x, key, reverse);
        let now = sorted_entries(s, key, reverse);
        assert(now == done.insert(p, x));
        assert forall|i: int, j: int| 0 <= i < j < s.len() && now[j].is_dir() implies now[i].is_dir() by {
            if i == p {
                // the new entry stands at i: something after it is a directory
                assert(now[j] == done[j - 1]);
                if !x.is_dir() {
                    assert(entry_rank(done[p], x, key, reverse) == Rank::After);
                    if p < j - 1 {
                        assert(done[p].is_dir());
                    }
                }
            } else if j == p {
                assert(now[i] == done[i]);
                assert(entry_rank(done[i], x, key, reverse) != Rank::After);
            } else {
                let i0 = if i < p { i } else { i - 1 };
                let j0 = if j < p { j } else { j - 1 };
                assert(now[i] == done[i0]);
                assert(now[j] == done[j0]);
            }
        }
    }
}

/// Seen from the other side, the rank of two entries is the flipped one.
pub proof fn lemma_entry_rank_flipped(a: EntryInfo, b: EntryInfo, key: SortKey, reverse: bool)
    ensures
        entry_rank(b, a, key, reverse) == entry_rank(a, b, key, reverse).flipped(),
        key_rank(b, a, key) == key_rank(a, b, key).flipped(),
{
    lemma_lex_rank_flipped(unicode_lowercase(a.name@), unicode_lowercase(b.name@));
}

/// The order of a listing is transitive: an entry that does not rank after
/// one that does not rank after a third does not rank after the third.
pub proof fn lemma_entry_rank_transitive(
    a: EntryInfo,
    b: EntryInfo,
    c: EntryInfo,
    key: SortKey,
    reverse: bool,
)
    requires
        entry_rank(a, b, key, reverse) != Rank::After,
        entry_rank(b, c, key, reverse) != Rank::After,
    ensures
        entry_rank(a, c, key, reverse) != Rank::After,
{
    let x = unicode_lowercase(a.name@);
    let y = unicode_lowercase(b.name@);
    let z = unicode_lowercase(c.name@);
    if a.is_dir() == b.is_dir() && b.is_dir() == c.is_dir() && key == SortKey::Name {
        if reverse {
            lemma_lex_rank_flipped(x, y);
            lemma_lex_rank_flipped(y, z);
            lemma_lex_rank_flipped(x, z);
            lemma_lex_rank_transitive(z, y, x);
        } else {
            lemma_lex_rank_transitive(x, y, z);
        }
    }
}

/// In listing order no entry ranks after one that follows it.
pub proof fn lemma_sorted_entries_sorted(s: Seq<EntryInfo>, key: SortKey, reverse: bool)
    ensures
        forall|i: int, j: int|
            0 <= i < j < s.len() ==> entry_rank(
                sorted_entries(s, key, reverse)[i],
                sorted_entries(s, key, reverse)[j],
                key,
                reverse,
            ) != Rank::After,
    decreases s.len(),
{
    lemma_sorted_entries_same_entries(s, key, reverse);
    if s.len() > 0 {
        let head = s.drop_last();
        let x = s.last();
        lemma_sorted_entries_sorted(head, key, reverse);
        lemma_sorted_entries_same_entries(head, key, reverse);
        lemma_sorted_entries_step(s, key, reverse);
        let done = sorted_entries(head, key, reverse);
        lemma_insert_position(done, x, key, reverse);
        let p = insert_position(done, x, key, reverse);
        let now = sorted_entries(s, key, reverse);
        assert(now == done.insert(p, x));
        assert forall|i: int, j: int| 0 <= i < j < s.len() implies entry_rank(
            now[i],
            now[j],
            key,
            reverse,
        ) != Rank::After by {
            if i == p {
                assert(now[j] == done[j - 1]);
                lemma_ranks_after_from(done, x, key, reverse, p, j - 1);
                lemma_entry_rank_flipped(done[j - 1], x, key, reverse);
            } else if j == p {
                assert(now[i] == done[i]);
            } else {
                let i0 = if i < p { i } else { i - 1 };
                let j0 = if j < p { j } else { j - 1 };
                assert(now[i] == done[i0]);
                assert(now[j] == done[j0]);
            }
        }
    }
}

/// In sorted entries, everything from the insert position of a new entry on
/// ranks after the new entry.
pub proof fn lemma_ranks_after_from(
    done: Seq<EntryInfo>,
    x: EntryInfo,
    key: SortKey,
    reverse: bool,
    p: int,
    j: int,
)
    requires
        forall|a: int, b: int|
            0 <= a < b < done.len() ==> entry_rank(done[a], done[b], key, reverse) != Rank::After,
        p == insert_position(done, x, key, reverse),
        p <= j < done.len(),
    ensures
        entry_rank(done[j], x, key, reverse) == Rank::After,
{
    lemma_insert_position(done, x, key, reverse);
    if j > p {
        if entry_rank(done[j], x, key, reverse) != Rank::After {
            lemma_entry_rank_transitive(done[p], done[j], x, key, reverse);
        }
    }
}

/// Entries of equal rank stay in the order in which they came.
pub proof fn lemma_sorted_order_stable(s: Seq<EntryInfo>, key: SortKey, reverse: bool)
    ensures
        forall|i: int, j: int|
            0 <= i < j < s.len() && entry_rank(
                sorted_entries(s, key, reverse)[i],
                sorted_entries(s, key, reverse)[j],
                key,
                reverse,
            ) == Rank::Same ==> sorted_order(s, key, reverse)[i] < sorted_order(s, key, reverse)[j],
    decreases s.len(),
{
    lemma_sorted_order_is_permutation(s, key, reverse);
    if s.len() > 0 {
        let head = s.drop_last();
        let x = s.last();
        lemma_sorted_order_stable(head, key, reverse);
        lemma_sorted_order_is_permutation(head, key, reverse);
        lemma_sorted_entries_sorted(head, key, reverse);
        lemma_sorted_entries_step(s, key, reverse);
        let before = sorted_order(head, key, reverse);
        let done = sorted_entries(head, key, reverse);
        lemma_insert_position(done, x, key, reverse);
        let p = insert_position(done, x, key, reverse);
        let order = sorted_order(s, key, reverse);
        let now = sorted_entries(s, key, reverse);
        assert(order == before.insert(p, s.len() - 1));
        assert(now == done.insert(p, x));
        assert forall|i: int, j: int|
            0 <= i < j < s.len() && entry_rank(now[i], now[j], key, reverse)
                == Rank::Same implies order[i] < order[j] by {
            if i == p {
                assert(now[j] == done[j - 1]);
                lemma_ranks_after_from(done, x, key, reverse, p, j - 1);
                lemma_entry_rank_flipped(done[j - 1], x, key, reverse);
            } else if j == p {
                assert(order[i] == before[i]);
            } else {
                let i0 = if i < p { i } else { i - 1 };
                let j0 = if j < p { j } else { j - 1 };
                assert(now[i] == done[i0]);
                assert(now[j] == done[j0]);
                assert(order[i] == before[i0]);
                assert(order[j] == before[j0]);
            }
        }
    }
}

/// How many of the entries are directories.
pub open spec fn dir_count(s: Seq<EntryInfo>) -> nat
    decreases s.len(),
{
    if s.len() == 0 {
        0
    } else {
        dir_count(s.drop_last()) + (if s.last().is_dir() {
            1nat
        } else {
            0nat
        })
    }
}

/// In listing order the directories are exactly the first entries, as many
/// as there are directories.
pub proof fn lemma_directories_lead(s: Seq<EntryInfo>, key: SortKey, reverse: bool)
    ensures
        dir_count(s) <= s.len(),
        forall|i: int|
            0 <= i < s.len() ==> (#[trigger] sorted_entries(s, key, reverse)[i].is_dir() <==> i
                < dir_count(s)),
    decreases s.len(),
{
    lemma_sorted_entries_same_entries(s, key, reverse);
    if s.len() > 0 {
        let head = s.drop_last();
        let x = s.last();
        lemma_directories_lead(head, key, reverse);
        lemma_sorted_entries_same_entries(head, key, reverse);
        lemma_sorted_entries_step(s, key, reverse);
        let done = sorted_entries(head, key, reverse);
        lemma_insert_position(done, x, key, reverse);
        let p = insert_position(done, x, key, reverse);
        let now = sorted_entries(s, key, reverse);
        let d = dir_count(head) as int;
        assert(now == done.insert(p, x));
        if x.is_dir() {
            if d < head.len() {
                assert(!done[d].is_dir());
                assert(entry_rank(done[d], x, key, reverse) == Rank::After);
            }
            assert(p <= d);
        } else {
            if p < d {
                assert(done[p].is_dir());
                assert(entry_rank(done[p], x, key, reverse) == Rank::Before);
            }
            assert(p >= d);
        }
        assert forall|i: int| 0 <= i < s.len() implies (#[trigger] now[i].is_dir() <==> i
            < dir_count(s)) by {
            if i < p {
                assert(now[i] == done[i]);
            } else if i > p {
                assert(now[i] == done[i - 1]);
            }
        }
    }
}

/// Whether no two entries of the same group, directories or others, have
/// the same rank by the key.
pub open spec fn no_ties(s: Seq<EntryInfo>, key: SortKey) -> bool {
    forall|i: int, j: int|
        0 <= i < j < s.len() && s[i].is_dir() == s[j].is_dir() ==> key_rank(s[i], s[j], key)
            != Rank::Same
}

/// Where a sorted entry stands when the order is reversed: the directories
/// among themselves and the others among themselves are turned round.
pub open spec fn mirrored(i: int, dirs: int, len: int) -> int {
    if i < dirs {
        dirs - 1 - i
    } else {
        len - 1 - (i - dirs)
    }
}

/// How the entries sorted so far stand to a new one by the key alone:
/// where nothing ties, those of its group before its insert position rank
/// before it, and those from there on rank after it.
proof fn lemma_sides_of_insert_position(s: Seq<EntryInfo>, key: SortKey, j: int)
    requires
        s.len() > 0,
        no_ties(s, key),
        0 <= j < s.len() - 1,
        sorted_entries(s.drop_last(), key, false)[j].is_dir() == s.last().is_dir(),
    ensures
        key_rank(sorted_entries(s.drop_last(), key, false)[j], s.last(), key) == (if j
            < insert_position(sorted_entries(s.drop_last(), key, false), s.last(), key, false) {
            Rank::Before
        } else {
            Rank::After
        }),
{
    let head = s.drop_last();
    let x = s.last();
    let fwd = sorted_entries(head, key, false);
    lemma_sorted_entries_same_entries(head, key, false);
    lemma_sorted_entries_sorted(head, key, false);
    lemma_sorted_order_is_permutation(head, key, false);
    lemma_insert_position(fwd, x, key, false);
    let pf = insert_position(fwd, x, key, false);
    let from = sorted_order(head, key, false)[j];
    assert(fwd[j] == head[from]);
    assert(s[from] == head[from]);
    assert(key_rank(s[from], s[s.len() - 1], key) != Rank::Same);
    if j >= pf {
        lemma_ranks_after_from(fwd, x, key, false, pf, j);
    } else {
        assert(entry_rank(fwd[j], x, key, false) != Rank::After);
    }
}

/// Where the directories lead, a new directory goes among them and anything
/// else behind them.
proof fn lemma_insert_position_by_group(
    done: Seq<EntryInfo>,
    x: EntryInfo,
    key: SortKey,
    reverse: bool,
    dirs: int,
)
    requires
        0 <= dirs <= done.len(),
        forall|i: int| 0 <= i < done.len() ==> (#[trigger] done[i].is_dir() <==> i < dirs),
    ensures
        x.is_dir() ==> insert_position(done, x, key, reverse) <= dirs,
        !x.is_dir() ==> insert_position(done, x, key, reverse) >= dirs,
{
    lemma_insert_position(done, x, key, reverse);
    let p = insert_position(done, x, key, reverse);
    if x.is_dir() {
        if dirs < done.len() && p > dirs {
            assert(!done[dirs].is_dir());
            assert(entry_rank(done[dirs], x, key, reverse) != Rank::After);
        }
    } else {
        if p < dirs {
            assert(done[p].is_dir());
        }
    }
}

/// The insert position of a new entry in the reversed order, from its
/// insert position in the plain one.
proof fn lemma_reverse_insert_position(
    fwd: Seq<EntryInfo>,
    rev: Seq<EntryInfo>,
    x: EntryInfo,
    key: SortKey,
    dirs: int,
    pf: int,
)
    requires
        fwd.len() == rev.len(),
        0 <= dirs <= fwd.len(),
        0 <= pf <= fwd.len(),
        x.is_dir() ==> pf <= dirs,
        !x.is_dir() ==> pf >= dirs,
        forall|i: int| 0 <= i < fwd.len() ==> (#[trigger] fwd[i].is_dir() <==> i < dirs),
        forall|i: int|
            0 <= i < rev.len() ==> #[trigger] rev[i] == fwd[mirrored(i, dirs, fwd.len() as int)],
        forall|j: int|
            0 <= j < fwd.len() && fwd[j].is_dir() == x.is_dir() ==> key_rank(
                #[trigger] fwd[j],
                x,
                key,
            ) == (if j < pf {
                Rank::Before
            } else {
                Rank::After
            }),
    ensures
        insert_position(rev, x, key, true) == (if x.is_dir() {
            dirs - pf
        } else {
            dirs + fwd.len() - pf
        }),
{
    let n = fwd.len() as int;
    let pr = if x.is_dir() {
        dirs - pf
    } else {
        dirs + n - pf
    };
    assert forall|j: int| 0 <= j < pr implies entry_rank(#[trigger] rev[j], x, key, true)
        != Rank::After by {
        let m = mirrored(j, dirs, n);
        assert(rev[j] == fwd[m]);
        if fwd[m].is_dir() == x.is_dir() {
            assert(key_rank(fwd[m], x, key) == Rank::After);
        }
    }
    if pr < n {
        let m = mirrored(pr, dirs, n);
        assert(rev[pr] == fwd[m]);
        if fwd[m].is_dir() == x.is_dir() {
            assert(key_rank(fwd[m], x, key) == Rank::Before);
        }
    }
    lemma_insert_position_is(rev, x, key, true, pr);
}

/// Two rows that mirror each other still do after one entry more went into
/// both at places that mirror each other.
proof fn lemma_mirrored_insert(
    fwd: Seq<EntryInfo>,
    rev: Seq<EntryInfo>,
    x: EntryInfo,
    dirs: int,
    pf: int,
    i: int,
)
    requires
        fwd.len() == rev.len(),
        0 <= dirs <= fwd.len(),
        0 <= pf <= fwd.len(),
        x.is_dir() ==> pf <= dirs,
        !x.is_dir() ==> pf >= dirs,
        forall|k: int|
            0 <= k < rev.len() ==> #[trigger] rev[k] == fwd[mirrored(k, dirs, fwd.len() as int)],
        0 <= i <= fwd.len(),
    ensures
        rev.insert(
            if x.is_dir() {
                dirs - pf
            } else {
                dirs + fwd.len() - pf
            },
            x,
        )[i] == fwd.insert(pf, x)[mirrored(
            i,
            if x.is_dir() {
                dirs + 1
            } else {
                dirs
            },
            fwd.len() as int + 1,
        )],
{
    let n = fwd.len() as int;
    let pr = if x.is_dir() {
        dirs - pf
    } else {
        dirs + n - pf
    };
    let dirs_now = if x.is_dir() {
        dirs + 1
    } else {
        dirs
    };
    let m_now = mirrored(i, dirs_now, n + 1);
    if i == pr {
        assert(m_now == pf);
    } else {
        let i0 = if i < pr {
            i
        } else {
            i - 1
        };
        let m = mirrored(i0, dirs, n);
        assert(rev.insert(pr, x)[i] == rev[i0]);
        assert(rev[i0] == fwd[m]);
        if m < pf {
            assert(m_now == m);
        } else {
            assert(m_now == m + 1);
        }
    }
}

/// Reversing the order turns each group round: where no two entries of a
/// group rank the same by the key, the reversed listing holds the
/// directories of the plain listing from last to first, then its other
/// entries from last to first.
pub proof fn lemma_reverse_symmetry(s: Seq<EntryInfo>, key: SortKey)
    requires
        no_ties(s, key),
    ensures
        sorted_entries(s, key, true).len() == s.len(),
        sorted_entries(s, key, false).len() == s.len(),
        forall|i: int|
            0 <= i < s.len() ==> #[trigger] sorted_entries(s, key, true)[i] == sorted_entries(
                s,
                key,
                false,
            )[mirrored(i, dir_count(s) as int, s.len() as int)],
    decreases s.len(),
{
    lemma_sorted_entries_same_entries(s, key, true);
    lemma_sorted_entries_same_entries(s, key, false);
    if s.len() > 0 {
        let head = s.drop_last();
        let x = s.last();
        let n = head.len() as int;
        let d = dir_count(head) as int;
        assert(no_ties(head, key)) by {
            assert forall|i: int, j: int|
                0 <= i < j < head.len() && head[i].is_dir() == head[j].is_dir() implies key_rank(
                head[i],
                head[j],
                key,
            ) != Rank::Same by {
                assert(head[i] == s[i] && head[j] == s[j]);
            }
        }
        lemma_reverse_symmetry(head, key);
        let fwd = sorted_entries(head, key, false);
        let rev = sorted_entries(head, key, true);
        lemma_directories_lead(head, key, false);
        lemma_sorted_entries_step(s, key, false);
        lemma_sorted_entries_step(s, key, true);
        lemma_insert_position(fwd, x, key, false);
        let pf = insert_position(fwd, x, key, false);
        lemma_insert_position_by_group(fwd, x, key, false, d);
        assert forall|j: int| 0 <= j < n && fwd[j].is_dir() == x.is_dir() implies key_rank(
            #[trigger] fwd[j],
            x,
            key,
        ) == (if j < pf {
            Rank::Before
        } else {
            Rank::After
        }) by {
            lemma_sides_of_insert_position(s, key, j);
        }
        lemma_reverse_insert_position(fwd, rev, x, key, d, pf);
        let pr = insert_position(rev, x, key, true);
        let fwd_now = sorted_entries(s, key, false);
        let rev_now = sorted_entries(s, key, true);
        assert(fwd_now == fwd.insert(pf, x));
        assert(rev_now == rev.insert(pr, x));
        assert forall|i: int| 0 <= i < s.len() implies #[trigger] rev_now[i] == fwd_now[mirrored(
            i,
            dir_count(s) as int,
            s.len() as int,
        )] by {
            lemma_mirrored_insert(fwd, rev, x, d, pf, i);
        }
    }
}

/// The positions held in a vector, as integers.
pub open spec fn positions(order: Seq<usize>) -> Seq<int> {
    order.map_values(|i: usize| i as int)
}

/// Computes the listing order of the entries as positions into them.
pub fn sort_order(entries: &Vec<EntryInfo>, key: SortKey, reverse: bool) -> (order: Vec<usize>)
    ensures
        positions(order@) == sorted_order(entries@, key, reverse),
{
    let mut order: Vec<usize> = Vec::new();
    let mut k: usize = 0;
    while k < entries.len()
        invariant
            k <= entries.len(),
            positions(order@) == sorted_order(entries@.take(k as int), key, reverse),
        decreases entries.len() - k,
    {
        let ghost head = entries@.take(k as int);
        let ghost placed = pick(head, positions(order@));
        proof {
            lemma_sorted_order_is_permutation(head, key, reverse);
        }
        let mut p: usize = 0;
        let mut found = false;
        while !found && p < order.len()
            invariant
                k < entries.len(),
                head == entries@.take(k as int),
                placed == pick(head, positions(order@)),
                order@.len() == k,
                forall|i: int| 0 <= i < k ==> 0 <= #[trigger] positions(order@)[i] < k,
                p <= order.len(),
                forall|j: int|
                    0 <= j < p ==> entry_rank(
                        #[trigger] placed[j],
                        entries@[k as int],
                        key,
                        reverse,
                    ) != Rank::After,
                found ==> p < order.len() && entry_rank(
                    placed[p as int],
                    entries@[k as int],
                    key,
                    reverse,
                ) == Rank::After,
            decreases order.len() - p + (if found { 0int } else { 1int }),
        {
            assert(positions(order@)[p as int] == order@[p as int]);
            let at = order[p];
            assert(placed[p as int] == entries@[at as int]);
            if compare_entries(&entries[at], &entries[k], key, reverse) == Rank::After {
                found = true;
            } else {
                p += 1;
            }
        }
        proof {
            lemma_insert_position_is(placed, entries@[k as int], key, reverse, p as int);
            let next = entries@.take(k as int + 1);
            assert(next.drop_last() == head);
            assert(next.last() == entries@[k as int]);
        }
        order.insert(p, k);
        assert(positions(order@) =~= sorted_order(entries@.take(k as int + 1), key, reverse));
        k += 1;
    }
    assert(entries@.take(entries.len() as int) == entries@);
    order
}

/// Puts the entries into listing order: the same entries, the directories
/// first, and no entry ranking after one that follows it.
pub fn sort_entries(entries: &mut Vec<EntryInfo>, key: SortKey, reverse: bool)
    ensures
        final(entries)@ == sorted_entries(old(entries)@, key, reverse),
        final(entries)@.to_multiset() == old(entries)@.to_multiset(),
        forall|i: int, j: int|
            0 <= i < j < final(entries)@.len() && final(entries)@[j].is_dir()
                ==> final(entries)@[i].is_dir(),
        forall|i: int, j: int|
            0 <= i < j < final(entries)@.len() ==> entry_rank(
                final(entries)@[i],
                final(entries)@[j],
                key,
                reverse,
            ) != Rank::After,
{
    let order = sort_order(entries, key, reverse);
    proof {
        lemma_sorted_order_is_permutation(entries@, key, reverse);
        lemma_sorted_entries_same_entries(entries@, key, reverse);
        lemma_directories_first(entries@, key, reverse);
        lemma_sorted_entries_sorted(entries@, key, reverse);
    }
    let mut sorted: Vec<EntryInfo> = Vec::new();
    let mut i: usize = 0;
    while i < order.len()
        invariant
            i <= order.len(),
            order@.len() == entries@.len(),
            positions(order@) == sorted_order(entries@, key, reverse),
            forall|j: int| 0 <= j < order@.len() ==> 0 <= #[trigger] positions(order@)[j] < entries@.len(),
            sorted@ == sorted_entries(entries@, key, reverse).take(i as int),
        decreases order.len() - i,
    {
        assert(positions(order@)[i as int] == order@[i as int]);
        sorted.push(entries[order[i]].clone());
        assert(sorted@ =~= sorted_entries(entries@, key, reverse).take(i as int + 1));
        i += 1;
    }
    assert(sorted@ =~= sorted_entries(entries@, key, reverse));
    *entries = sorted;
}

} // verus!
