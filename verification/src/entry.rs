//! Entries of directories as they were read, and what a name says: whether
//! it is hidden, and its extension.

use vstd::prelude::*;
use vstd::string::StrSliceExecFns;
use crate::text::{chars_of, last_index_of};

verus! {

/// What kind of filesystem object an entry is, as its own metadata reports it.
#[derive(Clone, Copy, Debug, PartialEq, Eq, Structural)]
pub enum EntryKind {
    Directory,
    File,
    Symlink,
    Other,
}

/// A point in time: whole seconds from the Unix epoch (negative before it)
/// and the nanoseconds into that second.
#[derive(Clone, Copy, Debug, PartialEq, Eq, Structural)]
pub struct Timestamp {
    pub secs: i64,
    pub nanos: u32,
}

/// One directory entry as it was read: never changed afterwards.
#[derive(Debug, PartialEq, Eq)]
pub struct EntryInfo {
    /// The entry's own name, shown as text.
    pub name: String,
    /// The path under which the entry was found.
    pub path: String,
    pub kind: EntryKind,
    /// Length in bytes that the metadata reports, whatever the kind.
    pub len: u64,
    /// Time of the last modification, where the system reports one.
    pub modified: Option<Timestamp>,
    /// Whether the permissions forbid writing.
    pub readonly: bool,
}

impl Clone for EntryInfo {
    fn clone(&self) -> (r: Self)
        ensures
            r == *self,
    {
        EntryInfo {
            name: self.name.clone(),
            path: self.path.clone(),
            kind: self.kind,
            len: self.len,
            modified: self.modified,
            readonly: self.readonly,
        }
    }
}

impl EntryInfo {
    pub open spec fn spec_is_dir(&self) -> bool {
        self.kind == EntryKind::Directory
    }

    pub open spec fn spec_is_symlink(&self) -> bool {
        self.kind == EntryKind::Symlink
    }

    /// Bytes that count for the entry: its length if it is a regular file, else zero.
    pub open spec fn spec_size(&self) -> u64 {
        if self.kind == EntryKind::File {
            self.len
        } else {
            0
        }
    }

    #[verifier::when_used_as_spec(spec_is_dir)]
    pub fn is_dir(&self) -> (r: bool)
        ensures
            r == self.spec_is_dir(),
    {
        self.kind == EntryKind::Directory
    }

    #[verifier::when_used_as_spec(spec_is_symlink)]
    pub fn is_symlink(&self) -> (r: bool)
        ensures
            r == self.spec_is_symlink(),
    {
        self.kind == EntryKind::Symlink
    }

    #[verifier::when_used_as_spec(spec_size)]
    pub fn size(&self) -> (r: u64)
        ensures
            r == self.spec_size(),
    {
        if self.kind == EntryKind::File {
            self.len
        } else {
            0
        }
    }
}

/// A name is hidden when it starts with a dot.
pub open spec fn hidden_name(name: Seq<char>) -> bool {
    name.len() > 0 && name[0] == '.'
}

/// Whether an entry name marks a hidden entry.
pub fn is_hidden(name: &str) -> (r: bool)
    ensures
        r == hidden_name(name@),
{
    if name.is_empty() {
        false
    } else {
        name.get_char(0) == '.'
    }
}


/// The extension of a file name: what follows its last dot, unless the name
/// has no dot or only the one it starts with; then it is empty.
pub open spec fn extension_text(name: Seq<char>) -> Seq<char> {
    match last_index_of(name, '.') {
        Some(i) => if i > 0 {
            name.skip(i + 1)
        } else {
            Seq::empty()
        },
        None => Seq::empty(),
    }
}

/// The extension of a file name, empty if it has none.
pub fn extension_of(name: &str) -> (r: String)
    ensures
        r@ == extension_text(name@),
{
    let chars = chars_of(name);
    let mut end: usize = chars.len();
    assert(chars@.take(end as int) == chars@);
    while end > 0 && chars[end - 1] != '.'
        invariant
            end <= chars.len(),
            last_index_of(chars@, '.') == last_index_of(chars@.take(end as int), '.'),
        decreases end,
    {
        assert(chars@.take(end as int).drop_last() == chars@.take(end as int - 1));
        end -= 1;
    }
    let mut out = String::new();
    if end > 1 {
        assert(chars@.take(end as int).last() == '.');
        let mut i: usize = end;
        while i < chars.len()
            invariant
                end <= i <= chars.len(),
                out@ == chars@.subrange(end as int, i as int),
            decreases chars.len() - i,
        {
            out.push(chars[i]);
            assert(out@ =~= chars@.subrange(end as int, i as int + 1));
            i += 1;
        }
        assert(out@ =~= chars@.skip(end as int));
    } else if end == 1 {
        assert(chars@.take(end as int).last() == '.');
    } else {
        assert(chars@.take(0).len() == 0);
    }
    out
}


/// The entries that a listing shows: all of them, or those whose name is
/// not hidden, in the order in which they were read.
pub open spec fn visible_entries(raw: Seq<EntryInfo>, all: bool) -> Seq<EntryInfo> {
    raw.filter(|e: EntryInfo| all || !hidden_name(e.name@))
}

/// Picks from the entries of a directory those that a listing shows.
pub fn shown_entries(raw: &Vec<EntryInfo>, all: bool) -> (out: Vec<EntryInfo>)
    ensures
        out@ == visible_entries(raw@, all),
{
    let ghost keep = |e: EntryInfo| all || !hidden_name(e.name@);
    let mut out: Vec<EntryInfo> = Vec::new();
    let mut i: usize = 0;
    while i < raw.len()
        invariant
            i <= raw.len(),
            keep == (|e: EntryInfo| all || !hidden_name(e.name@)),
            out@ == raw@.take(i as int).filter(keep),
        decreases raw.len() - i,
    {
        proof {
            assert(raw@.take(i as int + 1).drop_last() == raw@.take(i as int));
            reveal(Seq::filter);
        }
        if all || !is_hidden(raw[i].name.as_str()) {
            out.push(raw[i].clone());
        }
        i += 1;
    }
    assert(raw@.take(raw@.len() as int) == raw@);
    out
}

} // verus!
