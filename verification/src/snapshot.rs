//! What was read of a directory tree, kept as a tree of nodes.

use vstd::prelude::*;
use vstd::string::StringExecFns;
use crate::entry::{hidden_name, is_hidden, EntryInfo};
use crate::error::ListError;

verus! {

/// What was read of one filesystem object: its entry and, for a directory,
/// either the objects in it, in the order in which they were read, or the
/// reason why they could not be read. A node knows how many entries and how
/// many bytes it holds, so that neither count can outgrow a `u64`.
#[derive(Debug)]
pub struct Node {
    pub(crate) entry: EntryInfo,
    pub(crate) children: Vec<Node>,
    pub(crate) failure: Option<String>,
    pub(crate) weight: u64,
    pub(crate) bytes: u64,
}

/// Number of entries in a node: itself and all below it.
pub open(crate) spec fn entry_count(node: Node) -> nat
    decreases node,
{
    1 + entry_count_all(node.kids())
}

/// Number of entries in a row of nodes.
pub open(crate) spec fn entry_count_all(nodes: Seq<Node>) -> nat
    decreases nodes,
{
    if nodes.len() == 0 {
        0
    } else {
        entry_count_all(nodes.drop_last()) + entry_count(nodes.last())
    }
}

/// Sum of the sizes of the entries in a node.
pub open(crate) spec fn byte_count(node: Node) -> nat
    decreases node,
{
    node.info().size() as nat + byte_count_all(node.kids())
}

/// Sum of the sizes of the entries in a row of nodes.
pub open(crate) spec fn byte_count_all(nodes: Seq<Node>) -> nat
    decreases nodes,
{
    if nodes.len() == 0 {
        0
    } else {
        byte_count_all(nodes.drop_last()) + byte_count(nodes.last())
    }
}

/// What reading an entry as a directory says where the entry is none.
pub open spec fn not_a_directory_text(entry: EntryInfo) -> Seq<char> {
    "Failed to read "@ + entry.path@ + ": Not a directory"@
}

/// The nodes that a listing shows: all of them, or those whose name is not hidden.
pub open spec fn visible_nodes(nodes: Seq<Node>, all: bool) -> Seq<Node> {
    nodes.filter(|n: Node| all || !hidden_name(n.info().name@))
}

/// The entries of a row of nodes.
pub open spec fn entries_of(nodes: Seq<Node>) -> Seq<EntryInfo> {
    nodes.map_values(|n: Node| n.info())
}

impl Node {
    /// The node's own entry.
    pub open(crate) spec fn info(self) -> EntryInfo {
        self.entry
    }

    /// The nodes directly below, as they were read.
    pub open(crate) spec fn kids(self) -> Seq<Node> {
        self.children@
    }

    /// Why the node cannot be read as a directory, if it cannot: for the
    /// reason that was recorded when it was read, or because it is no
    /// directory.
    pub open(crate) spec fn read_failure(self) -> Option<Seq<char>> {
        match self.failure {
            Some(m) => Some(m@),
            None => if self.entry.is_dir() {
                None
            } else {
                Some(not_a_directory_text(self.entry))
            },
        }
    }

    #[verifier::type_invariant]
    pub open(crate) spec fn counted(self) -> bool {
        &&& self.weight == entry_count(self)
        &&& self.bytes == byte_count(self)
    }

    /// A node with nothing below it: a file, a link, or an empty directory.
    /// Only a directory can be read.
    pub fn leaf(entry: EntryInfo) -> (r: Node)
        ensures
            r.info() == entry,
            r.kids().len() == 0,
            r.read_failure() == (if entry.is_dir() {
                None
            } else {
                Some(not_a_directory_text(entry))
            }),
    {
        let bytes = entry.size();
        Node { entry, children: Vec::new(), failure: None, weight: 1, bytes }
    }

    /// A directory that could not be read, with the reason.
    pub fn unreadable(entry: EntryInfo, message: String) -> (r: Node)
        ensures
            r.info() == entry,
            r.kids().len() == 0,
            r.read_failure() == Some(message@),
    {
        let bytes = entry.size();
        Node { entry, children: Vec::new(), failure: Some(message), weight: 1, bytes }
    }

    /// A directory with what was read in it. There is none if the entries or
    /// their bytes are too many to count in a `u64`.
    pub fn directory(entry: EntryInfo, children: Vec<Node>) -> (r: Option<Node>)
        ensures
            r is Some <==> 1 + entry_count_all(children@) <= u64::MAX && entry.size()
                + byte_count_all(children@) <= u64::MAX,
            r matches Some(node) ==> node.info() == entry && node.kids() == children@
                && node.read_failure() == (if entry.is_dir() {
                None
            } else {
                Some(not_a_directory_text(entry))
            }),
    {
        let mut weight: u64 = 1;
        let mut bytes: u64 = entry.size();
        let mut fits = true;
        let mut i: usize = 0;
        while i < children.len()
            invariant
                i <= children.len(),
                fits ==> weight == 1 + entry_count_all(children@.take(i as int)),
                fits ==> bytes == entry.size() + byte_count_all(children@.take(i as int)),
                !fits ==> 1 + entry_count_all(children@.take(i as int)) > u64::MAX || entry.size()
                    + byte_count_all(children@.take(i as int)) > u64::MAX,
            decreases children.len() - i,
        {
            let child = &children[i];
            proof {
                use_type_invariant(child);
                assert(children@.take(i as int + 1).drop_last() == children@.take(i as int));
            }
            if fits {
                match (weight.checked_add(child.weight), bytes.checked_add(child.bytes)) {
                    (Some(w), Some(b)) => {
                        weight = w;
                        bytes = b;
                    },
                    _ => {
                        fits = false;
                    },
                }
            }
            i += 1;
        }
        assert(children@.take(children.len() as int) == children@);
        if fits {
            Some(Node { entry, children, failure: None, weight, bytes })
        } else {
            None
        }
    }

    /// The node's own entry.
    pub fn entry(&self) -> (r: &EntryInfo)
        ensures
            *r == self.info(),
    {
        &self.entry
    }

    /// The nodes directly below.
    pub fn children(&self) -> (r: &Vec<Node>)
        ensures
            r@ == self.kids(),
    {
        &self.children
    }

    /// Why the node cannot be read as a directory, if it cannot.
    pub fn read_error(&self) -> (r: Option<String>)
        ensures
            match self.read_failure() {
                Some(m) => r matches Some(text) && text@ == m,
                None => r is None,
            },
    {
        match &self.failure {
            Some(m) => Some(m.clone()),
            None => {
                if self.entry.is_dir() {
                    None
                } else {
                    let mut text = String::from_str("Failed to read ");
                    text.append(self.entry.path.as_str());
                    text.append(": Not a directory");
                    Some(text)
                }
            },
        }
    }

    /// Number of entries in the node, itself included.
    pub fn weight(&self) -> (r: u64)
        ensures
            r == entry_count(*self),
    {
        proof {
            use_type_invariant(self);
        }
        self.weight
    }

    /// Sum of the sizes of the entries in the node.
    pub fn bytes(&self) -> (r: u64)
        ensures
            r == byte_count(*self),
    {
        proof {
            use_type_invariant(self);
        }
        self.bytes
    }
}

/// Reads the entries of a directory from what was read of it: the reason of
/// the failure if it could not be read or is no directory, else its entries
/// in the order in which they were read, without the hidden ones unless
/// `all` is set.
pub fn read_entries(dir: &Node, all: bool) -> (r: Result<Vec<EntryInfo>, ListError>)
    ensures
        match dir.read_failure() {
            Some(m) => r matches Err(ListError::Io { message }) && message@ == m,
            None => r matches Ok(out) && out@ == entries_of(visible_nodes(dir.kids(), all)),
        },
{
    match dir.read_error() {
        Some(message) => Err(ListError::Io { message }),
        None => {
            let ghost keep = |n: Node| all || !hidden_name(n.info().name@);
            let mut out: Vec<EntryInfo> = Vec::new();
            let mut i: usize = 0;
            while i < dir.children.len()
                invariant
                    i <= dir.children.len(),
                    keep == (|n: Node| all || !hidden_name(n.info().name@)),
                    out@ == entries_of(dir.children@.take(i as int).filter(keep)),
                decreases dir.children.len() - i,
            {
                proof {
                    assert(dir.children@.take(i as int + 1).drop_last() == dir.children@.take(
                        i as int,
                    ));
                    reveal(Seq::filter);
                }
                let child = &dir.children[i];
                if all || !is_hidden(child.entry.name.as_str()) {
                    out.push(child.entry.clone());
                }
                assert(out@ =~= entries_of(dir.children@.take(i as int + 1).filter(keep)));
                i += 1;
            }
            assert(dir.children@.take(dir.children.len() as int) == dir.children@);
            Ok(out)
        },
    }
}

} // verus!
