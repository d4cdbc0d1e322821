//! Listings of directories: what a directory holds is read once into a
//! tree of nodes, and from that tree the library makes the sorted and
//! filtered lines of a flat or hierarchical listing, its summary, the
//! records and table rows that are put out, and the steps of an interactive
//! navigator and of a watch that lists again and again.

pub mod entry;
pub mod error;
pub mod filter;
pub mod format;
pub mod navigator;
pub mod options;
pub mod order;
pub mod output;
pub mod record;
pub mod snapshot;
pub mod summary;
pub mod text;
pub mod tree;
pub mod watch;
