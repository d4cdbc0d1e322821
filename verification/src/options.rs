//! What a listing can be asked for.

use vstd::prelude::*;

verus! {

/// The field by which entries are ordered.
#[derive(Clone, Copy, Debug, PartialEq, Eq, Structural)]
pub enum SortKey {
    Name,
    Size,
    Age,
}

/// Everything a listing can be asked for.
#[derive(Debug, PartialEq, Eq)]
pub struct ListOptions {
    /// Show hidden entries too.
    pub all: bool,
    /// One row per entry with mode, size and time.
    pub long: bool,
    pub icons: bool,
    /// Show the whole hierarchy below the root.
    pub tree: bool,
    pub rainbow: bool,
    /// A glob that the relative path of a shown entry must match.
    pub filter: Option<String>,
    pub only_dirs: bool,
    pub only_files: bool,
    /// Give a structured record in place of text.
    pub json: bool,
    /// Sum the sizes.
    pub du: bool,
    /// Count files and bytes by extension.
    pub extensions: bool,
    pub watch: bool,
    /// Sizes with binary units.
    pub human: bool,
    pub sort: SortKey,
    pub reverse: bool,
}

impl Clone for ListOptions {
    fn clone(&self) -> (r: Self)
        ensures
            r == *self,
    {
        ListOptions {
            all: self.all,
            long: self.long,
            icons: self.icons,
            tree: self.tree,
            rainbow: self.rainbow,
            filter: match &self.filter {
                Some(p) => Some(p.clone()),
                None => None,
            },
            only_dirs: self.only_dirs,
            only_files: self.only_files,
            json: self.json,
            du: self.du,
            extensions: self.extensions,
            watch: self.watch,
            human: self.human,
            sort: self.sort,
            reverse: self.reverse,
        }
    }
}

impl Default for ListOptions {
    /// Nothing switched on, ordered by name.
    fn default() -> (r: Self)
        ensures
            r == (ListOptions {
                all: false,
                long: false,
                icons: false,
                tree: false,
                rainbow: false,
                filter: None,
                only_dirs: false,
                only_files: false,
                json: false,
                du: false,
                extensions: false,
                watch: false,
                human: false,
                sort: SortKey::Name,
                reverse: false,
            }),
    {
        ListOptions {
            all: false,
            long: false,
            icons: false,
            tree: false,
            rainbow: false,
            filter: None,
            only_dirs: false,
            only_files: false,
            json: false,
            du: false,
            extensions: false,
            watch: false,
            human: false,
            sort: SortKey::Name,
            reverse: false,
        }
    }
}

} // verus!
