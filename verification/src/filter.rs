//! The filter of a listing: an optional glob, matched by globset, and the
//! restriction to directories or to files.

use vstd::prelude::*;
use vstd::string::{StrSliceExecFns, StringExecFns};
use crate::entry::EntryInfo;
use crate::error::ListError;
use crate::options::ListOptions;
use crate::text::{replace_char, replace_in_text};

verus! {

/// `globset::GlobSet`, a set of compiled globs.
#[verifier::external_type_specification]
#[verifier::external_body]
pub struct ExGlobSet(globset::GlobSet);

/// The longest pattern, in characters, that can be handed to globset: two
/// to the power of 28. A character takes at most four bytes, so such a
/// pattern has at most two to the power of 30 bytes.
pub const MAX_PATTERN_CHARS: usize = 0x1000_0000;

/// What a glob set holds: the paths, as texts, that `GlobSet::is_match`
/// answers with yes.
pub uninterp spec fn glob_set_paths(set: globset::GlobSet) -> Set<Seq<char>>;

/// Whether `globset::Glob::new` takes the pattern and
/// `globset::GlobSetBuilder::build` builds the set of that one glob.
pub uninterp spec fn glob_builds(pattern: Seq<char>) -> bool;

/// Whether the set of the one glob that globset makes of the pattern
/// matches the path. Like the other names for what globset gives, it is
/// meant on the platform for which the library is built.
pub uninterp spec fn glob_accepts(pattern: Seq<char>, path: Seq<char>) -> bool;

/// The text that `globset::Error` shows for a pattern that globset does
/// not build.
pub uninterp spec fn glob_refusal(pattern: Seq<char>) -> Seq<char>;

/// Parses a pattern with `globset::Glob::new`, with globset's defaults, and
/// builds the set of that one glob with `globset::GlobSetBuilder::build`.
/// Either step may refuse the pattern: the parser a malformed glob, the
/// builder a glob whose regular expression is nested too deep or grows too
/// large. The refusal is handed on as the text that globset's error shows
/// for itself. Whether the set is built, and the text if it is not, depend
/// on the pattern alone, and a set that is built matches what `glob_accepts`
/// says of the pattern. The builder unwraps the automaton that aho-corasick
/// makes of a literal prefix or suffix. aho-corasick builds a non-contiguous
/// automaton first and falls back to it where a faster one cannot be made;
/// the first fails only where its states or transitions, one for each byte
/// of the literal and a few thousand more, are more than 31 bits can count.
/// This is what the bound on the pattern leaves out.
#[verifier::external_body]
fn build_glob_set(pattern: &str) -> (r: Result<globset::GlobSet, String>)
    requires
        pattern@.len() <= MAX_PATTERN_CHARS,
    ensures
        r is Ok <==> glob_builds(pattern@),
        r matches Ok(set) ==> forall|path: Seq<char>|
            #[trigger] glob_set_paths(set).contains(path) == glob_accepts(pattern@, path),
        r matches Err(text) ==> text@ == glob_refusal(pattern@),
{
    let built = match globset::Glob::new(pattern) {
        Ok(glob) => globset::GlobSetBuilder::new().add(glob).build(),
        Err(error) => Err(error),
    };
    match built {
        Ok(set) => Ok(set),
        Err(error) => Err(error.to_string()),
    }
}

/// Asks `globset::GlobSet::is_match` whether the set matches the path: it
/// does if one of its globs does, and what it says of a path is what the set
/// holds.
#[verifier::external_body]
fn glob_set_is_match(set: &globset::GlobSet, path: &str) -> (r: bool)
    ensures
        r == glob_set_paths(*set).contains(path@),
{
    set.is_match(path)
}

/// A glob that globset has compiled, with the pattern it was made of.
#[derive(Debug)]
pub struct GlobFilter {
    pattern: String,
    set: globset::GlobSet,
}

impl GlobFilter {
    #[verifier::type_invariant]
    spec fn compiled(self) -> bool {
        forall|path: Seq<char>|
            #[trigger] glob_set_paths(self.set).contains(path) == glob_accepts(self.pattern@, path)
    }

    /// The pattern as it was given.
    pub closed spec fn pattern_text(self) -> Seq<char> {
        self.pattern@
    }

    /// The pattern as it was given.
    pub fn pattern(&self) -> (r: &str)
        ensures
            r@ == self.pattern_text(),
    {
        self.pattern.as_str()
    }

    /// Whether the glob matches a path, which is taken as it is.
    pub fn is_match(&self, path: &str) -> (r: bool)
        ensures
            r == glob_accepts(self.pattern_text(), path@),
    {
        proof {
            use_type_invariant(self);
        }
        glob_set_is_match(&self.set, path)
    }
}

/// Whether a pattern compiles to a glob: globset builds it. Only a pattern
/// of more characters than `MAX_PATTERN_CHARS`, which aho-corasick's counters
/// may not hold, is not handed to globset at all.
pub open spec fn pattern_compiles(pattern: Seq<char>) -> bool {
    pattern.len() <= MAX_PATTERN_CHARS && glob_builds(pattern)
}

/// Why a pattern that does not compile is refused: for its length, or in
/// globset's words.
pub open spec fn refusal_text(pattern: Seq<char>) -> Seq<char> {
    if pattern.len() > MAX_PATTERN_CHARS {
        "the pattern is longer than 268435456 characters"@
    } else {
        glob_refusal(pattern)
    }
}

/// The pattern of the glob, if there is a glob.
pub open spec fn pattern_of(matcher: Option<&GlobFilter>) -> Option<Seq<char>> {
    match matcher {
        Some(m) => Some(m.pattern_text()),
        None => None,
    }
}

/// Compiles the filter that the options name, once for all entries of a
/// listing. Without a filter there is no glob; a pattern that compiles
/// gives its glob; any other pattern is refused with the reason.
pub fn compile_filter(options: &ListOptions) -> (r: Result<Option<GlobFilter>, ListError>)
    ensures
        match options.filter {
            None => r == Ok::<Option<GlobFilter>, ListError>(None),
            Some(p) => if pattern_compiles(p@) {
                r matches Ok(Some(m)) && m.pattern_text() == p@
            } else {
                r matches Err(ListError::InvalidFilterPattern { pattern, detail }) && pattern@
                    == p@ && detail@ == refusal_text(p@)
            },
        },
{
    match &options.filter {
        None => Ok(None),
        Some(p) => {
            if p.as_str().unicode_len() > MAX_PATTERN_CHARS {
                return Err(
                    ListError::InvalidFilterPattern {
                        pattern: p.clone(),
                        detail: String::from_str(
                            "the pattern is longer than 268435456 characters",
                        ),
                    },
                );
            }
            match build_glob_set(p.as_str()) {
                Ok(set) => Ok(Some(GlobFilter { pattern: p.clone(), set })),
                Err(detail) => Err(ListError::InvalidFilterPattern { pattern: p.clone(), detail }),
            }
        },
    }
}

/// A relative path as globs see it: every backslash is a slash.
pub open spec fn match_path(path: Seq<char>) -> Seq<char> {
    replace_char(path, '\\', '/')
}

/// Writes a relative path with slashes only, so that one glob fits every platform.
pub fn normalize_match_path(path: &str) -> (r: String)
    ensures
        r@ == match_path(path@),
{
    replace_in_text(path, '\\', '/')
}

/// Whether an entry is shown for its own sake: not where only directories
/// are wanted and it is none, not where only files are wanted and it is a
/// directory, and, where there is a glob, only if the glob matches its
/// relative path.
pub open spec fn entry_printed(
    entry: EntryInfo,
    rel_path: Seq<char>,
    options: ListOptions,
    pattern: Option<Seq<char>>,
) -> bool {
    &&& !(options.only_dirs && !entry.is_dir())
    &&& !(options.only_files && entry.is_dir())
    &&& (pattern matches Some(p) ==> glob_accepts(p, match_path(rel_path)))
}

/// Decides whether an entry is shown for its own sake.
pub fn should_print_entry(
    entry: &EntryInfo,
    rel_path: &str,
    options: &ListOptions,
    matcher: Option<&GlobFilter>,
) -> (r: bool)
    ensures
        r == entry_printed(*entry, rel_path@, *options, pattern_of(matcher)),
{
    if options.only_dirs && !entry.is_dir() {
        return false;
    }
    if options.only_files && entry.is_dir() {
        return false;
    }
    match matcher {
        None => true,
        Some(m) => {
            let path = normalize_match_path(rel_path);
            m.is_match(path.as_str())
        },
    }
}

} // verus!
