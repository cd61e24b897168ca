//! The filesystem boundary of the library.
//!
//! Everything the walk learns from the filesystem comes through the
//! functions of this module. Each is a thin call into std's `Path`
//! queries or walkdir's one-level enumeration. What the two probes
//! and the enumeration return depends on the state of the disk at
//! the moment of the call, so their contracts state only what holds
//! of every outcome. `path_file_name` is different: it only parses
//! its argument and touches no disk, so its result is a function of
//! the path string alone and carries a name, `file_name_of`.

use vstd::prelude::*;

verus! {

/// What one readable directory entry reports: its base name and
/// whether the entry itself is a symbolic link (the link, not its
/// target).
pub struct EntryInfo {
    pub name: String,
    pub is_symlink: bool,
}

/// Relies on std's `Path::exists`: true iff the path refers to an
/// existing filesystem entry at the time of the call (symbolic links
/// are resolved; a broken link reports false).
#[verifier::external_body]
pub(crate) fn path_exists(p: &str) -> bool {
    std::path::Path::new(p).exists()
}

/// Relies on std's `Path::is_dir`: true iff the path exists and
/// refers to a directory at the time of the call (symbolic links are
/// resolved, so a link to a directory reports true).
#[verifier::external_body]
pub(crate) fn path_is_dir(p: &str) -> bool {
    std::path::Path::new(p).is_dir()
}

/// The final component that std's `Path::file_name` reports for a
/// path string, converted lossily: a pure parse of the characters of
/// the path under this platform's path syntax, touching no disk.
pub uninterp spec fn file_name_of(p: Seq<char>) -> Option<Seq<char>>;

/// Relies on std's `Path::file_name`: the final component of the
/// path, if there is one — a function of the path string alone,
/// named `file_name_of`. A component is never empty and never
/// contains the separator, and a lossy conversion to `String` keeps
/// a name non-empty and introduces no separator.
#[verifier::external_body]
pub(crate) fn path_file_name(p: &str) -> (r: Option<String>)
    ensures
        r matches Some(s) ==> file_name_of(p@) == Some(s@) && s@.len() > 0
            && crate::tree::no_separator(s@),
        r is None ==> file_name_of(p@) is None,
{
    std::path::Path::new(p).file_name().map(|n| n.to_string_lossy().into_owned())
}

/// Relies on walkdir's `WalkDir`: with `min_depth(1)` and
/// `max_depth(1)` it yields exactly the immediate entries of `p`
/// (`p` itself, like in any path lookup, is resolved if it is a link
/// to a directory), and with `follow_links(false)` the entries are
/// never followed. An entry it could not read is reported here as
/// `None`. For a readable entry, `file_name` is the entry's base
/// name — the final component of its path, a single component, so
/// never empty at depth one and never holding a separator — and
/// `file_type` comes from `symlink_metadata`, so `is_symlink` marks
/// the entry itself, not its target.
#[verifier::external_body]
pub(crate) fn read_dir_entries(p: &str) -> (r: Vec<Option<EntryInfo>>)
    ensures
        forall|i: int|
            0 <= i < r@.len() ==> ((#[trigger] r@[i]) matches Some(e) ==> e.name@.len() > 0
                && crate::tree::no_separator(e.name@)),
{
    let mut out: Vec<Option<EntryInfo>> = Vec::new();
    for entry in walkdir::WalkDir::new(p).min_depth(1).max_depth(1).follow_links(false) {
        out.push(match entry {
            Ok(e) => Some(EntryInfo {
                name: e.file_name().to_string_lossy().into_owned(),
                is_symlink: e.file_type().is_symlink(),
            }),
            Err(_) => None,
        });
    }
    out
}

} // verus!
