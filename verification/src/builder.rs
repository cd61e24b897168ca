//! The walk itself: validation of the root path, one enumeration per
//! directory, recursion into real subdirectories, and bottom-up
//! assembly of the sorted tree.

use vstd::prelude::*;

verus! {

use crate::fsio::{
    file_name_of, path_exists, path_file_name, path_is_dir, read_dir_entries, EntryInfo,
};
use crate::order::sort_children;
use crate::tree::{join_path, joined, no_separator, BuildError, FileTree};

broadcast use vstd::seq_lib::group_to_multiset_ensures;

/// How many levels below its root a walk may expand. Expansion stops,
/// conservatively, once a branch is this deep; no hierarchy a real
/// filesystem can hold comes anywhere near the bound.
pub const MAX_WALK_DEPTH: u64 = 0xffff_ffff_ffff_ffff;

/// The readable entries of one enumeration, in the order they were
/// yielded: the `Some`s, with every `None` (an unreadable entry) left
/// out.
pub open spec fn readable_entries(s: Seq<Option<EntryInfo>>) -> Seq<EntryInfo>
    decreases s.len(),
{
    if s.len() == 0 {
        Seq::empty()
    } else {
        let rest = readable_entries(s.drop_last());
        match s.last() {
            Option::Some(e) => rest.push(e),
            Option::None => rest,
        }
    }
}

/// Every readable entry keeps a property that all entries of the
/// enumeration have; here, a non-empty, separator-free name.
proof fn lemma_readable_entries_names(s: Seq<Option<EntryInfo>>)
    requires
        forall|i: int|
            0 <= i < s.len() ==> ((#[trigger] s[i]) matches Some(e) ==> e.name@.len() > 0
                && no_separator(e.name@)),
    ensures
        forall|j: int|
            0 <= j < readable_entries(s).len() ==> (#[trigger] readable_entries(s)[j]).name@.len()
                > 0 && no_separator(readable_entries(s)[j].name@),
    decreases s.len(),
{
    if s.len() > 0 {
        assert(forall|i: int|
            0 <= i < s.drop_last().len() ==> ((#[trigger] s.drop_last()[i]) matches Some(e)
                ==> e.name@.len() > 0 && no_separator(e.name@)));
        lemma_readable_entries_names(s.drop_last());
        let rest = readable_entries(s.drop_last());
        assert(s[s.len() - 1] == s.last());
        assert forall|j: int| 0 <= j < readable_entries(s).len() implies (#[trigger] readable_entries(
            s,
        )[j]).name@.len() > 0 && no_separator(readable_entries(s)[j].name@) by {
            match s.last() {
                Option::Some(e) => {
                    assert(readable_entries(s) == rest.push(e));
                    if j < rest.len() {
                        assert(readable_entries(s)[j] == rest[j]);
                    } else {
                        assert(readable_entries(s)[j] == e);
                    }
                },
                Option::None => {
                    assert(readable_entries(s) == rest);
                },
            }
        }
    }
}

/// One node for each readable entry of a directory, in enumeration
/// order, each fully resolved: the node carries the entry's name, the
/// parent's path extended with that name, and — only when the entry
/// is a real directory, not a symbolic link — the subtree below it.
/// Unreadable entries (the `None`s) are skipped and nothing else is.
pub fn collect_children(parent_path: &str, entries: Vec<Option<EntryInfo>>, fuel: u64) -> (kids:
    Vec<FileTree>)
    ensures
        kids@.len() == readable_entries(entries@).len(),
        forall|j: int|
            0 <= j < kids@.len() ==> {
                let e = readable_entries(entries@)[j];
                &&& (#[trigger] kids@[j]).wf()
                &&& kids@[j].name@ == e.name@
                &&& kids@[j].path@ == joined(parent_path@, e.name@)
                &&& (e.is_symlink ==> kids@[j].children is None)
            },
    decreases fuel, 1int,
{
    let ghost all = entries@;
    let mut kids: Vec<FileTree> = Vec::new();
    let mut idx: usize = 0;
    proof {
        assert(all.take(0).len() == 0);
    }
    while idx < entries.len()
        invariant
            0 <= idx <= all.len(),
            entries@ == all,
            kids@.len() == readable_entries(all.take(idx as int)).len(),
            forall|j: int|
                0 <= j < kids@.len() ==> {
                    let e = readable_entries(all.take(idx as int))[j];
                    &&& (#[trigger] kids@[j]).wf()
                    &&& kids@[j].name@ == e.name@
                    &&& kids@[j].path@ == joined(parent_path@, e.name@)
                    &&& (e.is_symlink ==> kids@[j].children is None)
                },
        decreases all.len() - idx,
    {
        let ghost prefix = all.take(idx as int);
        let ghost next_prefix = all.take(idx as int + 1);
        proof {
            assert(next_prefix.drop_last() =~= prefix);
            assert(next_prefix.last() == all[idx as int]);
        }
        match &entries[idx] {
            Option::Some(e) => {
                let cname = e.name.clone();
                let child_path = join_path(parent_path, cname.as_str());
                let child_dir = path_is_dir(child_path.as_str());
                let child = build_node(
                    child_path,
                    cname,
                    child_dir,
                    child_dir && !e.is_symlink,
                    fuel,
                );
                kids.push(child);
            },
            Option::None => {},
        }
        idx = idx + 1;
        proof {
            assert(all.take(idx as int) == next_prefix);
        }
    }
    proof {
        assert(all.take(all.len() as int) =~= all);
    }
    kids
}

/// One fully resolved node for the entry at `path`. `is_dir` is the
/// directory flag recorded on the node; the entries below `path` are
/// enumerated only when `expand` is set, and each readable one
/// becomes a child.
pub(crate) fn build_node(path: String, name: String, is_dir: bool, expand: bool, fuel: u64) -> (r:
    FileTree)
    requires
        expand ==> is_dir,
    ensures
        r.wf(),
        r.name == name,
        r.path == path,
        r.is_directory == is_dir,
        !expand ==> r.children is None,
    decreases fuel, 0int,
{
    let mut kids: Vec<FileTree> = Vec::new();
    if expand && fuel > 0 {
        let entries = read_dir_entries(path.as_str());
        proof {
            lemma_readable_entries_names(entries@);
        }
        kids = collect_children(path.as_str(), entries, fuel - 1);
    }
    make_node(name, path, is_dir, kids)
}

/// Attaches the children of one directory: sorts them by name and
/// stores the sorted list — the whole of it, a permutation of `kids`
/// with nothing dropped or added — or stores no list at all when
/// there are none. The node's own fields are passed through
/// unchanged.
pub fn make_node(name: String, path: String, is_dir: bool, kids: Vec<FileTree>) -> (r: FileTree)
    requires
        kids@.len() > 0 ==> is_dir,
        forall|j: int|
            0 <= j < kids@.len() ==> (#[trigger] kids@[j]).wf() && kids@[j].name@.len() > 0
                && no_separator(kids@[j].name@) && kids@[j].path@ == joined(
                path@,
                kids@[j].name@,
            ),
    ensures
        r.wf(),
        r.name == name,
        r.path == path,
        r.is_directory == is_dir,
        (kids@.len() == 0) <==> (r.children is None),
        r.children matches Some(cs) ==> cs@.to_multiset() == kids@.to_multiset()
            && crate::order::sorted_by_name(cs@),
{
    if kids.len() == 0 {
        FileTree { name, path, is_directory: is_dir, children: Option::None }
    } else {
        let ghost orig = kids@;
        let sorted = sort_children(kids);
        proof {
            assert(sorted@.len() == orig.len()) by {
                assert(sorted@.to_multiset().len() == orig.to_multiset().len());
            }
            assert forall|j: int| 0 <= j < sorted@.len() implies (#[trigger] sorted@[j]).wf()
                && sorted@[j].name@.len() > 0 && no_separator(sorted@[j].name@)
                && sorted@[j].path@ == joined(path@, sorted@[j].name@) by {
                assert(sorted@.to_multiset().count(sorted@[j]) > 0);
                assert(orig.contains(sorted@[j]));
            }
        }
        FileTree { name, path, is_directory: is_dir, children: Option::Some(sorted) }
    }
}

/// The tree below `path`: a leaf when `path` is not a directory, and
/// otherwise a directory node holding one fully resolved, sorted
/// subtree per readable entry. The node's `path` is the argument
/// exactly as supplied; its `name` is the final component of `path`,
/// or `path` itself when the path has no final component.
pub fn build_file_tree(path: &str) -> (r: FileTree)
    ensures
        r.wf(),
        r.path@ == path@,
        r.name@ == (match file_name_of(path@) {
            Option::Some(n) => n,
            Option::None => path@,
        }),
{
    let is_dir = path_is_dir(path);
    let name = match path_file_name(path) {
        Option::Some(n) => n,
        Option::None => path.to_owned(),
    };
    build_node(path.to_owned(), name, is_dir, is_dir, MAX_WALK_DEPTH)
}

/// The Path Validator's decision, over the results of the two probes
/// of the root path: a missing path is `NotFound`, an existing
/// non-directory is `NotADirectory`, a directory passes — exactly,
/// if and only if.
pub fn validate_root(exists: bool, is_dir: bool) -> (r: Option<BuildError>)
    ensures
        r == (if !exists {
            Option::Some(BuildError::NotFound)
        } else if !is_dir {
            Option::Some(BuildError::NotADirectory)
        } else {
            Option::None
        }),
{
    if !exists {
        Option::Some(BuildError::NotFound)
    } else if !is_dir {
        Option::Some(BuildError::NotADirectory)
    } else {
        Option::None
    }
}

/// The single entry point: probes the root path, lets `validate_root`
/// decide, and on a pass hands the path to the walk.
///
/// The two validation failures are the only errors this operation can
/// surface; a failure to read anything below the root is absorbed
/// silently by the walk, and an error never comes with a partial
/// tree. On success the tree is fully materialized, structurally
/// sound, rooted at the supplied path string, and its root is flagged
/// as a directory.
pub fn get_file_tree(folder_path: String) -> (r: Result<FileTree, BuildError>)
    ensures
        r matches Ok(t) ==> t.wf() && t.is_directory && t.path@ == folder_path@ && t.name@ == (
        match file_name_of(folder_path@) {
            Option::Some(n) => n,
            Option::None => folder_path@,
        }),
{
    let exists = path_exists(folder_path.as_str());
    let is_dir = path_is_dir(folder_path.as_str());
    match validate_root(exists, is_dir) {
        Option::Some(e) => {
            return Result::Err(e);
        },
        Option::None => {},
    }
    let name = match path_file_name(folder_path.as_str()) {
        Option::Some(n) => n,
        Option::None => folder_path.clone(),
    };
    Result::Ok(build_node(folder_path, name, true, true, MAX_WALK_DEPTH))
}

} // verus!
