//! The tree node produced by a walk, and the errors of the entry point.

use vstd::prelude::*;

verus! {

use vstd::string::StringExecFns;

/// Whether `s` is free of the path separator — true of every name,
/// which is a single path component.
pub open spec fn no_separator(s: Seq<char>) -> bool {
    forall|k: int| 0 <= k < s.len() ==> s[k] != '/'
}

/// Whether `s` already ends in the path separator.
pub open spec fn ends_sep(s: Seq<char>) -> bool {
    s.len() > 0 && s[s.len() - 1] == '/'
}

/// The path of an entry named `name` inside the directory at
/// `parent`: the parent's path, a separator unless the parent
/// already ends in one, then the name.
pub open spec fn joined(parent: Seq<char>, name: Seq<char>) -> Seq<char> {
    if ends_sep(parent) {
        parent + name
    } else {
        parent + seq!['/'] + name
    }
}

/// One node of the resulting tree: a file or a directory.
///
/// `children` is `Some` only for a directory in which at least one
/// entry was read successfully; it is `None` for files, for empty
/// directories, and for directories whose every entry was unreadable.
#[derive(Debug, PartialEq)]
pub struct FileTree {
    pub name: String,
    pub path: String,
    pub is_directory: bool,
    pub children: Option<Vec<FileTree>>,
}

impl FileTree {
    /// Structural soundness of a tree: only a directory carries
    /// children, an attached child list is non-empty and sorted by
    /// name, and every child has a non-empty, separator-free name and
    /// the path of its parent extended with a separator and its name
    /// — so a child's name is exactly the final segment of its path.
    pub open spec fn wf(self) -> bool
        decreases self,
    {
        match self.children {
            Option::None => true,
            Option::Some(cs) => {
                &&& self.is_directory
                &&& cs@.len() > 0
                &&& crate::order::sorted_by_name(cs@)
                &&& forall|i: int|
                    0 <= i < cs@.len() ==> #[trigger] cs@[i].wf() && cs@[i].name@.len() > 0
                        && no_separator(cs@[i].name@) && cs@[i].path@ == joined(
                        self.path@,
                        cs@[i].name@,
                    )
            },
        }
    }
}

/// What the two name clauses of `wf` amount to: a child's name is
/// exactly the final segment of its path — the suffix that follows
/// the last separator, which in turn ends the parent's prefix.
pub proof fn lemma_name_is_final_segment(parent: Seq<char>, name: Seq<char>, path: Seq<char>)
    requires
        path == joined(parent, name),
        no_separator(name),
    ensures
        path.len() > name.len(),
        name == path.skip(path.len() - name.len()),
        path[path.len() - name.len() - 1] == '/',
        forall|k: int| path.len() - name.len() <= k < path.len() ==> path[k] != '/',
{
    assert(name =~= path.skip(path.len() - name.len()));
}

/// The last byte of a UTF-8 encoding is the separator's byte exactly
/// when the last character is the separator: a one-byte encoding is
/// the scalar itself, and the trailing byte of a longer encoding is
/// a continuation byte, outside ASCII.
proof fn lemma_last_byte_sep(s: Seq<char>)
    ensures
        (vstd::utf8::encode_utf8(s).len() == 0) == (s.len() == 0),
        s.len() > 0 ==> ((vstd::utf8::encode_utf8(s).last() == 0x2fu8) <==> (s.last() == '/')),
    decreases s.len(),
{
    if s.len() > 0 {
        lemma_last_byte_sep(s.drop_first());
        if s.len() == 1 {
            assert(vstd::utf8::encode_utf8(s.drop_last()) =~= seq![]);
            assert(vstd::utf8::encode_utf8(s.drop_first()) =~= seq![]);
            assert(vstd::utf8::encode_utf8(s) =~= vstd::utf8::encode_scalar(s[0] as u32));
            let v = s[0] as u32;
            vstd::utf8::char_is_scalar(s[0]);
            vstd::utf8::char_u32_cast(s[0], v);
            vstd::utf8::char_u32_cast('/', '/' as u32);
            assert(('/' as u32) == 0x2f);
            assert(s[0] == '/' <==> v == 0x2f);
            if v <= 0x7f {
                assert((v & 0x7f) == v) by (bit_vector)
                    requires
                        v <= 0x7f,
                ;
                assert(vstd::utf8::encode_scalar(v).last() == v as u8);
                assert(v as u8 == 0x2fu8 <==> v == 0x2f);
            } else {
                assert(vstd::utf8::encode_scalar(v).last()
                    == vstd::utf8::last_continuation_byte(v));
                let y = (v & 0x3f) as u8;
                assert(forall|w: u8| (0x80u8 | w) >= 0x80) by (bit_vector);
                assert(vstd::utf8::last_continuation_byte(v) == (0x80u8 | y));
                assert(vstd::utf8::encode_scalar(v).last() != 0x2fu8);
            }
        } else {
            assert(vstd::utf8::encode_utf8(s).last() == vstd::utf8::encode_utf8(
                s.drop_first(),
            ).last());
            assert(s.last() == s.drop_first().last());
        }
    }
}

/// True iff the path string ends in the separator.
fn ends_with_sep(s: &str) -> (r: bool)
    ensures
        r == ends_sep(s@),
{
    let b = s.as_bytes();
    proof {
        lemma_last_byte_sep(s@);
    }
    if b.len() == 0 {
        return false;
    }
    let last: u8 = b[b.len() - 1];
    last == 0x2f
}

/// The parent's path extended with a child's name, inserting the
/// separator only when the parent does not already end in one.
pub(crate) fn join_path(parent: &str, name: &str) -> (r: String)
    ensures
        r@ == joined(parent@, name@),
{
    let base = parent.to_owned();
    if ends_with_sep(parent) {
        base.concat(name)
    } else {
        let with_sep = base.concat("/");
        proof {
            reveal_strlit("/");
            assert(with_sep@ =~= parent@ + seq!['/']);
        }
        with_sep.concat(name)
    }
}

/// Why a walk refuses to start: the two root-level validation
/// failures. Failures below the root are absorbed, never reported.
#[derive(Clone, Copy, Debug, PartialEq, Eq, Structural)]
pub enum BuildError {
    /// The root path does not refer to any existing filesystem entry.
    NotFound,
    /// The root path exists but does not refer to a directory.
    NotADirectory,
}

impl BuildError {
    /// The human-readable description of this error.
    pub fn message(&self) -> (m: String)
        ensures
            *self is NotFound ==> m@ == "Path does not exist"@,
            *self is NotADirectory ==> m@ == "Provided path is not a directory"@,
    {
        match self {
            BuildError::NotFound => "Path does not exist".to_owned(),
            BuildError::NotADirectory => "Provided path is not a directory".to_owned(),
        }
    }
}

} // verus!
