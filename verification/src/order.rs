//! The order in which the children of a directory are listed:
//! ascending by the bytes of the UTF-8 encoding of their names. This
//! is plain byte ordering of the raw name, not locale-aware collation.

use vstd::prelude::*;

verus! {

use vstd::string::StringSliceAdditionalSpecFns;
use crate::tree::FileTree;

broadcast use {vstd::seq_lib::group_to_multiset_ensures, vstd::multiset::group_multiset_axioms};

/// The bytes a name is compared by: its UTF-8 encoding.
pub open spec fn str_key(s: Seq<char>) -> Seq<u8> {
    vstd::utf8::encode_utf8(s)
}

/// The sort key of a node.
pub open spec fn name_key(t: FileTree) -> Seq<u8> {
    str_key(t.name@)
}

/// Byte-lexicographic order: `a` is a prefix of `b`, or holds the
/// smaller byte at the first position where the two differ.
pub open spec fn lex_le(a: Seq<u8>, b: Seq<u8>) -> bool
    decreases a.len(),
{
    if a.len() == 0 {
        true
    } else if b.len() == 0 {
        false
    } else if a[0] != b[0] {
        a[0] < b[0]
    } else {
        lex_le(a.drop_first(), b.drop_first())
    }
}

/// `lex_le` is reflexive.
pub proof fn lemma_lex_refl(a: Seq<u8>)
    ensures
        lex_le(a, a),
    decreases a.len(),
{
    if a.len() > 0 {
        lemma_lex_refl(a.drop_first());
    }
}

/// `lex_le` is total: two byte sequences compare in one direction or
/// the other (in both iff they are equal).
pub proof fn lemma_lex_total(a: Seq<u8>, b: Seq<u8>)
    ensures
        lex_le(a, b) || lex_le(b, a),
    decreases a.len(),
{
    if a.len() > 0 && b.len() > 0 && a[0] == b[0] {
        lemma_lex_total(a.drop_first(), b.drop_first());
    }
}

/// `lex_le` is transitive.
pub proof fn lemma_lex_trans(a: Seq<u8>, b: Seq<u8>, c: Seq<u8>)
    requires
        lex_le(a, b),
        lex_le(b, c),
    ensures
        lex_le(a, c),
    decreases a.len(),
{
    if a.len() > 0 && b.len() > 0 && c.len() > 0 && a[0] == b[0] && b[0] == c[0] {
        lemma_lex_trans(a.drop_first(), b.drop_first(), c.drop_first());
    }
}

/// `lex_le` in both directions only for equal byte sequences.
pub proof fn lemma_lex_antisym(a: Seq<u8>, b: Seq<u8>)
    requires
        lex_le(a, b),
        lex_le(b, a),
    ensures
        a == b,
    decreases a.len(),
{
    if a.len() > 0 && b.len() > 0 && a[0] == b[0] {
        lemma_lex_antisym(a.drop_first(), b.drop_first());
        assert(a =~= seq![a[0]] + a.drop_first());
        assert(b =~= seq![b[0]] + b.drop_first());
    }
}

/// Whether the names of `s` appear in ascending byte order.
pub open spec fn sorted_by_name(s: Seq<FileTree>) -> bool {
    forall|i: int, j: int|
        0 <= i < j < s.len() ==> #[trigger] lex_le(name_key(s[i]), name_key(s[j]))
}

/// Whether no two nodes of `s` share a name. The entries of one
/// directory never do.
pub open spec fn distinct_names(s: Seq<FileTree>) -> bool {
    forall|i: int, j: int|
        0 <= i < j < s.len() ==> name_key(#[trigger] s[i]) != name_key(#[trigger] s[j])
}

/// A walk is deterministic once the filesystem readings are fixed:
/// whichever order a directory yields its entries in, the sorted
/// child list that is attached is the same, because a sorted sequence
/// of nodes with pairwise distinct names is determined by which nodes
/// it holds.
pub proof fn lemma_sorted_children_unique(a: Seq<FileTree>, b: Seq<FileTree>)
    requires
        sorted_by_name(a),
        sorted_by_name(b),
        distinct_names(a),
        a.to_multiset() == b.to_multiset(),
    ensures
        a == b,
    decreases a.len(),
{
    assert(a.len() == b.len()) by {
        assert(a.to_multiset().len() == a.len());
        assert(b.to_multiset().len() == b.len());
    }
    if a.len() > 0 {
        assert(b.contains(b[0])) by {
            assert(b.to_multiset().count(b[0]) > 0);
        }
        assert(a.to_multiset().count(b[0]) > 0);
        assert(a.contains(b[0]));
        let i = choose|i: int| 0 <= i < a.len() && a[i] == b[0];
        assert(a.contains(a[0]));
        assert(b.to_multiset().count(a[0]) > 0);
        assert(b.contains(a[0]));
        let k = choose|k: int| 0 <= k < b.len() && b[k] == a[0];
        if i > 0 {
            assert(lex_le(name_key(a[0]), name_key(b[0])));
            assert(lex_le(name_key(b[0]), name_key(a[0]))) by {
                if k > 0 {
                    assert(lex_le(name_key(b[0]), name_key(b[k])));
                } else {
                    lemma_lex_refl(name_key(a[0]));
                }
            }
            lemma_lex_antisym(name_key(a[0]), name_key(b[0]));
            assert(name_key(a[0]) == name_key(a[i]));
            assert(false);
        }
        assert(a[0] == b[0]);
        let at = a.drop_first();
        let bt = b.drop_first();
        assert(at =~= a.remove(0));
        assert(bt =~= b.remove(0));
        assert(at.to_multiset() =~= a.to_multiset().remove(a[0])) by {
            assert(a.remove(0).to_multiset() =~= a.to_multiset().remove(a[0]));
        }
        assert(bt.to_multiset() =~= b.to_multiset().remove(b[0])) by {
            assert(b.remove(0).to_multiset() =~= b.to_multiset().remove(b[0]));
        }
        assert(sorted_by_name(at)) by {
            assert forall|x: int, y: int| 0 <= x < y < at.len() implies #[trigger] lex_le(
                name_key(at[x]),
                name_key(at[y]),
            ) by {
                assert(at[x] == a[x + 1]);
                assert(at[y] == a[y + 1]);
            }
        }
        assert(sorted_by_name(bt)) by {
            assert forall|x: int, y: int| 0 <= x < y < bt.len() implies #[trigger] lex_le(
                name_key(bt[x]),
                name_key(bt[y]),
            ) by {
                assert(bt[x] == b[x + 1]);
                assert(bt[y] == b[y + 1]);
            }
        }
        assert(distinct_names(at)) by {
            assert forall|x: int, y: int| 0 <= x < y < at.len() implies name_key(
                #[trigger] at[x],
            ) != name_key(#[trigger] at[y]) by {
                assert(at[x] == a[x + 1]);
                assert(at[y] == a[y + 1]);
            }
        }
        lemma_sorted_children_unique(at, bt);
        assert(a =~= b) by {
            assert forall|x: int| 0 <= x < a.len() implies a[x] == b[x] by {
                if x > 0 {
                    assert(a[x] == at[x - 1]);
                    assert(b[x] == bt[x - 1]);
                }
            }
        }
    } else {
        assert(a =~= b);
    }
}

/// Compares two names: true iff the UTF-8 bytes of `a` are
/// lexicographically at most those of `b`.
pub fn name_le(a: &str, b: &str) -> (r: bool)
    ensures
        r == lex_le(str_key(a@), str_key(b@)),
{
    let ab = a.as_bytes();
    let bb = b.as_bytes();
    let mut i: usize = 0;
    proof {
        assert(ab@.skip(0) =~= ab@);
        assert(bb@.skip(0) =~= bb@);
    }
    loop
        invariant
            ab@ == str_key(a@),
            bb@ == str_key(b@),
            0 <= i <= ab@.len(),
            i <= bb@.len(),
            lex_le(str_key(a@), str_key(b@)) == lex_le(
                ab@.skip(i as int),
                bb@.skip(i as int),
            ),
        decreases ab@.len() - i,
    {
        if i >= ab.len() {
            return true;
        }
        if i >= bb.len() {
            return false;
        }
        let x: u8 = ab[i];
        let y: u8 = bb[i];
        if x != y {
            return x < y;
        }
        proof {
            assert(ab@.skip(i as int).drop_first() =~= ab@.skip(i as int + 1));
            assert(bb@.skip(i as int).drop_first() =~= bb@.skip(i as int + 1));
        }
        i = i + 1;
    }
}

/// Sorts child nodes by name, ascending. The result is a permutation
/// of the input: nothing is dropped, added, or altered.
pub fn sort_children(v: Vec<FileTree>) -> (r: Vec<FileTree>)
    ensures
        sorted_by_name(r@),
        r@.to_multiset() == v@.to_multiset(),
{
    let mut inp = v;
    let mut out: Vec<FileTree> = Vec::new();
    proof {
        assert(out@.to_multiset().add(inp@.to_multiset()) =~= v@.to_multiset());
    }
    while inp.len() > 0
        invariant
            out@.to_multiset().add(inp@.to_multiset()) == v@.to_multiset(),
            sorted_by_name(out@),
            forall|a: int, b: int|
                0 <= a < out@.len() && 0 <= b < inp@.len() ==> lex_le(
                    name_key(#[trigger] out@[a]),
                    name_key(#[trigger] inp@[b]),
                ),
        decreases inp@.len(),
    {
        let m = index_of_min(&inp);
        let ghost old_inp = inp@;
        let ghost old_out = out@;
        let x = inp.remove(m);
        out.push(x);
        proof {
            assert(old_inp.contains(old_inp[m as int]));
            assert(old_inp.to_multiset().count(x) > 0);
            assert(inp@.to_multiset() =~= old_inp.to_multiset().remove(x));
            assert(out@.to_multiset() =~= old_out.to_multiset().insert(x));
            assert(out@.to_multiset().add(inp@.to_multiset()) =~= v@.to_multiset());
            assert forall|a: int, b: int|
                0 <= a < out@.len() && 0 <= b < inp@.len() implies lex_le(
                name_key(#[trigger] out@[a]),
                name_key(#[trigger] inp@[b]),
            ) by {
                assert(inp@[b] == if b < m as int {
                    old_inp[b]
                } else {
                    old_inp[b + 1]
                });
                if a < out@.len() - 1 {
                    lemma_lex_trans(name_key(out@[a]), name_key(x), name_key(inp@[b]));
                }
            }
            assert forall|i: int, j: int| 0 <= i < j < out@.len() implies #[trigger] lex_le(
                name_key(out@[i]),
                name_key(out@[j]),
            ) by {
                if j == out@.len() - 1 {
                    assert(lex_le(name_key(old_out[i]), name_key(x)));
                }
            }
        }
    }
    out
}

/// The position of a least name among the nodes of a non-empty vector.
fn index_of_min(v: &Vec<FileTree>) -> (m: usize)
    requires
        v@.len() > 0,
    ensures
        0 <= m < v@.len(),
        forall|k: int| 0 <= k < v@.len() ==> lex_le(name_key(v@[m as int]), name_key(#[trigger] v@[k])),
{
    let mut m: usize = 0;
    let mut j: usize = 1;
    proof {
        lemma_lex_refl(name_key(v@[0]));
    }
    while j < v.len()
        invariant
            0 <= m < v@.len(),
            1 <= j <= v@.len(),
            forall|k: int| 0 <= k < j ==> lex_le(name_key(v@[m as int]), name_key(#[trigger] v@[k])),
        decreases v@.len() - j,
    {
        if name_le(v[j].name.as_str(), v[m].name.as_str()) {
            proof {
                assert forall|k: int| 0 <= k < j + 1 implies lex_le(
                    name_key(v@[j as int]),
                    name_key(#[trigger] v@[k]),
                ) by {
                    if k < j {
                        lemma_lex_trans(name_key(v@[j as int]), name_key(v@[m as int]), name_key(v@[k]));
                    } else {
                        lemma_lex_refl(name_key(v@[j as int]));
                    }
                }
            }
            m = j;
        } else {
            proof {
                lemma_lex_total(name_key(v@[j as int]), name_key(v@[m as int]));
            }
        }
        j = j + 1;
    }
    m
}

} // verus!
