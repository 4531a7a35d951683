//! Ordering of references: plain lexicographic order by name, then by
//! commit id bytes.
//!
//! The comparison is deliberately isolated here behind one pair of
//! functions, so a different collation (say, natural sort of branch names)
//! could be swapped in later without touching the resolver or the callers.

use vstd::prelude::*;
use vstd::string::StrSliceExecFns;

use crate::commit::CommitId;
use crate::reference::ReferenceInfo;

verus! {

/// Strict lexicographic order on character sequences, by code point.
pub open spec fn chars_lt(a: Seq<char>, b: Seq<char>) -> bool
    decreases a.len(),
{
    if b.len() == 0 {
        false
    } else if a.len() == 0 {
        true
    } else if a[0] != b[0] {
        a[0] < b[0]
    } else {
        chars_lt(a.drop_first(), b.drop_first())
    }
}

/// Strict lexicographic order on byte sequences.
pub open spec fn bytes_lt(a: Seq<u8>, b: Seq<u8>) -> bool
    decreases a.len(),
{
    if b.len() == 0 {
        false
    } else if a.len() == 0 {
        true
    } else if a[0] != b[0] {
        a[0] < b[0]
    } else {
        bytes_lt(a.drop_first(), b.drop_first())
    }
}

/// References order by name first, then by commit id; this is the total
/// order behind deterministic output.
pub open spec fn ref_info_le(a: ReferenceInfo, b: ReferenceInfo) -> bool {
    ||| chars_lt(a.name@, b.name@)
    ||| (a.name@ == b.name@ && (bytes_lt(a.commit@, b.commit@) || a.commit@ == b.commit@))
}

/// The first differing position decides the character order.
proof fn lemma_chars_lt_at(a: Seq<char>, b: Seq<char>, i: int)
    requires
        0 <= i < a.len(),
        i < b.len(),
        forall|j: int| 0 <= j < i ==> a[j] == b[j],
        a[i] != b[i],
    ensures
        chars_lt(a, b) == (a[i] < b[i]),
    decreases i,
{
    if i > 0 {
        lemma_chars_lt_at(a.drop_first(), b.drop_first(), i - 1);
        assert(forall|j: int| 0 <= j < i - 1 ==> a.drop_first()[j] == a[j + 1]);
    }
}

/// When one sequence is a prefix of the other, the shorter is smaller.
proof fn lemma_chars_lt_prefix(a: Seq<char>, b: Seq<char>)
    requires
        forall|j: int| 0 <= j < a.len() && j < b.len() ==> a[j] == b[j],
    ensures
        chars_lt(a, b) == (a.len() < b.len()),
    decreases a.len(),
{
    if a.len() > 0 && b.len() > 0 {
        lemma_chars_lt_prefix(a.drop_first(), b.drop_first());
        assert(forall|j: int|
            0 <= j < a.drop_first().len() && j < b.drop_first().len() ==> a.drop_first()[j] == a[j
                + 1] && b.drop_first()[j] == b[j + 1]);
    }
}

/// Character order is total: two sequences compare one way, the other, or
/// are equal.
pub proof fn lemma_chars_lt_connex(a: Seq<char>, b: Seq<char>)
    ensures
        chars_lt(a, b) || chars_lt(b, a) || a == b,
    decreases a.len(),
{
    if a.len() == 0 && b.len() == 0 {
        assert(a =~= b);
    }
    if a.len() > 0 && b.len() > 0 && a[0] == b[0] {
        lemma_chars_lt_connex(a.drop_first(), b.drop_first());
        if !chars_lt(a, b) && !chars_lt(b, a) {
            assert(a.drop_first() == b.drop_first());
            assert(forall|i: int| 1 <= i < a.len() ==> a[i] == a.drop_first()[i - 1]);
            assert(forall|i: int| 1 <= i < b.len() ==> b[i] == b.drop_first()[i - 1]);
            assert(a =~= b);
        }
    }
}

/// Character order is transitive.
pub proof fn lemma_chars_lt_trans(a: Seq<char>, b: Seq<char>, c: Seq<char>)
    requires
        chars_lt(a, b),
        chars_lt(b, c),
    ensures
        chars_lt(a, c),
    decreases a.len(),
{
    if a.len() > 0 && b.len() > 0 && c.len() > 0 {
        if a[0] == b[0] && b[0] == c[0] {
            lemma_chars_lt_trans(a.drop_first(), b.drop_first(), c.drop_first());
        }
    }
}

/// The first differing position decides the byte order.
proof fn lemma_bytes_lt_at(a: Seq<u8>, b: Seq<u8>, i: int)
    requires
        0 <= i < a.len(),
        i < b.len(),
        forall|j: int| 0 <= j < i ==> a[j] == b[j],
        a[i] != b[i],
    ensures
        bytes_lt(a, b) == (a[i] < b[i]),
    decreases i,
{
    if i > 0 {
        lemma_bytes_lt_at(a.drop_first(), b.drop_first(), i - 1);
        assert(forall|j: int| 0 <= j < i - 1 ==> a.drop_first()[j] == a[j + 1]);
    }
}

/// When one byte sequence is a prefix of the other, the shorter is smaller.
proof fn lemma_bytes_lt_prefix(a: Seq<u8>, b: Seq<u8>)
    requires
        forall|j: int| 0 <= j < a.len() && j < b.len() ==> a[j] == b[j],
    ensures
        bytes_lt(a, b) == (a.len() < b.len()),
    decreases a.len(),
{
    if a.len() > 0 && b.len() > 0 {
        lemma_bytes_lt_prefix(a.drop_first(), b.drop_first());
        assert(forall|j: int|
            0 <= j < a.drop_first().len() && j < b.drop_first().len() ==> a.drop_first()[j] == a[j
                + 1] && b.drop_first()[j] == b[j + 1]);
    }
}

/// Byte order is total.
pub proof fn lemma_bytes_lt_connex(a: Seq<u8>, b: Seq<u8>)
    ensures
        bytes_lt(a, b) || bytes_lt(b, a) || a == b,
    decreases a.len(),
{
    if a.len() == 0 && b.len() == 0 {
        assert(a =~= b);
    }
    if a.len() > 0 && b.len() > 0 && a[0] == b[0] {
        lemma_bytes_lt_connex(a.drop_first(), b.drop_first());
        if !bytes_lt(a, b) && !bytes_lt(b, a) {
            assert(a.drop_first() == b.drop_first());
            assert(forall|i: int| 1 <= i < a.len() ==> a[i] == a.drop_first()[i - 1]);
            assert(forall|i: int| 1 <= i < b.len() ==> b[i] == b.drop_first()[i - 1]);
            assert(a =~= b);
        }
    }
}

/// Byte order is transitive.
pub proof fn lemma_bytes_lt_trans(a: Seq<u8>, b: Seq<u8>, c: Seq<u8>)
    requires
        bytes_lt(a, b),
        bytes_lt(b, c),
    ensures
        bytes_lt(a, c),
    decreases a.len(),
{
    if a.len() > 0 && b.len() > 0 && c.len() > 0 {
        if a[0] == b[0] && b[0] == c[0] {
            lemma_bytes_lt_trans(a.drop_first(), b.drop_first(), c.drop_first());
        }
    }
}

/// Reference order is total: of any two references, one comes no later
/// than the other.
pub proof fn lemma_ref_le_total(a: ReferenceInfo, b: ReferenceInfo)
    ensures
        ref_info_le(a, b) || ref_info_le(b, a),
{
    lemma_chars_lt_connex(a.name@, b.name@);
    lemma_bytes_lt_connex(a.commit@, b.commit@);
}

/// Reference order is transitive.
pub proof fn lemma_ref_le_trans(a: ReferenceInfo, b: ReferenceInfo, c: ReferenceInfo)
    requires
        ref_info_le(a, b),
        ref_info_le(b, c),
    ensures
        ref_info_le(a, c),
{
    if chars_lt(a.name@, b.name@) && chars_lt(b.name@, c.name@) {
        lemma_chars_lt_trans(a.name@, b.name@, c.name@);
    }
    if a.name@ == b.name@ && b.name@ == c.name@ && bytes_lt(a.commit@, b.commit@) && bytes_lt(
        b.commit@,
        c.commit@,
    ) {
        lemma_bytes_lt_trans(a.commit@, b.commit@, c.commit@);
    }
}

/// Compares two strings in plain lexicographic order by code point.
pub fn str_lt(a: &str, b: &str) -> (r: bool)
    ensures
        r == chars_lt(a@, b@),
{
    let na = a.unicode_len();
    let nb = b.unicode_len();
    let min = if na < nb {
        na
    } else {
        nb
    };
    let mut i: usize = 0;
    while i < min
        invariant
            na == a@.len(),
            nb == b@.len(),
            min == if na < nb {
                na
            } else {
                nb
            },
            i <= min,
            forall|j: int| 0 <= j < i ==> a@[j] == b@[j],
        decreases min - i,
    {
        let ca = a.get_char(i);
        let cb = b.get_char(i);
        if ca != cb {
            proof {
                lemma_chars_lt_at(a@, b@, i as int);
            }
            return (ca as u32) < (cb as u32);
        }
        i = i + 1;
    }
    proof {
        lemma_chars_lt_prefix(a@, b@);
    }
    na < nb
}

/// Compares two commit ids by their raw bytes, in lexicographic order.
pub fn commit_lt(a: &CommitId, b: &CommitId) -> (r: bool)
    ensures
        r == bytes_lt(a@, b@),
{
    let ab = a.bytes();
    let bb = b.bytes();
    let na = ab.len();
    let nb = bb.len();
    let min = if na < nb {
        na
    } else {
        nb
    };
    let mut i: usize = 0;
    while i < min
        invariant
            na == a@.len(),
            nb == b@.len(),
            ab@ == a@,
            bb@ == b@,
            min == if na < nb {
                na
            } else {
                nb
            },
            i <= min,
            forall|j: int| 0 <= j < i ==> a@[j] == b@[j],
        decreases min - i,
    {
        let ca = ab[i];
        let cb = bb[i];
        if ca != cb {
            proof {
                lemma_bytes_lt_at(a@, b@, i as int);
            }
            return ca < cb;
        }
        i = i + 1;
    }
    proof {
        lemma_bytes_lt_prefix(a@, b@);
    }
    na < nb
}

/// Compares two references: by name, then by commit id.
pub fn ref_le(a: &ReferenceInfo, b: &ReferenceInfo) -> (r: bool)
    ensures
        r == ref_info_le(*a, *b),
{
    if str_lt(a.name.as_str(), b.name.as_str()) {
        true
    } else if a.name == b.name {
        if commit_lt(&a.commit, &b.commit) {
            true
        } else {
            a.commit.eq(&b.commit)
        }
    } else {
        false
    }
}

/// A run of references in order: each one no later than all that follow.
pub open spec fn sorted_references(s: Seq<ReferenceInfo>) -> bool {
    forall|i: int, j: int| 0 <= i < j < s.len() ==> ref_info_le(#[trigger] s[i], #[trigger] s[j])
}

/// Sorts references by name, then commit id: afterwards they stand in
/// order and are the same references, multiplicity included.
#[verifier::loop_isolation(false)]
pub fn sort_references(v: &mut Vec<ReferenceInfo>)
    ensures
        sorted_references(final(v)@),
        final(v)@.to_multiset() == old(v)@.to_multiset(),
{
    broadcast use vstd::seq_lib::group_to_multiset_ensures;
    broadcast use vstd::seq_lib::to_multiset_insert;

    if v.len() <= 1 {
        return ;
    }
    let mut i: usize = 1;
    while i < v.len()
        invariant
            1 <= i <= v@.len(),
            v@.len() == old(v)@.len(),
            v@.to_multiset() == old(v)@.to_multiset(),
            sorted_references(v@.take(i as int)),
        decreases v@.len() - i,
    {
        let ghost s0 = v@;
        let x = v.remove(i);
        let ghost s1 = v@;
        proof {
            assert(s1.take(i as int) =~= s0.take(i as int));
        }
        let mut p: usize = 0;
        while p < i && ref_le(&v[p], &x)
            invariant
                p <= i,
                i < s0.len(),
                v@ == s1,
                forall|q: int| 0 <= q < p ==> ref_info_le(#[trigger] s1[q], x),
            decreases i - p,
        {
            p = p + 1;
        }
        v.insert(p, x);
        proof {
            let s2 = v@;
            let pre = s1.take(i as int);
            assert(s2.take(i + 1) =~= pre.insert(p as int, x));
            assert forall|q1: int, q2: int| 0 <= q1 < q2 < i + 1 implies ref_info_le(
                #[trigger] s2.take(i + 1)[q1],
                #[trigger] s2.take(i + 1)[q2],
            ) by {
                let t = pre.insert(p as int, x);
                if q1 < p && q2 < p {
                    assert(t[q1] == pre[q1] && t[q2] == pre[q2]);
                } else if q1 < p && q2 == p {
                    assert(t[q1] == pre[q1] && t[q2] == x);
                } else if q1 < p && q2 > p {
                    assert(t[q1] == pre[q1] && t[q2] == pre[q2 - 1]);
                } else if q1 == p && q2 > p {
                    assert(t[q1] == x && t[q2] == pre[q2 - 1]);
                    lemma_ref_le_total(pre[p as int], x);
                    if q2 - 1 > p {
                        lemma_ref_le_trans(x, pre[p as int], pre[q2 - 1]);
                    }
                } else {
                    assert(q1 > p && q2 > p);
                    assert(t[q1] == pre[q1 - 1] && t[q2] == pre[q2 - 1]);
                }
            }
            assert(s2.to_multiset() =~= s0.to_multiset()) by {
                assert(s1.to_multiset() == s0.to_multiset().remove(s0[i as int]));
                assert(s2.to_multiset() == s1.to_multiset().insert(x));
                assert(s0.to_multiset().contains(s0[i as int]));
            }
        }
        i = i + 1;
    }
    proof {
        assert(v@.take(v@.len() as int) =~= v@);
    }
}

} // verus!
