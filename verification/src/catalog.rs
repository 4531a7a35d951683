//! The reference catalog: every local branch and tag, with raw reference
//! names decoded to text.
//!
//! Decoding failures are hard failures: a silently dropped reference could
//! make another branch's parent come out wrong, so the build short-circuits
//! on the first undecodable name and reports the byte offset at which its
//! text ends.

use vstd::prelude::*;
use vstd::utf8::{decode_utf8, valid_utf8};

use crate::commit::CommitId;
use crate::error::Error;
use crate::reference::{RawReference, ReferenceInfo};

verus! {

/// The full set of local branches and the full set of tags, as decoded
/// name/commit snapshots. Built once per invocation; read-only afterwards.
pub struct ReferenceCatalog {
    pub branches: Vec<ReferenceInfo>,
    pub tags: Vec<ReferenceInfo>,
}

/// The index of the first reference whose raw name is not valid text, if any.
pub open spec fn first_undecodable(refs: Seq<RawReference>) -> Option<int>
    decreases refs.len(),
{
    if refs.len() == 0 {
        None
    } else if !valid_utf8(refs[0].name@) {
        Some(0int)
    } else {
        match first_undecodable(refs.drop_first()) {
            Some(i) => Some(i + 1),
            None => None,
        }
    }
}

/// What `first_undecodable` finds: the first invalid name, with every name
/// before it valid; or nothing, in which case every name is valid.
pub proof fn lemma_first_undecodable(refs: Seq<RawReference>)
    ensures
        match first_undecodable(refs) {
            Some(i) => 0 <= i < refs.len() && !valid_utf8(refs[i].name@) && forall|j: int|
                0 <= j < i ==> valid_utf8(#[trigger] refs[j].name@),
            None => forall|j: int| 0 <= j < refs.len() ==> valid_utf8(#[trigger] refs[j].name@),
        },
    decreases refs.len(),
{
    if refs.len() > 0 && valid_utf8(refs[0].name@) {
        lemma_first_undecodable(refs.drop_first());
        assert(forall|j: int| 1 <= j < refs.len() ==> refs.drop_first()[j - 1] == #[trigger] refs[j]);
    }
}

/// The offset reported for an undecodable name: the end of its longest
/// prefix that is valid text.
pub open spec fn is_decode_offset(name: Seq<u8>, off: int) -> bool {
    &&& 0 <= off <= name.len()
    &&& valid_utf8(name.take(off))
    &&& forall|j: int| off < j <= name.len() ==> !valid_utf8(#[trigger] name.take(j))
}

/// Relies on `core::str::from_utf8`: it succeeds exactly on valid UTF-8,
/// decoding the bytes to their characters, and on failure
/// `Utf8Error::valid_up_to` is the maximal index up to which the input is
/// valid UTF-8.
#[verifier::external_body]
fn decode_name(bytes: &Vec<u8>) -> (r: Result<String, usize>)
    ensures
        match r {
            Ok(s) => valid_utf8(bytes@) && s@ == decode_utf8(bytes@),
            Err(off) => !valid_utf8(bytes@) && is_decode_offset(bytes@, off as int),
        },
{
    match core::str::from_utf8(bytes.as_slice()) {
        Ok(s) => Ok(s.to_owned()),
        Err(e) => Err(e.valid_up_to()),
    }
}

/// Decodes a run of raw references in order, short-circuiting on the first
/// name that is not valid text.
pub fn decode_references(raw: &Vec<RawReference>) -> (r: Result<Vec<ReferenceInfo>, Error>)
    ensures
        match r {
            Ok(infos) => {
                &&& first_undecodable(raw@) is None
                &&& infos@.len() == raw@.len()
                &&& forall|i: int| 0 <= i < raw@.len() ==> (#[trigger] infos@[i]).name@
                    == decode_utf8(raw@[i].name@) && infos@[i].commit@ == raw@[i].commit@
            },
            Err(e) => {
                &&& first_undecodable(raw@) matches Some(i) && e matches Error::DecodeError(off)
                    && is_decode_offset(raw@[i].name@, off as int)
            },
        },
{
    let mut infos: Vec<ReferenceInfo> = Vec::new();
    let n = raw.len();
    let mut i: usize = 0;
    while i < n
        invariant
            n == raw@.len(),
            i <= n,
            infos@.len() == i,
            forall|j: int| 0 <= j < i ==> valid_utf8(#[trigger] raw@[j].name@),
            forall|j: int| 0 <= j < i ==> (#[trigger] infos@[j]).name@ == decode_utf8(raw@[j].name@)
                && infos@[j].commit@ == raw@[j].commit@,
        decreases n - i,
    {
        match decode_name(&raw[i].name) {
            Ok(name) => {
                infos.push(ReferenceInfo { name, commit: raw[i].commit.clone() });
            },
            Err(off) => {
                proof {
                    lemma_first_undecodable(raw@);
                    match first_undecodable(raw@) {
                        Some(k) => {
                            if k < i {
                                assert(valid_utf8(raw@[k].name@));
                            }
                            if k > i {
                                assert(valid_utf8(raw@[i as int].name@));
                            }
                            assert(k == i);
                        },
                        None => {
                            assert(valid_utf8(raw@[i as int].name@));
                        },
                    }
                }
                return Err(Error::DecodeError(off));
            },
        }
        i = i + 1;
    }
    proof {
        lemma_first_undecodable(raw@);
        match first_undecodable(raw@) {
            Some(k) => {
                assert(valid_utf8(raw@[k].name@));
            },
            None => {},
        }
    }
    Ok(infos)
}

impl ReferenceCatalog {
    /// Builds the catalog from raw branch and tag snapshots, decoding every
    /// name; fails on the first undecodable name, branches before tags.
    pub fn build(raw_branches: &Vec<RawReference>, raw_tags: &Vec<RawReference>) -> (r: Result<
        ReferenceCatalog,
        Error,
    >)
        ensures
            match r {
                Ok(cat) => {
                    &&& first_undecodable(raw_branches@) is None
                    &&& first_undecodable(raw_tags@) is None
                    &&& cat.branches@.len() == raw_branches@.len()
                    &&& cat.tags@.len() == raw_tags@.len()
                    &&& forall|i: int| 0 <= i < raw_branches@.len() ==> (
                    #[trigger] cat.branches@[i]).name@ == decode_utf8(raw_branches@[i].name@)
                        && cat.branches@[i].commit@ == raw_branches@[i].commit@
                    &&& forall|i: int| 0 <= i < raw_tags@.len() ==> (#[trigger] cat.tags@[i]).name@
                        == decode_utf8(raw_tags@[i].name@) && cat.tags@[i].commit@
                        == raw_tags@[i].commit@
                },
                Err(e) => {
                    ||| (first_undecodable(raw_branches@) matches Some(i) && e matches
                        Error::DecodeError(off) && is_decode_offset(raw_branches@[i].name@,
                    off as int))
                    ||| (first_undecodable(raw_branches@) is None && (first_undecodable(raw_tags@)
                        matches Some(i) && e matches Error::DecodeError(off) && is_decode_offset(
                        raw_tags@[i].name@,
                        off as int,
                    )))
                },
            },
    {
        let branches = match decode_references(raw_branches) {
            Ok(infos) => infos,
            Err(e) => {
                return Err(e);
            },
        };
        let tags = match decode_references(raw_tags) {
            Ok(infos) => infos,
            Err(e) => {
                return Err(e);
            },
        };
        Ok(ReferenceCatalog { branches, tags })
    }
}

} // verus!
