//! The default-branch commit index: every commit reachable from the default
//! branch tip, each with its position in traversal order.
//!
//! Position 0 is the tip's first ancestor; the tip itself is carried
//! separately, and counts as reachable, so that a branch meeting the tip is
//! recognised as meeting the default branch.

use vstd::prelude::*;

use crate::commit::CommitId;

verus! {

/// The views of a run of commit ids.
pub open spec fn id_views(s: Seq<CommitId>) -> Seq<Seq<u8>> {
    s.map_values(|c: CommitId| c@)
}

/// The first position at which a commit id occurs in a run, if any.
pub open spec fn first_id_index(s: Seq<Seq<u8>>, c: Seq<u8>) -> Option<int>
    decreases s.len(),
{
    if s.len() == 0 {
        None
    } else if s[0] == c {
        Some(0int)
    } else {
        match first_id_index(s.drop_first(), c) {
            Some(i) => Some(i + 1),
            None => None,
        }
    }
}

/// What `first_id_index` finds: an occurrence with none before it, or
/// nothing, in which case the id does not occur at all.
pub proof fn lemma_first_id_index(s: Seq<Seq<u8>>, c: Seq<u8>)
    ensures
        match first_id_index(s, c) {
            Some(i) => 0 <= i < s.len() && s[i] == c && forall|j: int| 0 <= j < i ==> s[j] != c,
            None => forall|j: int| 0 <= j < s.len() ==> s[j] != c,
        },
    decreases s.len(),
{
    if s.len() > 0 && s[0] != c {
        lemma_first_id_index(s.drop_first(), c);
        assert(forall|j: int| 1 <= j < s.len() ==> s.drop_first()[j - 1] == s[j]);
    }
}

/// Maps each commit reachable from the default branch tip to its traversal
/// position; tests membership for the ancestry resolver.
pub struct DefaultBranchIndex {
    tip: CommitId,
    commits: Vec<CommitId>,
}

impl DefaultBranchIndex {
    /// The tip commit the index was built against.
    pub closed spec fn tip_spec(&self) -> Seq<u8> {
        self.tip@
    }

    /// The indexed ancestors of the tip, in traversal order, tip excluded.
    pub closed spec fn commits_spec(&self) -> Seq<Seq<u8>> {
        id_views(self.commits@)
    }

    /// The position assigned to a commit: where it first occurs in the
    /// traversal, 0 being the tip's first ancestor.
    pub open spec fn position_spec(&self, c: Seq<u8>) -> Option<int> {
        first_id_index(self.commits_spec(), c)
    }

    /// Whether the commit is reachable from the default branch tip; the tip
    /// itself counts.
    pub open spec fn contains_spec(&self, c: Seq<u8>) -> bool {
        c == self.tip_spec() || self.commits_spec().contains(c)
    }

    /// The set of commits reachable from the default branch tip.
    pub open spec fn as_set(&self) -> Set<Seq<u8>> {
        Set::new(|c: Seq<u8>| self.contains_spec(c))
    }

    /// Builds the index over the tip's ancestors in traversal order, the
    /// tip itself excluded from the walk.
    pub fn build(tip: CommitId, commits: Vec<CommitId>) -> (r: DefaultBranchIndex)
        ensures
            r.tip_spec() == tip@,
            r.commits_spec() == id_views(commits@),
    {
        let r = DefaultBranchIndex { tip, commits };
        proof {
            assert(r.commits_spec() =~= id_views(r.commits@));
        }
        r
    }

    /// The tip commit.
    pub fn tip(&self) -> (r: &CommitId)
        ensures
            r@ == self.tip_spec(),
    {
        &self.tip
    }

    /// The traversal position of the commit, if it is an indexed ancestor
    /// of the tip.
    pub fn position(&self, c: &CommitId) -> (r: Option<usize>)
        ensures
            match r {
                Some(p) => self.position_spec(c@) == Some(p as int),
                None => self.position_spec(c@) is None,
            },
    {
        let n = self.commits.len();
        let mut j: usize = 0;
        while j < n
            invariant
                n == self.commits@.len(),
                j <= n,
                forall|p: int| 0 <= p < j ==> id_views(self.commits@)[p] != c@,
            decreases n - j,
        {
            if self.commits[j].eq(c) {
                proof {
                    assert(id_views(self.commits@)[j as int] == c@);
                    lemma_first_id_index(self.commits_spec(), c@);
                    match first_id_index(self.commits_spec(), c@) {
                        Some(i) => {
                            if i < j {
                                assert(id_views(self.commits@)[i] != c@);
                            }
                            if i > j {
                                assert(self.commits_spec()[j as int] != c@);
                            }
                        },
                        None => {
                            assert(self.commits_spec()[j as int] != c@);
                        },
                    }
                }
                return Some(j);
            }
            proof {
                assert(id_views(self.commits@)[j as int] != c@);
            }
            j = j + 1;
        }
        proof {
            lemma_first_id_index(self.commits_spec(), c@);
        }
        None
    }

    /// Whether the commit is reachable from the default branch tip, the tip
    /// itself included.
    pub fn contains(&self, c: &CommitId) -> (r: bool)
        ensures
            r == self.contains_spec(c@),
    {
        if self.tip.eq(c) {
            return true;
        }
        let r = self.position(c).is_some();
        proof {
            lemma_first_id_index(self.commits_spec(), c@);
            if r {
                match first_id_index(self.commits_spec(), c@) {
                    Some(i) => {
                        assert(self.commits_spec().contains(c@));
                    },
                    None => {},
                }
            } else {
                if self.commits_spec().contains(c@) {
                    let w = choose|w: int|
                        0 <= w < self.commits_spec().len() && self.commits_spec()[w] == c@;
                    assert(self.commits_spec()[w] == c@);
                    assert(false);
                }
            }
        }
        r
    }
}

} // verus!
