//! The reference index: an inversion of the catalog, from commit id to the
//! owning reference.
//!
//! On a collision the earlier-inserted reference wins, and branches are
//! inserted before tags, so a commit referenced by both a branch and a tag
//! resolves to the branch whatever order the catalog was built in. A
//! synthetic marker for the default branch never overwrites a concrete
//! branch or tag name.

use vstd::prelude::*;

use crate::commit::CommitId;
use crate::reference::{Reference, ReferenceInfo, ReferenceView};

verus! {

/// Maps each referenced commit id to the owning reference, for the
/// "is this ancestor commit the tip of some other reference" test.
pub struct ReferenceIndex {
    entries: Vec<(CommitId, Reference)>,
}

/// The mapping described by a run of entries, later entries winning; the
/// index keeps its keys distinct, so order never actually matters.
pub open spec fn entries_map(s: Seq<(CommitId, Reference)>) -> Map<Seq<u8>, ReferenceView>
    decreases s.len(),
{
    if s.len() == 0 {
        Map::empty()
    } else {
        entries_map(s.drop_last()).insert(s.last().0@, s.last().1@)
    }
}

/// A key is in the mapping of a run of entries exactly when some entry
/// carries it.
proof fn lemma_entries_map_contains(s: Seq<(CommitId, Reference)>, k: Seq<u8>)
    ensures
        entries_map(s).contains_key(k) <==> exists|i: int| 0 <= i < s.len() && (#[trigger] s[i]).0@
            == k,
    decreases s.len(),
{
    if s.len() > 0 {
        lemma_entries_map_contains(s.drop_last(), k);
        if entries_map(s).contains_key(k) {
            if s.last().0@ == k {
                assert(s[s.len() - 1].0@ == k);
            }
        }
        if exists|i: int| 0 <= i < s.len() && (#[trigger] s[i]).0@ == k {
            let i = choose|i: int| 0 <= i < s.len() && (#[trigger] s[i]).0@ == k;
            if i < s.len() - 1 {
                assert(s.drop_last()[i].0@ == k);
            }
        }
    }
}

/// With distinct keys, the mapping sends an entry's key to that entry's
/// reference.
proof fn lemma_entries_map_value(s: Seq<(CommitId, Reference)>, i: int)
    requires
        forall|p: int, q: int| 0 <= p < q < s.len() ==> (#[trigger] s[p]).0@ != (#[trigger] s[q]).0@,
        0 <= i < s.len(),
    ensures
        entries_map(s).contains_key(s[i].0@),
        entries_map(s)[s[i].0@] == s[i].1@,
    decreases s.len(),
{
    lemma_entries_map_contains(s, s[i].0@);
    if i < s.len() - 1 {
        assert(s.drop_last()[i] == s[i]);
        lemma_entries_map_value(s.drop_last(), i);
        assert(s.last().0@ != s[i].0@);
    }
}

/// Inserts a run of references, keeping whatever an earlier insertion
/// already claimed; `branch` says which kind the run holds.
pub open spec fn insert_references(
    m: Map<Seq<u8>, ReferenceView>,
    refs: Seq<ReferenceInfo>,
    branch: bool,
) -> Map<Seq<u8>, ReferenceView>
    decreases refs.len(),
{
    if refs.len() == 0 {
        m
    } else {
        let r0 = refs[0];
        let m1 = if m.contains_key(r0.commit@) {
            m
        } else {
            m.insert(
                r0.commit@,
                if branch {
                    ReferenceView::Branch(r0.name@)
                } else {
                    ReferenceView::Tag(r0.name@)
                },
            )
        };
        insert_references(m1, refs.drop_first(), branch)
    }
}

/// The mapping built from a catalog: all branches, earliest first, then all
/// tags, none overwriting what is already claimed.
pub open spec fn index_spec(branches: Seq<ReferenceInfo>, tags: Seq<ReferenceInfo>) -> Map<
    Seq<u8>,
    ReferenceView,
> {
    insert_references(insert_references(Map::empty(), branches, true), tags, false)
}

/// Later insertions never change what an earlier insertion claimed.
proof fn lemma_insert_references_preserves(
    m: Map<Seq<u8>, ReferenceView>,
    refs: Seq<ReferenceInfo>,
    branch: bool,
    c: Seq<u8>,
)
    requires
        m.contains_key(c),
    ensures
        insert_references(m, refs, branch).contains_key(c),
        insert_references(m, refs, branch)[c] == m[c],
    decreases refs.len(),
{
    if refs.len() > 0 {
        let r0 = refs[0];
        let m1 = if m.contains_key(r0.commit@) {
            m
        } else {
            m.insert(
                r0.commit@,
                if branch {
                    ReferenceView::Branch(r0.name@)
                } else {
                    ReferenceView::Tag(r0.name@)
                },
            )
        };
        lemma_insert_references_preserves(m1, refs.drop_first(), branch, c);
    }
}

/// Every commit the run references ends up in the mapping, and one not
/// already claimed gets the run's kind.
proof fn lemma_insert_references_covers(
    m: Map<Seq<u8>, ReferenceView>,
    refs: Seq<ReferenceInfo>,
    branch: bool,
    i: int,
)
    requires
        0 <= i < refs.len(),
    ensures
        insert_references(m, refs, branch).contains_key(refs[i].commit@),
        !m.contains_key(refs[i].commit@) && branch ==> insert_references(m, refs, branch)[refs[i].commit@]
            is Branch,
    decreases refs.len(),
{
    let c = refs[i].commit@;
    let r0 = refs[0];
    let m1 = if m.contains_key(r0.commit@) {
        m
    } else {
        m.insert(
            r0.commit@,
            if branch {
                ReferenceView::Branch(r0.name@)
            } else {
                ReferenceView::Tag(r0.name@)
            },
        )
    };
    if i == 0 {
        lemma_insert_references_preserves(m1, refs.drop_first(), branch, c);
    } else {
        assert(refs.drop_first()[i - 1] == refs[i]);
        if r0.commit@ == c && !m.contains_key(c) {
            lemma_insert_references_preserves(m1, refs.drop_first(), branch, c);
        } else {
            lemma_insert_references_covers(m1, refs.drop_first(), branch, i - 1);
        }
    }
}

/// The collision rule: a commit referenced by both a branch and a tag
/// resolves to the branch, whatever order the catalog was read in.
pub proof fn lemma_branch_wins_collision(
    branches: Seq<ReferenceInfo>,
    tags: Seq<ReferenceInfo>,
    i: int,
    j: int,
)
    requires
        0 <= i < branches.len(),
        0 <= j < tags.len(),
        tags[j].commit@ == branches[i].commit@,
    ensures
        index_spec(branches, tags).contains_key(branches[i].commit@),
        index_spec(branches, tags)[branches[i].commit@] is Branch,
{
    let c = branches[i].commit@;
    lemma_insert_references_covers(Map::empty(), branches, true, i);
    lemma_insert_references_preserves(
        insert_references(Map::empty(), branches, true),
        tags,
        false,
        c,
    );
}

impl View for ReferenceIndex {
    type V = Map<Seq<u8>, ReferenceView>;

    closed spec fn view(&self) -> Map<Seq<u8>, ReferenceView> {
        entries_map(self.entries@)
    }
}

impl ReferenceIndex {
    /// The index never holds two entries for one commit.
    pub closed spec fn wf(&self) -> bool {
        forall|p: int, q: int| 0 <= p < q < self.entries@.len() ==> (#[trigger] self.entries@[p]).0@
            != (#[trigger] self.entries@[q]).0@
    }

    /// An empty index.
    pub fn new() -> (r: ReferenceIndex)
        ensures
            r.wf(),
            r@ == Map::<Seq<u8>, ReferenceView>::empty(),
    {
        ReferenceIndex { entries: Vec::new() }
    }

    /// Whether some reference claims this commit.
    pub fn contains(&self, c: &CommitId) -> (r: bool)
        requires
            self.wf(),
        ensures
            r == self@.contains_key(c@),
    {
        self.get(c).is_some()
    }

    /// The reference claiming this commit, if any.
    pub fn get<'a>(&'a self, c: &CommitId) -> (r: Option<&'a Reference>)
        requires
            self.wf(),
        ensures
            match r {
                Some(rf) => self@.contains_key(c@) && rf@ == self@[c@],
                None => !self@.contains_key(c@),
            },
    {
        let n = self.entries.len();
        let mut j: usize = 0;
        while j < n
            invariant
                self.wf(),
                n == self.entries@.len(),
                j <= n,
                forall|p: int| 0 <= p < j ==> (#[trigger] self.entries@[p]).0@ != c@,
            decreases n - j,
        {
            let e = &self.entries[j];
            if e.0.eq(c) {
                proof {
                    lemma_entries_map_value(self.entries@, j as int);
                }
                return Some(&e.1);
            }
            j = j + 1;
        }
        proof {
            lemma_entries_map_contains(self.entries@, c@);
        }
        None
    }

    /// Claims the commit for the reference unless an earlier insertion
    /// already claimed it.
    fn insert_if_absent(&mut self, c: &CommitId, rf: Reference)
        requires
            old(self).wf(),
        ensures
            final(self).wf(),
            final(self)@ == if old(self)@.contains_key(c@) {
                old(self)@
            } else {
                old(self)@.insert(c@, rf@)
            },
    {
        if !self.contains(c) {
            let ghost s0 = self.entries@;
            self.entries.push((c.clone(), rf));
            proof {
                assert(self.entries@.drop_last() =~= s0);
                lemma_entries_map_contains(s0, c@);
                assert forall|p: int, q: int| 0 <= p < q < self.entries@.len() implies (
                #[trigger] self.entries@[p]).0@ != (#[trigger] self.entries@[q]).0@ by {
                    if q == self.entries@.len() - 1 {
                        assert(s0[p].0@ != c@);
                    }
                }
            }
        }
    }

    /// Builds the index from the catalog: branches first, then tags, the
    /// earlier insertion winning every collision.
    pub fn build(branches: &Vec<ReferenceInfo>, tags: &Vec<ReferenceInfo>) -> (r: ReferenceIndex)
        ensures
            r.wf(),
            r@ == index_spec(branches@, tags@),
    {
        let mut idx = ReferenceIndex::new();
        proof {
            assert(branches@.skip(0) =~= branches@);
        }
        let nb = branches.len();
        let mut i: usize = 0;
        while i < nb
            invariant
                idx.wf(),
                nb == branches@.len(),
                i <= nb,
                insert_references(
                    insert_references(idx@, branches@.skip(i as int), true),
                    tags@,
                    false,
                ) == index_spec(branches@, tags@),
            decreases nb - i,
        {
            let ghost pre = idx@;
            let b = &branches[i];
            idx.insert_if_absent(&b.commit, Reference::Branch(b.name.clone()));
            proof {
                assert(branches@.skip(i as int).drop_first() =~= branches@.skip(i + 1));
                assert(branches@.skip(i as int)[0] == branches@[i as int]);
            }
            i = i + 1;
        }
        proof {
            assert(branches@.skip(nb as int) =~= Seq::<ReferenceInfo>::empty());
            assert(tags@.skip(0) =~= tags@);
        }
        let nt = tags.len();
        let mut j: usize = 0;
        while j < nt
            invariant
                idx.wf(),
                nt == tags@.len(),
                j <= nt,
                insert_references(idx@, tags@.skip(j as int), false) == index_spec(
                    branches@,
                    tags@,
                ),
            decreases nt - j,
        {
            let t = &tags[j];
            idx.insert_if_absent(&t.commit, Reference::Tag(t.name.clone()));
            proof {
                assert(tags@.skip(j as int).drop_first() =~= tags@.skip(j + 1));
                assert(tags@.skip(j as int)[0] == tags@[j as int]);
            }
            j = j + 1;
        }
        proof {
            assert(tags@.skip(nt as int) =~= Seq::<ReferenceInfo>::empty());
        }
        idx
    }

    /// Records the default branch's tip under the synthetic default marker,
    /// unless a concrete branch or tag already claims that commit.
    pub fn insert_default(&mut self, tip: &CommitId)
        requires
            old(self).wf(),
        ensures
            final(self).wf(),
            final(self)@ == if old(self)@.contains_key(tip@) {
                old(self)@
            } else {
                old(self)@.insert(tip@, ReferenceView::Default)
            },
    {
        self.insert_if_absent(tip, Reference::Default);
    }
}

} // verus!
