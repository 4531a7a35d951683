//! The ancestry resolver: for each non-default branch, the nearest reference
//! it descends from, with the detached case for ancestors absorbed into the
//! default branch's history.

use vstd::prelude::*;

use crate::commit::CommitId;
use crate::default_branch::{id_views, DefaultBranchIndex};
use crate::index::ReferenceIndex;
use crate::reference::{Reference, ReferenceInfo, ReferenceView};

verus! {

/// The outcome of resolving one branch.
pub enum ParentResolution {
    /// The walk exhausted the branch's history without meeting a referenced
    /// commit; the branch is a root, or all matches were itself.
    NoParent,
    /// The nearest referenced ancestor is absorbed into the default branch;
    /// the carried commit is the best on-default-branch divergence point.
    DetachedOnDefault(CommitId),
    /// The nearest referenced ancestor, with the reference that claims it.
    NamedParent(Reference, CommitId),
}

/// The mathematical shape of a [`ParentResolution`].
pub enum ResolutionView {
    NoParent,
    DetachedOnDefault(Seq<u8>),
    NamedParent(ReferenceView, Seq<u8>),
}

impl View for ParentResolution {
    type V = ResolutionView;

    open spec fn view(&self) -> ResolutionView {
        match self {
            ParentResolution::NoParent => ResolutionView::NoParent,
            ParentResolution::DetachedOnDefault(c) => ResolutionView::DetachedOnDefault(c@),
            ParentResolution::NamedParent(r, c) => ResolutionView::NamedParent(r@, c@),
        }
    }
}

/// The position of the nearest walked ancestor that some reference claims.
pub open spec fn first_referenced(anc: Seq<Seq<u8>>, idx: Map<Seq<u8>, ReferenceView>) -> Option<
    int,
>
    decreases anc.len(),
{
    if anc.len() == 0 {
        None
    } else if idx.contains_key(anc[0]) {
        Some(0int)
    } else {
        match first_referenced(anc.drop_first(), idx) {
            Some(i) => Some(i + 1),
            None => None,
        }
    }
}

/// What `first_referenced` finds: a referenced ancestor with none nearer,
/// or nothing, in which case no walked ancestor is referenced.
pub proof fn lemma_first_referenced(anc: Seq<Seq<u8>>, idx: Map<Seq<u8>, ReferenceView>)
    ensures
        match first_referenced(anc, idx) {
            Some(i) => 0 <= i < anc.len() && idx.contains_key(anc[i]) && forall|j: int|
                0 <= j < i ==> !idx.contains_key(anc[j]),
            None => forall|j: int| 0 <= j < anc.len() ==> !idx.contains_key(anc[j]),
        },
    decreases anc.len(),
{
    if anc.len() > 0 && !idx.contains_key(anc[0]) {
        lemma_first_referenced(anc.drop_first(), idx);
        assert(forall|j: int| 1 <= j < anc.len() ==> anc.drop_first()[j - 1] == anc[j]);
    }
}

/// The position of the nearest walked ancestor reachable from the default
/// branch tip.
pub open spec fn first_on_default(anc: Seq<Seq<u8>>, on_default: Set<Seq<u8>>) -> Option<int>
    decreases anc.len(),
{
    if anc.len() == 0 {
        None
    } else if on_default.contains(anc[0]) {
        Some(0int)
    } else {
        match first_on_default(anc.drop_first(), on_default) {
            Some(i) => Some(i + 1),
            None => None,
        }
    }
}

/// What `first_on_default` finds: an on-default ancestor with none nearer,
/// or nothing, in which case no walked ancestor is on the default branch.
pub proof fn lemma_first_on_default(anc: Seq<Seq<u8>>, on_default: Set<Seq<u8>>)
    ensures
        match first_on_default(anc, on_default) {
            Some(i) => 0 <= i < anc.len() && on_default.contains(anc[i]) && forall|j: int|
                0 <= j < i ==> !on_default.contains(anc[j]),
            None => forall|j: int| 0 <= j < anc.len() ==> !on_default.contains(anc[j]),
        },
    decreases anc.len(),
{
    if anc.len() > 0 && !on_default.contains(anc[0]) {
        lemma_first_on_default(anc.drop_first(), on_default);
        assert(forall|j: int| 1 <= j < anc.len() ==> anc.drop_first()[j - 1] == anc[j]);
    }
}

/// What resolving one branch yields. `tip` is the branch's own tip, `anc`
/// its walked ancestors nearest-first (the tip itself skipped by the walk),
/// `idx` the reference index and `on_default` the commits reachable from
/// the default branch tip.
///
/// The nearest referenced ancestor decides: none at all is `NoParent`; one
/// off the default branch is a `NamedParent`; one on the default branch is
/// reported `DetachedOnDefault`, carrying the earliest walked ancestor that
/// is itself on the default branch — the point where the branch's history
/// reconnects — or the matched ancestor when no earlier one is.
pub open spec fn resolve_spec(
    tip: Seq<u8>,
    anc: Seq<Seq<u8>>,
    idx: Map<Seq<u8>, ReferenceView>,
    on_default: Set<Seq<u8>>,
) -> ResolutionView {
    match first_referenced(anc, idx) {
        None => ResolutionView::NoParent,
        Some(k) => {
            let c = anc[k];
            if on_default.contains(c) {
                if c == tip {
                    ResolutionView::DetachedOnDefault(c)
                } else {
                    match first_on_default(anc.take(k), on_default) {
                        Some(j) => ResolutionView::DetachedOnDefault(anc[j]),
                        None => ResolutionView::DetachedOnDefault(c),
                    }
                }
            } else {
                ResolutionView::NamedParent(idx[c], c)
            }
        },
    }
}

/// Scans the walked ancestors for the nearest one that some reference
/// claims.
fn find_first_referenced(ancestors: &Vec<CommitId>, index: &ReferenceIndex) -> (r: Option<usize>)
    requires
        index.wf(),
    ensures
        match r {
            Some(k) => first_referenced(id_views(ancestors@), index@) == Some(k as int),
            None => first_referenced(id_views(ancestors@), index@) is None,
        },
{
    let n = ancestors.len();
    let mut j: usize = 0;
    while j < n
        invariant
            index.wf(),
            n == ancestors@.len(),
            j <= n,
            forall|p: int| 0 <= p < j ==> !index@.contains_key(id_views(ancestors@)[p]),
        decreases n - j,
    {
        if index.contains(&ancestors[j]) {
            proof {
                assert(id_views(ancestors@)[j as int] == ancestors@[j as int]@);
                lemma_first_referenced(id_views(ancestors@), index@);
                match first_referenced(id_views(ancestors@), index@) {
                    Some(i) => {
                        if i < j {
                            assert(!index@.contains_key(id_views(ancestors@)[i]));
                        }
                        if i > j {
                            assert(!index@.contains_key(id_views(ancestors@)[j as int]));
                        }
                    },
                    None => {
                        assert(!index@.contains_key(id_views(ancestors@)[j as int]));
                    },
                }
            }
            return Some(j);
        }
        proof {
            assert(id_views(ancestors@)[j as int] == ancestors@[j as int]@);
        }
        j = j + 1;
    }
    proof {
        lemma_first_referenced(id_views(ancestors@), index@);
    }
    None
}

impl ReferenceInfo {
    /// The nearest walked ancestor of this branch that some reference
    /// claims: the candidate parent commit. `ancestors` is the branch's
    /// history nearest-first, the branch tip itself skipped, so a
    /// self-match is never reported.
    pub fn parent(&self, ancestors: &Vec<CommitId>, index: &ReferenceIndex) -> (r: Option<
        CommitId,
    >)
        requires
            index.wf(),
        ensures
            match r {
                Some(c) => first_referenced(id_views(ancestors@), index@) matches Some(k) && c@
                    == id_views(ancestors@)[k],
                None => first_referenced(id_views(ancestors@), index@) is None,
            },
    {
        let found = find_first_referenced(ancestors, index);
        proof {
            lemma_first_referenced(id_views(ancestors@), index@);
        }
        match found {
            Some(k) => Some(ancestors[k].clone()),
            None => None,
        }
    }
}

/// Resolves one branch against the walked ancestors, the reference index
/// and the default-branch index, as [`resolve_spec`] describes.
#[verifier::loop_isolation(false)]
pub fn resolve(
    branch: &ReferenceInfo,
    ancestors: &Vec<CommitId>,
    index: &ReferenceIndex,
    default_index: &DefaultBranchIndex,
) -> (r: ParentResolution)
    requires
        index.wf(),
    ensures
        r@ == resolve_spec(branch.commit@, id_views(ancestors@), index@, default_index.as_set()),
{
    let ghost anc = id_views(ancestors@);
    let ghost od = default_index.as_set();
    let k = match find_first_referenced(ancestors, index) {
        Some(k) => k,
        None => {
            return ParentResolution::NoParent;
        },
    };
    proof {
        lemma_first_referenced(anc, index@);
        assert(anc[k as int] == ancestors@[k as int]@);
    }
    let c = &ancestors[k];
    if default_index.contains(c) {
        proof {
            assert(od.contains(anc[k as int]));
        }
        if branch.commit.eq(c) {
            return ParentResolution::DetachedOnDefault(c.clone());
        }
        let mut j: usize = 0;
        while j < k
            invariant
                k < ancestors@.len(),
                anc == id_views(ancestors@),
                od == default_index.as_set(),
                j <= k,
                forall|p: int| 0 <= p < j ==> !od.contains(anc[p]),
            decreases k - j,
        {
            if default_index.contains(&ancestors[j]) {
                proof {
                    assert(anc[j as int] == ancestors@[j as int]@);
                    assert(od.contains(anc[j as int]));
                    lemma_first_on_default(anc.take(k as int), od);
                    assert(anc.take(k as int)[j as int] == anc[j as int]);
                    match first_on_default(anc.take(k as int), od) {
                        Some(i) => {
                            if i < j {
                                assert(anc.take(k as int)[i] == anc[i]);
                                assert(!od.contains(anc[i]));
                                assert(false);
                            }
                            if i > j {
                                assert(!od.contains(anc.take(k as int)[j as int]));
                                assert(false);
                            }
                        },
                        None => {
                            assert(!od.contains(anc.take(k as int)[j as int]));
                            assert(false);
                        },
                    }
                    assert(first_on_default(anc.take(k as int), od) == Some(j as int));
                }
                return ParentResolution::DetachedOnDefault(ancestors[j].clone());
            }
            proof {
                assert(anc[j as int] == ancestors@[j as int]@);
            }
            j = j + 1;
        }
        proof {
            lemma_first_on_default(anc.take(k as int), od);
            match first_on_default(anc.take(k as int), od) {
                Some(i) => {
                    assert(anc.take(k as int)[i] == anc[i]);
                    assert(!od.contains(anc[i]));
                    assert(false);
                },
                None => {},
            }
        }
        ParentResolution::DetachedOnDefault(c.clone())
    } else {
        proof {
            assert(!od.contains(anc[k as int]));
        }
        let named = match index.get(c) {
            Some(rf) => rf.clone(),
            None => {
                proof {
                    assert(false);
                }
                Reference::Default
            },
        };
        ParentResolution::NamedParent(named, c.clone())
    }
}

/// One branch with its walked ancestors, nearest-first, the tip itself
/// skipped by the walk.
pub struct BranchAncestry {
    pub info: ReferenceInfo,
    pub ancestors: Vec<CommitId>,
}

/// One resolved branch, for presentation: the branch name and its
/// resolution.
pub struct ResolvedBranch {
    pub name: String,
    pub resolution: ParentResolution,
}

/// The views of a run of resolved branches.
pub open spec fn resolved_views(s: Seq<ResolvedBranch>) -> Seq<(Seq<char>, ResolutionView)> {
    s.map_values(|r: ResolvedBranch| (r.name@, r.resolution@))
}

/// What resolving a run of branches yields: one entry per branch in order,
/// except that a branch whose tip is the default branch tip coincides with
/// the default branch and is excluded — it is not a branch with a parent,
/// it is the default.
pub open spec fn resolve_all_spec(
    entries: Seq<BranchAncestry>,
    idx: Map<Seq<u8>, ReferenceView>,
    on_default: Set<Seq<u8>>,
    default_tip: Seq<u8>,
) -> Seq<(Seq<char>, ResolutionView)>
    decreases entries.len(),
{
    if entries.len() == 0 {
        Seq::empty()
    } else {
        let rest = resolve_all_spec(entries.drop_first(), idx, on_default, default_tip);
        if entries[0].info.commit@ == default_tip {
            rest
        } else {
            seq![
                (
                    entries[0].info.name@,
                    resolve_spec(
                        entries[0].info.commit@,
                        id_views(entries[0].ancestors@),
                        idx,
                        on_default,
                    ),
                ),
            ] + rest
        }
    }
}

/// Resolves every listed branch, skipping those that coincide with the
/// default branch, as [`resolve_all_spec`] describes.
#[verifier::loop_isolation(false)]
pub fn resolve_all(
    entries: &Vec<BranchAncestry>,
    index: &ReferenceIndex,
    default_index: &DefaultBranchIndex,
) -> (r: Vec<ResolvedBranch>)
    requires
        index.wf(),
    ensures
        resolved_views(r@) == resolve_all_spec(
            entries@,
            index@,
            default_index.as_set(),
            default_index.tip_spec(),
        ),
{
    let ghost idx = index@;
    let ghost od = default_index.as_set();
    let ghost tip = default_index.tip_spec();
    let mut out: Vec<ResolvedBranch> = Vec::new();
    proof {
        assert(entries@.skip(0) =~= entries@);
        assert(resolved_views(out@) =~= Seq::<(Seq<char>, ResolutionView)>::empty());
    }
    let n = entries.len();
    let mut i: usize = 0;
    while i < n
        invariant
            i <= n,
            resolved_views(out@) + resolve_all_spec(entries@.skip(i as int), idx, od, tip)
                == resolve_all_spec(entries@, idx, od, tip),
        decreases n - i,
    {
        let e = &entries[i];
        let ghost pre = out@;
        if !e.info.commit.eq(default_index.tip()) {
            let resolution = resolve(&e.info, &e.ancestors, index, default_index);
            out.push(ResolvedBranch { name: e.info.name.clone(), resolution });
        }
        proof {
            assert(entries@.skip(i as int).drop_first() =~= entries@.skip(i + 1));
            assert(entries@.skip(i as int)[0] == entries@[i as int]);
            if e.info.commit@ == tip {
                assert(out@ == pre);
            } else {
                assert(resolved_views(out@) =~= resolved_views(pre) + seq![
                    (
                        e.info.name@,
                        resolve_spec(e.info.commit@, id_views(e.ancestors@), idx, od),
                    ),
                ]);
                assert((resolved_views(pre) + seq![
                    (
                        e.info.name@,
                        resolve_spec(e.info.commit@, id_views(e.ancestors@), idx, od),
                    ),
                ]) + resolve_all_spec(entries@.skip(i + 1), idx, od, tip) =~= resolved_views(pre)
                    + (seq![
                    (
                        e.info.name@,
                        resolve_spec(e.info.commit@, id_views(e.ancestors@), idx, od),
                    ),
                ] + resolve_all_spec(entries@.skip(i + 1), idx, od, tip)));
            }
        }
        i = i + 1;
    }
    proof {
        assert(entries@.skip(n as int) =~= Seq::<BranchAncestry>::empty());
        assert(resolved_views(out@) + resolve_all_spec(entries@.skip(n as int), idx, od, tip)
            =~= resolved_views(out@));
    }
    out
}

/// A branch whose tip equals the default branch tip is excluded from the
/// resolution output: the output is exactly what it would be were the
/// branch not listed at all.
pub proof fn lemma_default_tip_excluded(
    entries: Seq<BranchAncestry>,
    idx: Map<Seq<u8>, ReferenceView>,
    on_default: Set<Seq<u8>>,
    default_tip: Seq<u8>,
    i: int,
)
    requires
        0 <= i < entries.len(),
        entries[i].info.commit@ == default_tip,
    ensures
        resolve_all_spec(entries, idx, on_default, default_tip) == resolve_all_spec(
            entries.remove(i),
            idx,
            on_default,
            default_tip,
        ),
    decreases entries.len(),
{
    if i == 0 {
        assert(entries.remove(0) =~= entries.drop_first());
    } else {
        lemma_default_tip_excluded(entries.drop_first(), idx, on_default, default_tip, i - 1);
        assert(entries.remove(i).drop_first() =~= entries.drop_first().remove(i - 1));
        assert(entries.remove(i)[0] == entries[0]);
    }
}

/// The resolver never reports the branch's own tip as its parent or as its
/// divergence point, the walk having skipped the tip as walks do.
pub proof fn lemma_no_self_parent(
    tip: Seq<u8>,
    anc: Seq<Seq<u8>>,
    idx: Map<Seq<u8>, ReferenceView>,
    on_default: Set<Seq<u8>>,
)
    requires
        forall|j: int| 0 <= j < anc.len() ==> anc[j] != tip,
    ensures
        match resolve_spec(tip, anc, idx, on_default) {
            ResolutionView::NoParent => true,
            ResolutionView::DetachedOnDefault(c) => c != tip,
            ResolutionView::NamedParent(_, c) => c != tip,
        },
{
    lemma_first_referenced(anc, idx);
    match first_referenced(anc, idx) {
        Some(k) => {
            lemma_first_on_default(anc.take(k), on_default);
            match first_on_default(anc.take(k), on_default) {
                Some(j) => {
                    assert(anc.take(k)[j] == anc[j]);
                },
                None => {},
            }
        },
        None => {},
    }
}

/// A branch none of whose walked ancestors is referenced resolves to
/// `NoParent`.
pub proof fn lemma_unreferenced_history_no_parent(
    tip: Seq<u8>,
    anc: Seq<Seq<u8>>,
    idx: Map<Seq<u8>, ReferenceView>,
    on_default: Set<Seq<u8>>,
)
    requires
        forall|j: int| 0 <= j < anc.len() ==> !idx.contains_key(anc[j]),
    ensures
        resolve_spec(tip, anc, idx, on_default) is NoParent,
{
    lemma_first_referenced(anc, idx);
    match first_referenced(anc, idx) {
        Some(k) => {
            assert(!idx.contains_key(anc[k]));
            assert(false);
        },
        None => {},
    }
}

/// When the nearest referenced ancestor is not reachable from the default
/// branch tip, resolution is the named parent at exactly that ancestor, in
/// walk order.
pub proof fn lemma_named_parent_exact(
    tip: Seq<u8>,
    anc: Seq<Seq<u8>>,
    idx: Map<Seq<u8>, ReferenceView>,
    on_default: Set<Seq<u8>>,
    k: int,
)
    requires
        0 <= k < anc.len(),
        idx.contains_key(anc[k]),
        forall|j: int| 0 <= j < k ==> !idx.contains_key(anc[j]),
        !on_default.contains(anc[k]),
    ensures
        resolve_spec(tip, anc, idx, on_default) == ResolutionView::NamedParent(idx[anc[k]], anc[k]),
{
    lemma_named_parent_candidate(anc, idx, k);
}

/// When the nearest referenced ancestor is reachable from the default
/// branch, resolution is detached at the earliest walked ancestor that is
/// on the default branch — never a later one.
pub proof fn lemma_detached_at_earliest(
    tip: Seq<u8>,
    anc: Seq<Seq<u8>>,
    idx: Map<Seq<u8>, ReferenceView>,
    on_default: Set<Seq<u8>>,
    k: int,
    m: int,
)
    requires
        forall|j: int| 0 <= j < anc.len() ==> anc[j] != tip,
        0 <= k < anc.len(),
        idx.contains_key(anc[k]),
        forall|j: int| 0 <= j < k ==> !idx.contains_key(anc[j]),
        on_default.contains(anc[k]),
        0 <= m < anc.len(),
        on_default.contains(anc[m]),
        forall|j: int| 0 <= j < m ==> !on_default.contains(anc[j]),
    ensures
        resolve_spec(tip, anc, idx, on_default) == ResolutionView::DetachedOnDefault(anc[m]),
{
    lemma_named_parent_candidate(anc, idx, k);
    assert(m <= k);
    lemma_first_on_default(anc.take(k), on_default);
    if m < k {
        assert(anc.take(k)[m] == anc[m]);
        match first_on_default(anc.take(k), on_default) {
            Some(i) => {
                if i < m {
                    assert(anc.take(k)[i] == anc[i]);
                    assert(!on_default.contains(anc[i]));
                    assert(false);
                }
                if i > m {
                    assert(!on_default.contains(anc.take(k)[m]));
                    assert(false);
                }
            },
            None => {
                assert(!on_default.contains(anc.take(k)[m]));
                assert(false);
            },
        }
        assert(first_on_default(anc.take(k), on_default) == Some(m));
    } else {
        match first_on_default(anc.take(k), on_default) {
            Some(i) => {
                assert(anc.take(k)[i] == anc[i]);
                assert(!on_default.contains(anc[i]));
                assert(false);
            },
            None => {},
        }
    }
}

/// The first referenced ancestor is where `first_referenced` points.
proof fn lemma_named_parent_candidate(anc: Seq<Seq<u8>>, idx: Map<Seq<u8>, ReferenceView>, k: int)
    requires
        0 <= k < anc.len(),
        idx.contains_key(anc[k]),
        forall|j: int| 0 <= j < k ==> !idx.contains_key(anc[j]),
    ensures
        first_referenced(anc, idx) == Some(k),
{
    lemma_first_referenced(anc, idx);
    match first_referenced(anc, idx) {
        Some(i) => {
            if i < k {
                assert(!idx.contains_key(anc[i]));
                assert(false);
            }
            if i > k {
                assert(!idx.contains_key(anc[k]));
                assert(false);
            }
        },
        None => {
            assert(!idx.contains_key(anc[k]));
            assert(false);
        },
    }
}

} // verus!
