use branch_dawg::commit::CommitId;
use branch_dawg::default_branch::DefaultBranchIndex;
use branch_dawg::index::ReferenceIndex;
use branch_dawg::reference::{Reference, ReferenceInfo};
use branch_dawg::resolve::{resolve, resolve_all, BranchAncestry, ParentResolution};

fn cid(b: u8) -> CommitId {
    CommitId::from_bytes(vec![b])
}

fn info(name: &str, c: u8) -> ReferenceInfo {
    ReferenceInfo { name: name.to_string(), commit: cid(c) }
}

fn ids(bs: &[u8]) -> Vec<CommitId> {
    let mut v = Vec::new();
    for b in bs {
        v.push(cid(*b));
    }
    v
}

#[test]
fn feature_from_default_base_is_detached_at_base() {
    // Default branch `main` at C0; `feature` created at C0 with commits C1,
    // C2 on top. The nearest referenced ancestor of `feature` is C0, which
    // is on the default branch, so resolution is detached at C0.
    let branches = vec![info("main", 0), info("feature", 2)];
    let tags: Vec<ReferenceInfo> = Vec::new();
    let index = ReferenceIndex::build(&branches, &tags);
    let default_index = DefaultBranchIndex::build(cid(0), Vec::new());
    let r = resolve(&info("feature", 2), &ids(&[1, 0]), &index, &default_index);
    match r {
        ParentResolution::DetachedOnDefault(c) => assert!(c == cid(0)),
        _ => panic!("expected a detached resolution"),
    }
}

#[test]
fn branch_with_unreferenced_history_has_no_parent() {
    // `old-feature` diverged at C1 from a branch that has since been
    // deleted, and C1 is not reachable from the current `main`: nothing in
    // its walked history is referenced, so there is no parent.
    let branches = vec![info("main", 9), info("old-feature", 3)];
    let tags: Vec<ReferenceInfo> = Vec::new();
    let index = ReferenceIndex::build(&branches, &tags);
    let default_index = DefaultBranchIndex::build(cid(9), ids(&[8]));
    let r = resolve(&info("old-feature", 3), &ids(&[2, 1]), &index, &default_index);
    assert!(matches!(r, ParentResolution::NoParent));
}

#[test]
fn branch_from_tag_off_default_is_named_parent() {
    // Tag `v1.0` at C5, `hotfix` branched from C5, and C5 is not on `main`:
    // resolution names the tag, at exactly the first matching ancestor.
    let branches = vec![info("main", 9), info("hotfix", 7)];
    let tags = vec![info("v1.0", 5)];
    let index = ReferenceIndex::build(&branches, &tags);
    let default_index = DefaultBranchIndex::build(cid(9), ids(&[8]));
    let r = resolve(&info("hotfix", 7), &ids(&[6, 5, 4]), &index, &default_index);
    match r {
        ParentResolution::NamedParent(Reference::Tag(name), c) => {
            assert_eq!(name, "v1.0");
            assert!(c == cid(5));
        },
        _ => panic!("expected a named parent"),
    }
}

#[test]
fn nearest_referenced_ancestor_wins() {
    // Two tags sit in the history; the one nearest the branch tip in walk
    // order is the parent.
    let branches = vec![info("main", 9), info("work", 7)];
    let tags = vec![info("far", 4), info("near", 5)];
    let index = ReferenceIndex::build(&branches, &tags);
    let default_index = DefaultBranchIndex::build(cid(9), ids(&[8]));
    let r = resolve(&info("work", 7), &ids(&[6, 5, 4]), &index, &default_index);
    match r {
        ParentResolution::NamedParent(Reference::Tag(name), c) => {
            assert_eq!(name, "near");
            assert!(c == cid(5));
        },
        _ => panic!("expected a named parent"),
    }
}

#[test]
fn detached_resolution_picks_earliest_reconnection() {
    // A rebased shape: `topic` at C7 walks C6, C3, C2, C1; the tag sits at
    // C2, which is also on the default branch, but the walk already
    // reconnects to the default branch at C3 — the earlier point wins.
    let branches = vec![info("main", 9), info("topic", 7)];
    let tags = vec![info("base", 2)];
    let index = ReferenceIndex::build(&branches, &tags);
    let default_index = DefaultBranchIndex::build(cid(9), ids(&[3, 2, 1]));
    let r = resolve(&info("topic", 7), &ids(&[6, 3, 2, 1]), &index, &default_index);
    match r {
        ParentResolution::DetachedOnDefault(c) => assert!(c == cid(3)),
        _ => panic!("expected a detached resolution"),
    }
}

#[test]
fn detached_resolution_falls_back_to_matched_ancestor() {
    // The matched ancestor C2 is on the default branch and nothing nearer
    // the tip reconnects earlier: the matched ancestor itself is reported.
    let branches = vec![info("main", 9), info("topic", 7)];
    let tags = vec![info("base", 2)];
    let index = ReferenceIndex::build(&branches, &tags);
    let default_index = DefaultBranchIndex::build(cid(9), ids(&[3, 2, 1]));
    let r = resolve(&info("topic", 7), &ids(&[6, 2, 1]), &index, &default_index);
    match r {
        ParentResolution::DetachedOnDefault(c) => assert!(c == cid(2)),
        _ => panic!("expected a detached resolution"),
    }
}

#[test]
fn resolution_never_reports_own_tip() {
    // The walk hands ancestors without the tip, so no resolution carries
    // the branch's own tip commit.
    let branches = vec![info("main", 0), info("feature", 2)];
    let tags: Vec<ReferenceInfo> = Vec::new();
    let index = ReferenceIndex::build(&branches, &tags);
    let default_index = DefaultBranchIndex::build(cid(0), Vec::new());
    let r = resolve(&info("feature", 2), &ids(&[1, 0]), &index, &default_index);
    match r {
        ParentResolution::DetachedOnDefault(c) => assert!(!(c == cid(2))),
        ParentResolution::NamedParent(_, c) => assert!(!(c == cid(2))),
        ParentResolution::NoParent => {},
    }
}

#[test]
fn default_branch_is_excluded_from_batch_output() {
    // `main` itself and a twin branch sitting at the default tip are both
    // excluded; only `feature` is resolved.
    let branches = vec![info("main", 0), info("twin", 0), info("feature", 2)];
    let tags: Vec<ReferenceInfo> = Vec::new();
    let index = ReferenceIndex::build(&branches, &tags);
    let default_index = DefaultBranchIndex::build(cid(0), Vec::new());
    let entries = vec![
        BranchAncestry { info: info("main", 0), ancestors: Vec::new() },
        BranchAncestry { info: info("twin", 0), ancestors: Vec::new() },
        BranchAncestry { info: info("feature", 2), ancestors: ids(&[1, 0]) },
    ];
    let out = resolve_all(&entries, &index, &default_index);
    assert_eq!(out.len(), 1);
    assert_eq!(out[0].name, "feature");
    match &out[0].resolution {
        ParentResolution::DetachedOnDefault(c) => assert!(*c == cid(0)),
        _ => panic!("expected a detached resolution"),
    }
}

#[test]
fn empty_history_has_no_parent() {
    // A root branch with no ancestors at all resolves to NoParent.
    let branches = vec![info("main", 0), info("root", 5)];
    let tags: Vec<ReferenceInfo> = Vec::new();
    let index = ReferenceIndex::build(&branches, &tags);
    let default_index = DefaultBranchIndex::build(cid(0), Vec::new());
    let r = resolve(&info("root", 5), &Vec::new(), &index, &default_index);
    assert!(matches!(r, ParentResolution::NoParent));
}

#[test]
fn parent_finds_first_referenced_ancestor() {
    let branches = vec![info("main", 9), info("work", 7)];
    let tags = vec![info("v1.0", 5)];
    let index = ReferenceIndex::build(&branches, &tags);
    let p = info("work", 7).parent(&ids(&[6, 5, 4]), &index);
    match p {
        Some(c) => assert!(c == cid(5)),
        None => panic!("expected a parent commit"),
    }
}

#[test]
fn parent_is_none_without_referenced_ancestor() {
    let branches = vec![info("main", 9)];
    let tags: Vec<ReferenceInfo> = Vec::new();
    let index = ReferenceIndex::build(&branches, &tags);
    let p = info("work", 7).parent(&ids(&[6, 5]), &index);
    assert!(p.is_none());
}
