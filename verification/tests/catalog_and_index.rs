use branch_dawg::catalog::{decode_references, ReferenceCatalog};
use branch_dawg::commit::CommitId;
use branch_dawg::default_branch::DefaultBranchIndex;
use branch_dawg::error::Error;
use branch_dawg::index::ReferenceIndex;
use branch_dawg::reference::{RawReference, Reference, ReferenceInfo, ReferenceName};

fn cid(b: u8) -> CommitId {
    CommitId::from_bytes(vec![b])
}

fn info(name: &str, c: u8) -> ReferenceInfo {
    ReferenceInfo { name: name.to_string(), commit: cid(c) }
}

fn raw(name: &[u8], c: u8) -> RawReference {
    RawReference { name: name.to_vec(), commit: cid(c) }
}

#[test]
fn catalog_decodes_names() {
    let branches = vec![raw(b"main", 0), raw(b"feature", 2)];
    let tags = vec![raw(b"v1.0", 5)];
    let cat = match ReferenceCatalog::build(&branches, &tags) {
        Ok(cat) => cat,
        Err(_) => panic!("expected the catalog to build"),
    };
    assert_eq!(cat.branches.len(), 2);
    assert_eq!(cat.branches[0].name, "main");
    assert_eq!(cat.branches[1].name, "feature");
    assert!(cat.branches[1].commit == cid(2));
    assert_eq!(cat.tags.len(), 1);
    assert_eq!(cat.tags[0].name, "v1.0");
}

#[test]
fn catalog_decodes_multibyte_names() {
    let branches = vec![raw("naïve".as_bytes(), 1)];
    let tags: Vec<RawReference> = Vec::new();
    let cat = match ReferenceCatalog::build(&branches, &tags) {
        Ok(cat) => cat,
        Err(_) => panic!("expected the catalog to build"),
    };
    assert_eq!(cat.branches[0].name, "naïve");
}

#[test]
fn catalog_fails_on_undecodable_name_with_offset() {
    // The second branch name breaks after two valid bytes; the build is a
    // hard failure carrying that byte offset, not a skip.
    let branches = vec![raw(b"main", 0), RawReference {
        name: vec![0x66, 0x65, 0xff, 0x61],
        commit: cid(2),
    }];
    let tags: Vec<RawReference> = Vec::new();
    match ReferenceCatalog::build(&branches, &tags) {
        Err(Error::DecodeError(off)) => assert_eq!(off, 2),
        _ => panic!("expected a decode failure"),
    }
}

#[test]
fn catalog_reports_branches_before_tags() {
    let branches = vec![RawReference { name: vec![0xc3], commit: cid(1) }];
    let tags = vec![RawReference { name: vec![0xff], commit: cid(5) }];
    match ReferenceCatalog::build(&branches, &tags) {
        Err(Error::DecodeError(off)) => assert_eq!(off, 0),
        _ => panic!("expected a decode failure"),
    }
}

#[test]
fn decode_references_keeps_order_and_commits() {
    let refs = vec![raw(b"b", 3), raw(b"a", 4)];
    let infos = match decode_references(&refs) {
        Ok(infos) => infos,
        Err(_) => panic!("expected the names to decode"),
    };
    assert_eq!(infos[0].name, "b");
    assert!(infos[0].commit == cid(3));
    assert_eq!(infos[1].name, "a");
    assert!(infos[1].commit == cid(4));
}

#[test]
fn collision_resolves_to_branch_over_tag() {
    // One commit carries both a branch and a tag: the index answers with
    // the branch.
    let branches = vec![info("shared", 1)];
    let tags = vec![info("v2.0", 1)];
    let index = ReferenceIndex::build(&branches, &tags);
    match index.get(&cid(1)) {
        Some(Reference::Branch(name)) => assert_eq!(name, "shared"),
        _ => panic!("expected the branch to win the collision"),
    }
}

#[test]
fn earlier_branch_wins_between_branches() {
    let branches = vec![info("first", 1), info("second", 1)];
    let tags: Vec<ReferenceInfo> = Vec::new();
    let index = ReferenceIndex::build(&branches, &tags);
    match index.get(&cid(1)) {
        Some(Reference::Branch(name)) => assert_eq!(name, "first"),
        _ => panic!("expected a branch"),
    }
}

#[test]
fn index_lookup_misses_unreferenced_commit() {
    let branches = vec![info("main", 0)];
    let tags: Vec<ReferenceInfo> = Vec::new();
    let index = ReferenceIndex::build(&branches, &tags);
    assert!(index.get(&cid(7)).is_none());
    assert!(!index.contains(&cid(7)));
    assert!(index.contains(&cid(0)));
}

#[test]
fn default_marker_does_not_overwrite_concrete_reference() {
    let branches = vec![info("main", 0)];
    let tags: Vec<ReferenceInfo> = Vec::new();
    let mut index = ReferenceIndex::build(&branches, &tags);
    index.insert_default(&cid(0));
    match index.get(&cid(0)) {
        Some(Reference::Branch(name)) => assert_eq!(name, "main"),
        _ => panic!("expected the concrete branch to stay"),
    }
    index.insert_default(&cid(9));
    assert!(matches!(index.get(&cid(9)), Some(Reference::Default)));
}

#[test]
fn default_index_positions_follow_traversal_order() {
    let commits = vec![cid(3), cid(2), cid(1)];
    let index = DefaultBranchIndex::build(cid(9), commits);
    assert_eq!(index.position(&cid(3)), Some(0));
    assert_eq!(index.position(&cid(2)), Some(1));
    assert_eq!(index.position(&cid(1)), Some(2));
    assert_eq!(index.position(&cid(9)), None);
    assert!(index.contains(&cid(9)));
    assert!(index.contains(&cid(2)));
    assert!(!index.contains(&cid(7)));
}

#[test]
fn empty_catalog_builds_an_empty_index() {
    let branches: Vec<RawReference> = Vec::new();
    let tags: Vec<RawReference> = Vec::new();
    let cat = match ReferenceCatalog::build(&branches, &tags) {
        Ok(cat) => cat,
        Err(_) => panic!("expected the empty catalog to build"),
    };
    assert!(cat.branches.is_empty());
    assert!(cat.tags.is_empty());
    let index = ReferenceIndex::build(&cat.branches, &cat.tags);
    assert!(index.get(&cid(0)).is_none());
}

#[test]
fn qualified_names_carry_their_kind() {
    let b = ReferenceName::Branch("feature".to_string());
    assert_eq!(b.qualified(), "refs/heads/feature");
    let t = ReferenceName::Tag("v1.0".to_string());
    assert_eq!(t.qualified(), "refs/tags/v1.0");
    let rb = Reference::Branch("feature".to_string());
    assert_eq!(rb.qualified(), "refs/heads/feature");
    let rt = Reference::Tag("v1.0".to_string());
    assert_eq!(rt.qualified(), "refs/tags/v1.0");
    assert_eq!(Reference::Default.qualified(), "refs/default");
}

#[test]
fn commit_ids_compare_by_bytes() {
    assert!(cid(1) == cid(1));
    assert!(!(cid(1) == cid(2)));
    let long = CommitId::from_bytes(vec![1, 0]);
    assert!(!(cid(1) == long));
    let c = cid(4);
    let d = c.clone();
    assert!(c == d);
}
