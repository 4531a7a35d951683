use branch_dawg::args::CommonArgs;
use branch_dawg::commit::CommitId;
use branch_dawg::order::{ref_le, sort_references, str_lt};
use branch_dawg::reference::ReferenceInfo;

fn cid(b: u8) -> CommitId {
    CommitId::from_bytes(vec![b])
}

fn info(name: &str, c: u8) -> ReferenceInfo {
    ReferenceInfo { name: name.to_string(), commit: cid(c) }
}

#[test]
fn string_order_is_lexicographic() {
    assert!(str_lt("alpha", "beta"));
    assert!(!str_lt("beta", "alpha"));
    assert!(!str_lt("same", "same"));
    assert!(str_lt("abc", "abcd"));
    assert!(!str_lt("abcd", "abc"));
    assert!(str_lt("", "a"));
    assert!(!str_lt("a", ""));
    assert!(str_lt("Zoo", "apple"));
}

#[test]
fn reference_order_breaks_name_ties_by_commit() {
    assert!(ref_le(&info("a", 5), &info("b", 1)));
    assert!(!ref_le(&info("b", 1), &info("a", 5)));
    assert!(ref_le(&info("a", 1), &info("a", 2)));
    assert!(!ref_le(&info("a", 2), &info("a", 1)));
    assert!(ref_le(&info("a", 1), &info("a", 1)));
}

#[test]
fn sort_orders_references_by_name() {
    let mut v = vec![info("gamma", 3), info("alpha", 1), info("beta", 2)];
    sort_references(&mut v);
    assert_eq!(v.len(), 3);
    assert_eq!(v[0].name, "alpha");
    assert_eq!(v[1].name, "beta");
    assert_eq!(v[2].name, "gamma");
}

#[test]
fn sort_keeps_duplicates_and_orders_ties() {
    let mut v = vec![info("x", 2), info("x", 1), info("a", 9), info("x", 2)];
    sort_references(&mut v);
    assert_eq!(v.len(), 4);
    assert_eq!(v[0].name, "a");
    assert!(v[1].commit == cid(1));
    assert!(v[2].commit == cid(2));
    assert!(v[3].commit == cid(2));
}

#[test]
fn path_falls_back_to_current_directory() {
    let args = CommonArgs { path: None, default_branch: None };
    assert_eq!(args.path(), "./");
    let args = CommonArgs { path: Some("/tmp/repo".to_string()), default_branch: None };
    assert_eq!(args.path(), "/tmp/repo");
}

#[test]
fn default_branch_name_prefers_argument_then_config() {
    let args = CommonArgs { path: None, default_branch: Some("trunk".to_string()) };
    assert_eq!(args.branch_default_name("master"), "trunk");
    let args = CommonArgs { path: None, default_branch: None };
    assert_eq!(args.branch_default_name("master"), "master");
    assert_eq!(args.branch_default_name(""), "main");
}
