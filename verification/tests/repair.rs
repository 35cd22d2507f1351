use buo::prelude::{IoFailure, IoKind};
use buo::util::cache::tree::{DirNode, Listing};
use buo::util::cache::{get_initial_entries, replace_invalid_entries, PathCandidateSet};

fn file(path: &str) -> DirNode {
    DirNode { path: path.to_string(), children: None }
}

fn dir(path: &str, entries: Vec<DirNode>) -> DirNode {
    DirNode { path: path.to_string(), children: Some(Listing::Entries(entries)) }
}

fn unreadable(path: &str) -> DirNode {
    DirNode {
        path: path.to_string(),
        children: Some(Listing::Failed(IoFailure {
            kind: IoKind::PermissionDenied,
            message: format!("{}: permission denied", path),
        })),
    }
}

fn strings(paths: &[&str]) -> Vec<String> {
    paths.iter().map(|p| p.to_string()).collect()
}

fn is_ok_path(p: &str) -> bool {
    p.ends_with(".ok")
}

#[test]
fn repair_replaces_invalid_suffix() {
    let root = Listing::Entries(vec![file("/r/E.ok"), file("/r/skip"), file("/r/F.ok"), file("/r/G.ok")]);
    let mut paths = strings(&["/A.ok", "/B.ok", "/C", "/D"]);
    assert!(replace_invalid_entries(&root, &mut paths, is_ok_path).is_ok());
    assert_eq!(paths, strings(&["/A.ok", "/B.ok", "/r/E.ok", "/r/F.ok"]));
}

#[test]
fn repair_of_valid_list_changes_nothing() {
    let root = Listing::Failed(IoFailure { kind: IoKind::NotFound, message: "gone".to_string() });
    let mut paths = strings(&["/A.ok", "/B.ok"]);
    assert!(replace_invalid_entries(&root, &mut paths, is_ok_path).is_ok());
    assert_eq!(paths, strings(&["/A.ok", "/B.ok"]));
}

#[test]
fn repair_moves_valid_paths_to_the_front_in_order() {
    let root = Listing::Entries(vec![file("/r/X.ok"), file("/r/Y.ok")]);
    let mut paths = strings(&["/C", "/A.ok", "/D", "/B.ok"]);
    assert!(replace_invalid_entries(&root, &mut paths, is_ok_path).is_ok());
    assert_eq!(paths, strings(&["/A.ok", "/B.ok", "/r/X.ok", "/r/Y.ok"]));
}

#[test]
fn repair_shrinks_when_too_few_are_found() {
    let root = Listing::Entries(vec![file("/r/E.ok"), file("/r/skip")]);
    let mut paths = strings(&["/A.ok", "/C", "/D"]);
    assert!(replace_invalid_entries(&root, &mut paths, is_ok_path).is_ok());
    assert_eq!(paths, strings(&["/A.ok", "/r/E.ok"]));
}

#[test]
fn repair_hands_on_the_failure_of_the_root() {
    let root = Listing::Failed(IoFailure { kind: IoKind::NotFound, message: "gone".to_string() });
    let mut paths = strings(&["/C", "/A.ok"]);
    let failure = replace_invalid_entries(&root, &mut paths, is_ok_path).unwrap_err();
    assert_eq!(failure.kind, IoKind::NotFound);
    assert_eq!(failure.message, "gone");
    assert_eq!(paths, strings(&["/A.ok", "/C"]));
}

#[test]
fn walk_takes_subtree_before_the_entry() {
    let root = Listing::Entries(vec![
        dir("/r/d.ok", vec![file("/r/d.ok/in.ok"), dir("/r/d.ok/e.ok", vec![file("/r/d.ok/e.ok/deep.ok")])]),
        file("/r/last.ok"),
    ]);
    let found = get_initial_entries(&root, 10, is_ok_path).unwrap();
    assert_eq!(
        found,
        strings(&["/r/d.ok/in.ok", "/r/d.ok/e.ok/deep.ok", "/r/d.ok/e.ok", "/r/d.ok", "/r/last.ok"])
    );
}

#[test]
fn walk_stops_when_the_budget_is_used_up() {
    let root = Listing::Entries(vec![
        dir("/r/d.ok", vec![file("/r/d.ok/a.ok"), file("/r/d.ok/b.ok")]),
        unreadable("/r/locked"),
    ]);
    assert_eq!(get_initial_entries(&root, 2, is_ok_path).unwrap(), strings(&["/r/d.ok/a.ok", "/r/d.ok/b.ok"]));
    assert_eq!(get_initial_entries(&root, 0, is_ok_path).unwrap(), Vec::<String>::new());
    assert_eq!(
        get_initial_entries(&root, 3, is_ok_path).unwrap(),
        strings(&["/r/d.ok/a.ok", "/r/d.ok/b.ok", "/r/d.ok"])
    );
}

#[test]
fn walk_fails_eagerly_on_an_unreadable_directory() {
    let root = Listing::Entries(vec![file("/r/a.ok"), unreadable("/r/locked"), file("/r/b.ok")]);
    let failure = get_initial_entries(&root, 5, is_ok_path).unwrap_err();
    assert_eq!(failure.kind, IoKind::PermissionDenied);
    assert_eq!(failure.message, "/r/locked: permission denied");
}

#[test]
fn candidate_set_fills_from_scratch_up_to_its_limit() {
    let root = Listing::Entries(vec![file("/r/a.ok"), file("/r/b"), file("/r/c.ok"), file("/r/d.ok")]);
    let mut set = PathCandidateSet::new(2);
    assert!(set.repair(&root, is_ok_path).is_ok());
    assert_eq!(set.paths(), &strings(&["/r/a.ok", "/r/c.ok"]));
    assert_eq!(set.limit(), 2);
    assert!(set.repair(&root, is_ok_path).is_ok());
    assert_eq!(set.paths(), &strings(&["/r/a.ok", "/r/c.ok"]));
}

#[test]
fn candidate_set_keeps_within_limit() {
    assert!(PathCandidateSet::from_snapshot(strings(&["/a", "/b", "/c"]), 2).is_none());
    let root = Listing::Entries(vec![file("/r/x.ok"), file("/r/y.ok")]);
    let mut set = PathCandidateSet::from_snapshot(strings(&["/a.ok", "/b"]), 2).unwrap();
    assert!(set.repair(&root, is_ok_path).is_ok());
    assert_eq!(set.paths(), &strings(&["/a.ok", "/r/x.ok"]));
}
