use std::cell::RefCell;

use buo::prelude::{IoFailure, IoKind};
use buo::util::cache::repair::Repair;
use buo::util::cache::tree::{DirNode, Listing};
use buo::util::cache::walker::{DirEntry, Walker};
use buo::util::cache::{get_initial_entries, replace_invalid_entries, split_by_validity, PathCandidateSet};

fn file(path: &str) -> DirNode {
    DirNode { path: path.to_string(), children: None }
}

fn dir(path: &str, entries: Vec<DirNode>) -> DirNode {
    DirNode { path: path.to_string(), children: Some(Listing::Entries(entries)) }
}

fn unreadable(path: &str) -> DirNode {
    DirNode {
        path: path.to_string(),
        children: Some(Listing::Failed(IoFailure {
            kind: IoKind::PermissionDenied,
            message: format!("{}: permission denied", path),
        })),
    }
}

fn strings(paths: &[&str]) -> Vec<String> {
    paths.iter().map(|p| p.to_string()).collect()
}

fn is_ok_path(p: &str) -> bool {
    p.ends_with(".ok")
}

fn tree() -> Listing {
    Listing::Entries(vec![
        file("/r/a.ok"),
        dir(
            "/r/d.ok",
            vec![file("/r/d.ok/x"), dir("/r/d.ok/e", vec![file("/r/d.ok/e/deep.ok")]), file("/r/d.ok/y.ok")],
        ),
        dir("/r/empty", vec![]),
        unreadable("/r/locked.ok"),
        file("/r/z.ok"),
    ])
}

/// What the tree has to say of the directory at `path`.
fn listing_of(root: &Listing, root_path: &str, path: &str) -> Option<Result<Vec<DirEntry>, IoFailure>> {
    fn answer(listing: &Listing) -> Result<Vec<DirEntry>, IoFailure> {
        match listing {
            Listing::Entries(nodes) => Ok(nodes
                .iter()
                .map(|n| DirEntry { path: n.path.clone(), is_dir: n.children.is_some() })
                .collect()),
            Listing::Failed(e) => Err(e.duplicate()),
        }
    }
    fn search(listing: &Listing, path: &str) -> Option<Result<Vec<DirEntry>, IoFailure>> {
        if let Listing::Entries(nodes) = listing {
            for node in nodes {
                if let Some(children) = &node.children {
                    if node.path == path {
                        return Some(answer(children));
                    }
                    if let Some(found) = search(children, path) {
                        return Some(found);
                    }
                }
            }
        }
        None
    }
    if path == root_path {
        Some(answer(root))
    } else {
        search(root, path)
    }
}

fn walk(root: &Listing, limit: usize, reads: &RefCell<Vec<String>>) -> Result<Vec<String>, IoFailure> {
    let mut walker = Walker::start("/r".to_string(), limit);
    while let Some(dir) = walker.pending().map(|d| d.to_string()) {
        reads.borrow_mut().push(dir.clone());
        walker.feed(listing_of(root, "/r", &dir).unwrap(), &is_ok_path);
    }
    assert!(walker.is_finished());
    walker.finish()
}

#[test]
fn walker_finds_what_the_search_of_the_tree_finds() {
    let root = tree();
    for limit in 0..8 {
        let reads = RefCell::new(Vec::new());
        let stepwise = walk(&root, limit, &reads);
        let at_once = get_initial_entries(&root, limit, is_ok_path);
        match (stepwise, at_once) {
            (Ok(a), Ok(b)) => assert_eq!(a, b),
            (Err(a), Err(b)) => assert_eq!((a.kind, a.message), (b.kind, b.message)),
            _ => panic!("the two searches differ at limit {}", limit),
        }
    }
}

#[test]
fn walker_takes_paths_in_depth_first_order() {
    let reads = RefCell::new(Vec::new());
    let found = walk(&tree(), 4, &reads).unwrap();
    assert_eq!(found, strings(&["/r/a.ok", "/r/d.ok/e/deep.ok", "/r/d.ok/y.ok", "/r/d.ok"]));
    assert_eq!(reads.into_inner(), strings(&["/r", "/r/d.ok", "/r/d.ok/e"]));
}

#[test]
fn walker_reads_no_directory_that_it_does_not_reach() {
    let reads = RefCell::new(Vec::new());
    assert_eq!(walk(&tree(), 1, &reads).unwrap(), strings(&["/r/a.ok"]));
    assert_eq!(reads.into_inner(), strings(&["/r"]));
    let reads = RefCell::new(Vec::new());
    assert_eq!(walk(&tree(), 2, &reads).unwrap(), strings(&["/r/a.ok", "/r/d.ok/e/deep.ok"]));
    assert_eq!(reads.into_inner(), strings(&["/r", "/r/d.ok", "/r/d.ok/e"]));
    let reads = RefCell::new(Vec::new());
    assert_eq!(walk(&tree(), 0, &reads).unwrap(), Vec::<String>::new());
    assert_eq!(reads.into_inner(), strings(&["/r"]));
}

#[test]
fn walker_fails_eagerly() {
    let reads = RefCell::new(Vec::new());
    let failure = walk(&tree(), 5, &reads).unwrap_err();
    assert_eq!(failure.kind, IoKind::PermissionDenied);
    assert_eq!(failure.message, "/r/locked.ok: permission denied");
    assert_eq!(reads.into_inner(), strings(&["/r", "/r/d.ok", "/r/d.ok/e", "/r/empty", "/r/locked.ok"]));
    let gone = Listing::Failed(IoFailure { kind: IoKind::NotFound, message: "gone".to_string() });
    let reads = RefCell::new(Vec::new());
    assert_eq!(walk(&gone, 0, &reads).unwrap_err().kind, IoKind::NotFound);
}

fn repair(root: &Listing, paths: &[&str]) -> (Vec<String>, Result<(), IoFailure>, usize) {
    let mut repair = Repair::start("/r".to_string(), &strings(paths), &is_ok_path);
    let mut reads = 0;
    while let Some(dir) = repair.pending().map(|d| d.to_string()) {
        reads += 1;
        repair.feed(listing_of(root, "/r", &dir).unwrap(), &is_ok_path);
    }
    let (paths, result) = repair.finish();
    (paths, result, reads)
}

#[test]
fn repair_in_steps_leaves_what_the_repair_against_the_tree_leaves() {
    let root = tree();
    let lists: [&[&str]; 6] = [
        &[],
        &["/A.ok", "/B.ok"],
        &["/A.ok", "/B.ok", "/C", "/D"],
        &["/C", "/A.ok", "/D", "/B.ok", "/E"],
        &["/1", "/2", "/3", "/4", "/5"],
        &["/1", "/2", "/3", "/4", "/5", "/6"],
    ];
    for list in lists {
        let (stepwise, result, _) = repair(&root, list);
        let mut at_once = strings(list);
        let expected = replace_invalid_entries(&root, &mut at_once, is_ok_path);
        assert_eq!(stepwise, at_once);
        assert_eq!(result.map_err(|e| e.message), expected.map_err(|e| e.message));
    }
}

#[test]
fn repair_in_steps_of_valid_list_reads_nothing() {
    let (paths, result, reads) = repair(&tree(), &["/A.ok", "/B.ok"]);
    assert_eq!(paths, strings(&["/A.ok", "/B.ok"]));
    assert!(result.is_ok());
    assert_eq!(reads, 0);
}

#[test]
fn repair_in_steps_replaces_invalid_suffix() {
    let (paths, result, reads) = repair(&tree(), &["/A.ok", "/C", "/B.ok", "/D"]);
    assert_eq!(paths, strings(&["/A.ok", "/B.ok", "/r/a.ok", "/r/d.ok/e/deep.ok"]));
    assert!(result.is_ok());
    assert_eq!(reads, 3);
    let (paths, result, _) = repair(&tree(), &["/1", "/A.ok", "/2", "/3", "/4", "/5"]);
    assert_eq!(paths, strings(&["/A.ok", "/1", "/2", "/3", "/4", "/5"]));
    assert_eq!(result.unwrap_err().kind, IoKind::PermissionDenied);
}

#[test]
fn paths_are_split_by_validity_in_order() {
    let (kept, dropped) = split_by_validity(&strings(&["/C", "/A.ok", "/D", "/B.ok"]), &is_ok_path);
    assert_eq!(kept, strings(&["/A.ok", "/B.ok"]));
    assert_eq!(dropped, strings(&["/C", "/D"]));
}

#[test]
fn candidate_set_is_repaired_in_steps() {
    let root = tree();
    let mut set = PathCandidateSet::new(3);
    let mut repair = set.begin_repair("/r".to_string(), &is_ok_path);
    while let Some(dir) = repair.pending().map(|d| d.to_string()) {
        repair.feed(listing_of(&root, "/r", &dir).unwrap(), &is_ok_path);
    }
    assert!(set.end_repair(repair).is_ok());
    assert_eq!(set.paths(), &strings(&["/r/a.ok", "/r/d.ok/e/deep.ok", "/r/d.ok/y.ok"]));

    let mut set = PathCandidateSet::from_snapshot(strings(&["/x", "/A.ok"]), 4).unwrap();
    let mut repair = set.begin_repair("/r".to_string(), &is_ok_path);
    while let Some(dir) = repair.pending().map(|d| d.to_string()) {
        repair.feed(listing_of(&root, "/r", &dir).unwrap(), &is_ok_path);
    }
    assert!(set.end_repair(repair).is_ok());
    assert_eq!(set.paths(), &strings(&["/A.ok", "/r/a.ok"]));
}
