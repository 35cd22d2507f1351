//! A directory tree as its caller read it, and the depth-first search for
//! valid paths in it.

use crate::prelude::IoFailure;
use vstd::prelude::*;

verus! {

/// What reading a directory gave: its entries, in the order in which they
/// were read, or the failure to read it.
pub enum Listing {
    Entries(Vec<DirNode>),
    Failed(IoFailure),
}

/// One entry of a directory.
pub struct DirNode {
    /// The entry's full path.
    pub path: String,
    /// For a directory, what reading it gave; `None` for any other entry.
    pub children: Option<Listing>,
}

/// The strings of a row of paths.
pub open spec fn path_views(paths: Seq<String>) -> Seq<Seq<char>> {
    Seq::new(paths.len(), |i: int| paths[i]@)
}

/// `f` may answer true for `path`.
pub open spec fn accepts<F: Fn(&str) -> bool>(f: F, path: Seq<char>) -> bool {
    exists|p: &str| p@ == path && #[trigger] call_ensures(f, (p,), true)
}

/// `f` can be asked about every path, and its answer depends on the path's
/// text alone.
pub open spec fn is_predicate<F: Fn(&str) -> bool>(f: F) -> bool {
    &&& forall|p: &str| #[trigger] call_requires(f, (p,))
    &&& forall|p: &str, q: &str, a: bool, b: bool|
        p@ == q@ && #[trigger] call_ensures(f, (p,), a) && #[trigger] call_ensures(f, (q,), b)
            ==> a == b
}

/// The state of a search: the valid paths found, in the order in which they
/// were found, how many more may be taken, and the failure that stopped the
/// search, if one did.
pub struct Found {
    pub paths: Seq<Seq<char>>,
    pub budget: nat,
    pub failure: Option<IoFailure>,
}

/// The search of one directory with `budget` paths still to find. A
/// directory that could not be read stops the search with its failure.
pub open spec fn walk_dir(dir: Listing, valid: spec_fn(Seq<char>) -> bool, budget: nat) -> Found
    decreases dir, 0nat,
{
    match dir {
        Listing::Failed(e) => Found { paths: Seq::empty(), budget, failure: Some(e) },
        Listing::Entries(nodes) => walk_entries(nodes@, valid, budget, 0),
    }
}

/// The search of the entries of one directory from entry `from` on. Each
/// entry's subtree is searched first, then the entry itself is tested. The
/// search stops at a failure, or as soon as the budget is used up.
pub open spec fn walk_entries(
    nodes: Seq<DirNode>,
    valid: spec_fn(Seq<char>) -> bool,
    budget: nat,
    from: nat,
) -> Found
    decreases nodes, nodes.len() - from,
{
    if from >= nodes.len() || budget == 0 {
        Found { paths: Seq::empty(), budget, failure: None }
    } else {
        let node = nodes[from as int];
        let below = match node.children {
            Some(dir) => walk_dir(dir, valid, budget),
            None => Found { paths: Seq::empty(), budget, failure: None },
        };
        if below.failure is Some || below.budget == 0 {
            below
        } else {
            let here = if valid(node.path@) {
                seq![node.path@]
            } else {
                Seq::empty()
            };
            let left = (below.budget - here.len()) as nat;
            let rest = walk_entries(nodes, valid, left, from + 1);
            Found {
                paths: below.paths + here + rest.paths,
                budget: rest.budget,
                failure: rest.failure,
            }
        }
    }
}

/// A search takes no more paths than its budget allows, counts the budget
/// down by the number it took, and takes only valid paths.
pub proof fn lemma_walk_dir(dir: Listing, valid: spec_fn(Seq<char>) -> bool, budget: nat)
    ensures
        walk_dir(dir, valid, budget).paths.len() + walk_dir(dir, valid, budget).budget == budget,
        forall|i: int|
            0 <= i < walk_dir(dir, valid, budget).paths.len() ==> valid(
                #[trigger] walk_dir(dir, valid, budget).paths[i],
            ),
    decreases dir, 0nat,
{
    match dir {
        Listing::Failed(e) => {},
        Listing::Entries(nodes) => {
            lemma_walk_entries(nodes@, valid, budget, 0);
        },
    }
}

/// The same, of the search of a directory's entries from one entry on.
pub proof fn lemma_walk_entries(
    nodes: Seq<DirNode>,
    valid: spec_fn(Seq<char>) -> bool,
    budget: nat,
    from: nat,
)
    ensures
        walk_entries(nodes, valid, budget, from).paths.len() + walk_entries(
            nodes,
            valid,
            budget,
            from,
        ).budget == budget,
        forall|i: int|
            0 <= i < walk_entries(nodes, valid, budget, from).paths.len() ==> valid(
                #[trigger] walk_entries(nodes, valid, budget, from).paths[i],
            ),
    decreases nodes, nodes.len() - from,
{
    if from >= nodes.len() || budget == 0 {
    } else {
        let node = nodes[from as int];
        let below = match node.children {
            Some(dir) => walk_dir(dir, valid, budget),
            None => Found { paths: Seq::empty(), budget, failure: None },
        };
        match node.children {
            Some(dir) => {
                lemma_walk_dir(dir, valid, budget);
            },
            None => {},
        }
        if below.failure is Some || below.budget == 0 {
        } else {
            let here = if valid(node.path@) {
                seq![node.path@]
            } else {
                Seq::empty()
            };
            let left = (below.budget - here.len()) as nat;
            lemma_walk_entries(nodes, valid, left, from + 1);
        }
    }
}

} // verus!
