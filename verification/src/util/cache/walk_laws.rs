//! The walker finds what the search of the tree finds: if every listing it
//! asks for is answered from one and the same tree, it ends with the result
//! of the depth-first search of that tree.

use crate::prelude::IoFailure;
use crate::util::cache::tree::{walk_dir, walk_entries, DirNode, Found, Listing};
use crate::util::cache::walker::{fresh_walk, work, EntryModel, FrameModel, WalkModel};
use vstd::prelude::*;

verus! {

/// The entry that each frame has reached.
pub open spec fn indices(frames: Seq<FrameModel>) -> Seq<int> {
    Seq::new(frames.len(), |k: int| frames[k].next)
}

/// The entries of a directory of the tree, as a listing shows them.
pub open spec fn node_entries(nodes: Seq<DirNode>) -> Seq<EntryModel> {
    Seq::new(
        nodes.len(),
        |i: int| EntryModel { path: nodes[i].path@, is_dir: nodes[i].children is Some },
    )
}

/// The entries of the directory that is reached from the root by going, at
/// each level, into the entry that `path` names. `None` where `path` does
/// not lead into a directory that could be read.
pub open spec fn nodes_at(root: Listing, path: Seq<int>) -> Option<Seq<DirNode>>
    decreases path.len(),
{
    if path.len() == 0 {
        match root {
            Listing::Entries(nodes) => Some(nodes@),
            Listing::Failed(_) => None,
        }
    } else {
        match nodes_at(root, path.drop_last()) {
            Some(nodes) => if 0 <= path.last() < nodes.len() {
                match nodes[path.last()].children {
                    Some(Listing::Entries(below)) => Some(below@),
                    _ => None,
                }
            } else {
                None
            },
            None => None,
        }
    }
}

/// `found` with `paths` put in front of what it found.
pub open spec fn after_paths(paths: Seq<Seq<char>>, found: Found) -> Found {
    Found { paths: paths + found.paths, budget: found.budget, failure: found.failure }
}

/// What testing the entry at `path` takes.
pub open spec fn taken(path: Seq<char>, valid: spec_fn(Seq<char>) -> bool) -> Seq<Seq<char>> {
    if valid(path) {
        seq![path]
    } else {
        Seq::empty()
    }
}

/// What is left of the search of the tree from where the frames stand: the
/// rest of the innermost directory, then the entry that led into it and the
/// rest of the directory around it, and so on outwards.
pub open spec fn rest(
    root: Listing,
    idx: Seq<int>,
    valid: spec_fn(Seq<char>) -> bool,
    budget: nat,
) -> Found
    decreases idx.len(),
{
    if idx.len() == 0 {
        Found { paths: Seq::empty(), budget, failure: None }
    } else {
        let nodes = nodes_at(root, idx.drop_last())->0;
        let here = walk_entries(nodes, valid, budget, idx.last() as nat);
        if here.failure is Some || here.budget == 0 || idx.len() == 1 {
            here
        } else {
            let up = idx.drop_last();
            let parents = nodes_at(root, up.drop_last())->0;
            let entry = taken(parents[up.last()].path@, valid);
            let onward = rest(
                root,
                up.drop_last().push(up.last() + 1),
                valid,
                (here.budget - entry.len()) as nat,
            );
            after_paths(here.paths + entry, onward)
        }
    }
}

/// Frame `k` holds the entries of the directory of the tree at which it
/// stands.
pub open spec fn frame_mirrors(frames: Seq<FrameModel>, root: Listing, k: int) -> bool {
    nodes_at(root, indices(frames).take(k)) matches Some(nodes) && frames[k].entries
        == node_entries(nodes)
}

/// Each frame holds the entries of the directory of the tree at which it
/// stands.
pub open spec fn mirrors(frames: Seq<FrameModel>, root: Listing) -> bool {
    forall|k: int| 0 <= k < frames.len() ==> #[trigger] frame_mirrors(frames, root, k)
}

/// The walker `w` is on the way through the tree `root`, in a search for
/// `limit` valid paths: what it has found, with what is left of the search
/// from where it stands, is what the search of the whole tree finds.
pub open spec fn tracks(
    w: WalkModel,
    root: Listing,
    limit: nat,
    valid: spec_fn(Seq<char>) -> bool,
) -> bool {
    let whole = walk_dir(root, valid, limit);
    &&& w.wf()
    &&& w.limit == limit
    &&& match w.failure {
        Some(e) => whole.failure == Some(e) && w.found == whole.paths && w.budget == whole.budget,
        None => if w.frames.len() == 0 && w.waiting {
            w.found == Seq::<Seq<char>>::empty() && w.budget == limit
        } else {
            &&& mirrors(w.frames, root)
            &&& after_paths(w.found, rest(root, indices(w.frames), valid, w.budget)) == whole
        },
    }
}

/// What the tree has to say of the directory that the walker waits for.
pub open spec fn answer(root: Listing, w: WalkModel) -> Result<Seq<EntryModel>, IoFailure> {
    let listing = if w.frames.len() == 0 {
        root
    } else {
        (nodes_at(root, indices(w.frames).drop_last())->0)[w.frames.last().next].children->0
    };
    match listing {
        Listing::Entries(nodes) => Ok(node_entries(nodes@)),
        Listing::Failed(e) => Err(e),
    }
}

/// The directory at which the innermost frame stands.
proof fn lemma_top_nodes(w: WalkModel, root: Listing)
    requires
        mirrors(w.frames, root),
        w.frames.len() > 0,
    ensures
        nodes_at(root, indices(w.frames).drop_last()) is Some,
        w.frames.last().entries == node_entries(nodes_at(root, indices(w.frames).drop_last())->0),
{
    let idx = indices(w.frames);
    let k = w.frames.len() - 1;
    assert(idx.take(k) =~= idx.drop_last());
    assert(frame_mirrors(w.frames, root, k));
}

/// The frames keep mirroring the tree when the innermost moves on by one
/// entry.
proof fn lemma_mirrors_moved_on(w: WalkModel, root: Listing)
    requires
        mirrors(w.frames, root),
        w.frames.len() > 0,
    ensures
        mirrors(w.moved_on().frames, root),
        indices(w.moved_on().frames) == indices(w.frames).drop_last().push(
            w.frames.last().next + 1,
        ),
{
    let after = w.moved_on();
    let idx = indices(w.frames);
    let idx2 = indices(after.frames);
    assert(idx2 =~= idx.drop_last().push(w.frames.last().next + 1));
    assert forall|k: int| 0 <= k < after.frames.len() implies #[trigger] frame_mirrors(
        after.frames,
        root,
        k,
    ) by {
        assert(idx2.take(k) =~= idx.take(k));
        assert(frame_mirrors(w.frames, root, k));
    }
}

/// The frames keep mirroring the tree when the innermost is left.
proof fn lemma_mirrors_back(w: WalkModel, root: Listing)
    requires
        mirrors(w.frames, root),
        w.frames.len() > 0,
    ensures
        mirrors(w.frames.drop_last(), root),
        indices(w.frames.drop_last()) == indices(w.frames).drop_last(),
{
    let after = WalkModel { frames: w.frames.drop_last(), ..w };
    let idx = indices(w.frames);
    let idx2 = indices(after.frames);
    assert(idx2 =~= idx.drop_last());
    assert forall|k: int| 0 <= k < after.frames.len() implies #[trigger] frame_mirrors(
        after.frames,
        root,
        k,
    ) by {
        assert(idx2.take(k) =~= idx.take(k));
        assert(frame_mirrors(w.frames, root, k));
    }
}

/// Testing leaves the frames as they are.
proof fn lemma_tested(w: WalkModel, path: Seq<char>, valid: spec_fn(Seq<char>) -> bool)
    requires
        w.budget > 0,
    ensures
        w.tested(path, valid).frames == w.frames,
        w.tested(path, valid).found == w.found + taken(path, valid),
        w.tested(path, valid).budget == w.budget - taken(path, valid).len(),
        w.tested(path, valid).failure == w.failure,
        w.tested(path, valid).waiting == w.waiting,
{
    assert(w.tested(path, valid).found =~= w.found + taken(path, valid));
}

/// What is left of the search where the innermost frame stands at a file:
/// the file is tested, and the search goes on behind it.
proof fn lemma_rest_at_file(
    root: Listing,
    idx: Seq<int>,
    valid: spec_fn(Seq<char>) -> bool,
    budget: nat,
)
    requires
        idx.len() > 0,
        budget > 0,
        nodes_at(root, idx.drop_last()) is Some,
        0 <= idx.last() < nodes_at(root, idx.drop_last())->0.len(),
        (nodes_at(root, idx.drop_last())->0)[idx.last()].children is None,
    ensures
        ({
            let nodes = nodes_at(root, idx.drop_last())->0;
            let entry = taken(nodes[idx.last()].path@, valid);
            rest(root, idx, valid, budget) == after_paths(
                entry,
                rest(
                    root,
                    idx.drop_last().push(idx.last() + 1),
                    valid,
                    (budget - entry.len()) as nat,
                ),
            )
        }),
{
    let nodes = nodes_at(root, idx.drop_last())->0;
    let i = idx.last();
    let entry = taken(nodes[i].path@, valid);
    let left = (budget - entry.len()) as nat;
    let idx2 = idx.drop_last().push(i + 1);
    assert(idx2.drop_last() =~= idx.drop_last());
    let here = walk_entries(nodes, valid, budget, i as nat);
    let behind = walk_entries(nodes, valid, left, (i + 1) as nat);
    assert(here == after_paths(entry, behind)) by {
        assert(here.paths =~= entry + behind.paths);
    }
    let lhs = rest(root, idx, valid, budget);
    let rhs = rest(root, idx2, valid, left);
    if behind.failure is Some || behind.budget == 0 || idx.len() == 1 {
        assert(rhs == behind);
        assert(lhs == here);
    } else {
        let up = idx.drop_last();
        let parents = nodes_at(root, up.drop_last())->0;
        let above = taken(parents[up.last()].path@, valid);
        let onward = rest(
            root,
            up.drop_last().push(up.last() + 1),
            valid,
            (behind.budget - above.len()) as nat,
        );
        assert(rhs == after_paths(behind.paths + above, onward));
        assert(lhs == after_paths(here.paths + above, onward));
        assert(lhs.paths =~= entry + rhs.paths);
    }
}

/// What is left of the search where the innermost frame stands at the end of
/// its directory: the entry that led into the directory is tested, and the
/// search goes on behind it.
proof fn lemma_rest_at_end(
    root: Listing,
    idx: Seq<int>,
    valid: spec_fn(Seq<char>) -> bool,
    budget: nat,
)
    requires
        idx.len() > 0,
        nodes_at(root, idx.drop_last()) is Some,
        idx.last() == nodes_at(root, idx.drop_last())->0.len(),
    ensures
        idx.len() == 1 || budget == 0 ==> rest(root, idx, valid, budget) == (Found {
            paths: Seq::empty(),
            budget,
            failure: None,
        }),
        idx.len() > 1 && budget > 0 ==> ({
            let up = idx.drop_last();
            let parents = nodes_at(root, up.drop_last())->0;
            let entry = taken(parents[up.last()].path@, valid);
            rest(root, idx, valid, budget) == after_paths(
                entry,
                rest(
                    root,
                    up.drop_last().push(up.last() + 1),
                    valid,
                    (budget - entry.len()) as nat,
                ),
            )
        }),
{
    let nodes = nodes_at(root, idx.drop_last())->0;
    let here = walk_entries(nodes, valid, budget, idx.last() as nat);
    assert(here == Found { paths: Seq::empty(), budget, failure: None });
    if idx.len() > 1 && budget > 0 {
        let up = idx.drop_last();
        let parents = nodes_at(root, up.drop_last())->0;
        let entry = taken(parents[up.last()].path@, valid);
        let onward = rest(
            root,
            up.drop_last().push(up.last() + 1),
            valid,
            (budget - entry.len()) as nat,
        );
        assert(rest(root, idx, valid, budget) == after_paths(here.paths + entry, onward));
        assert(here.paths + entry =~= entry);
    }
}

/// What is left of the search where the innermost frame stands at a
/// directory that could be read: the same as with a frame for that
/// directory added.
proof fn lemma_rest_into_dir(
    root: Listing,
    idx: Seq<int>,
    valid: spec_fn(Seq<char>) -> bool,
    budget: nat,
)
    requires
        idx.len() > 0,
        budget > 0,
        nodes_at(root, idx.drop_last()) is Some,
        0 <= idx.last() < nodes_at(root, idx.drop_last())->0.len(),
        (nodes_at(root, idx.drop_last())->0)[idx.last()].children matches Some(
            Listing::Entries(_),
        ),
    ensures
        rest(root, idx.push(0), valid, budget) == rest(root, idx, valid, budget),
{
    let nodes = nodes_at(root, idx.drop_last())->0;
    let i = idx.last();
    let below = nodes[i].children->0->Entries_0@;
    let deeper = idx.push(0);
    assert(deeper.drop_last() =~= idx);
    assert(nodes_at(root, idx) == Some(below));
    let inner = walk_entries(below, valid, budget, 0);
    assert(inner == walk_dir(nodes[i].children->0, valid, budget));
    let here = walk_entries(nodes, valid, budget, i as nat);
    let lhs = rest(root, deeper, valid, budget);
    let rhs = rest(root, idx, valid, budget);
    if inner.failure is Some || inner.budget == 0 {
        assert(here == inner);
        assert(lhs == inner);
        assert(rhs == here);
    } else {
        let entry = taken(nodes[i].path@, valid);
        let left = (inner.budget - entry.len()) as nat;
        let idx2 = idx.drop_last().push(i + 1);
        assert(idx2.drop_last() =~= idx.drop_last());
        let behind = walk_entries(nodes, valid, left, (i + 1) as nat);
        assert(here == after_paths(inner.paths + entry, behind)) by {
            assert(here.paths =~= inner.paths + entry + behind.paths);
        }
        let onward = rest(root, idx2, valid, left);
        assert(lhs == after_paths(inner.paths + entry, onward));
        if behind.failure is Some || behind.budget == 0 || idx.len() == 1 {
            assert(onward == behind);
            assert(rhs == here);
        } else {
            let up = idx.drop_last();
            let parents = nodes_at(root, up.drop_last())->0;
            let above = taken(parents[up.last()].path@, valid);
            let further = rest(
                root,
                up.drop_last().push(up.last() + 1),
                valid,
                (behind.budget - above.len()) as nat,
            );
            assert(onward == after_paths(behind.paths + above, further));
            assert(rhs == after_paths(here.paths + above, further));
            assert(lhs.paths =~= rhs.paths);
        }
    }
}

/// A walker that is on the way through a tree stays on it while it carries
/// on, and comes to rest.
proof fn lemma_advance_tracks(
    w: WalkModel,
    root: Listing,
    limit: nat,
    valid: spec_fn(Seq<char>) -> bool,
)
    requires
        tracks(w, root, limit, valid),
        w.failure is None,
        !w.waiting,
    ensures
        tracks(w.advance(valid), root, limit, valid),
        w.advance(valid).settled(),
    decreases work(w.frames),
{
    let whole = walk_dir(root, valid, limit);
    let idx = indices(w.frames);
    if w.budget == 0 || w.frames.len() == 0 {
    } else {
        lemma_top_nodes(w, root);
        let top = w.frames.last();
        let nodes = nodes_at(root, idx.drop_last())->0;
        assert(idx.last() == top.next);
        if top.next >= top.entries.len() {
            let back = WalkModel { frames: w.frames.drop_last(), ..w };
            lemma_mirrors_back(w, root);
            lemma_rest_at_end(root, idx, valid, w.budget);
            if back.frames.len() == 0 {
                assert(indices(back.frames) =~= Seq::<int>::empty());
                assert(after_paths(back.found, rest(root, indices(back.frames), valid, back.budget))
                    == whole) by {
                    assert(back.found + Seq::<Seq<char>>::empty() =~= back.found);
                }
            } else {
                let parent = back.frames.last();
                lemma_top_nodes(back, root);
                let up = idx.drop_last();
                let parents = nodes_at(root, up.drop_last())->0;
                assert(up.last() == parent.next);
                let path = parent.entries[parent.next].path;
                assert(path == parents[up.last()].path@);
                let tested = back.tested(path, valid);
                lemma_tested(back, path, valid);
                let after = tested.moved_on();
                lemma_mirrors_moved_on(tested, root);
                crate::util::cache::walker::lemma_work_moved_on(back.frames);
                assert(after_paths(
                    after.found,
                    rest(root, indices(after.frames), valid, after.budget),
                ) == whole) by {
                    let onward = rest(root, indices(after.frames), valid, after.budget);
                    assert(w.found + (taken(path, valid) + onward.paths) =~= after.found
                        + onward.paths);
                }
                assert(after.wf());
                lemma_advance_tracks(after, root, limit, valid);
            }
        } else if top.entries[top.next].is_dir {
        } else {
            let path = top.entries[top.next].path;
            assert(path == nodes[idx.last()].path@);
            lemma_rest_at_file(root, idx, valid, w.budget);
            let tested = w.tested(path, valid);
            lemma_tested(w, path, valid);
            let after = tested.moved_on();
            lemma_mirrors_moved_on(tested, root);
            crate::util::cache::walker::lemma_work_moved_on(w.frames);
            assert(after_paths(after.found, rest(root, indices(after.frames), valid, after.budget))
                == whole) by {
                let onward = rest(root, indices(after.frames), valid, after.budget);
                assert(w.found + (taken(path, valid) + onward.paths) =~= after.found
                    + onward.paths);
            }
            assert(after.wf());
            lemma_advance_tracks(after, root, limit, valid);
        }
    }
}

/// A walker that has not begun is on the way through every tree.
pub proof fn lemma_walk_begins(root: Listing, limit: nat, valid: spec_fn(Seq<char>) -> bool)
    ensures
        tracks(fresh_walk(limit), root, limit, valid),
        fresh_walk(limit).waiting,
{
}

/// A walker that is on the way through a tree, and is fed what the tree has
/// to say of the directory it waits for, stays on the way through the tree
/// and comes to rest.
pub proof fn lemma_walk_follows_tree(
    w: WalkModel,
    root: Listing,
    limit: nat,
    valid: spec_fn(Seq<char>) -> bool,
)
    requires
        tracks(w, root, limit, valid),
        w.waiting,
    ensures
        tracks(w.fed(answer(root, w), valid), root, limit, valid),
        w.fed(answer(root, w), valid).settled(),
{
    let whole = walk_dir(root, valid, limit);
    let listing = answer(root, w);
    let idx = indices(w.frames);
    if w.frames.len() == 0 {
        match root {
            Listing::Failed(e) => {},
            Listing::Entries(nodes) => {
                let begun = WalkModel {
                    frames: w.frames.push(FrameModel { entries: node_entries(nodes@), next: 0 }),
                    waiting: false,
                    ..w
                };
                let idx1 = indices(begun.frames);
                assert(idx1 =~= seq![0int]);
                assert(idx1.drop_last() =~= Seq::<int>::empty());
                assert forall|k: int| 0 <= k < begun.frames.len() implies #[trigger] frame_mirrors(
                    begun.frames,
                    root,
                    k,
                ) by {
                    assert(idx1.take(k) =~= Seq::<int>::empty());
                }
                assert(rest(root, idx1, valid, limit) == whole);
                assert(after_paths(begun.found, whole) == whole) by {
                    assert(begun.found + whole.paths =~= whole.paths);
                }
                lemma_advance_tracks(begun, root, limit, valid);
            },
        }
    } else {
        lemma_top_nodes(w, root);
        let top = w.frames.last();
        let nodes = nodes_at(root, idx.drop_last())->0;
        assert(idx.last() == top.next);
        let node = nodes[top.next];
        assert(top.entries[top.next].is_dir == (node.children is Some));
        match node.children->0 {
            Listing::Failed(e) => {
                let here = walk_entries(nodes, valid, w.budget, top.next as nat);
                assert(here == walk_dir(node.children->0, valid, w.budget));
                assert(rest(root, idx, valid, w.budget) == here);
                assert(w.found + here.paths =~= w.found);
            },
            Listing::Entries(below) => {
                let begun = WalkModel {
                    frames: w.frames.push(FrameModel { entries: node_entries(below@), next: 0 }),
                    waiting: false,
                    ..w
                };
                let idx1 = indices(begun.frames);
                assert(idx1 =~= idx.push(0));
                lemma_rest_into_dir(root, idx, valid, w.budget);
                assert forall|k: int| 0 <= k < begun.frames.len() implies #[trigger] frame_mirrors(
                    begun.frames,
                    root,
                    k,
                ) by {
                    if k < w.frames.len() {
                        assert(idx1.take(k) =~= idx.take(k));
                        assert(frame_mirrors(w.frames, root, k));
                    } else {
                        assert(idx1.take(k) =~= idx);
                        assert(idx.drop_last().push(idx.last()) =~= idx);
                    }
                }
                assert(begun.wf());
                lemma_advance_tracks(begun, root, limit, valid);
            },
        }
    }
}

/// A walker that was on the way through a tree and is over has found what
/// the depth-first search of the tree finds, or has met the failure that
/// stops that search.
pub proof fn lemma_walk_ends_with_tree_search(
    w: WalkModel,
    root: Listing,
    limit: nat,
    valid: spec_fn(Seq<char>) -> bool,
)
    requires
        tracks(w, root, limit, valid),
        w.settled(),
        w.finished(),
    ensures
        w.result() == (match walk_dir(root, valid, limit).failure {
            Some(e) => Err(e),
            None => Ok(walk_dir(root, valid, limit).paths),
        }),
        w.budget == walk_dir(root, valid, limit).budget,
{
    let whole = walk_dir(root, valid, limit);
    if w.failure is None {
        let idx = indices(w.frames);
        if w.frames.len() == 0 {
            assert(idx =~= Seq::<int>::empty());
            assert(w.found + Seq::<Seq<char>>::empty() =~= w.found);
        } else {
            assert(w.budget == 0);
            lemma_top_nodes(w, root);
            let nodes = nodes_at(root, idx.drop_last())->0;
            let here = walk_entries(nodes, valid, 0, idx.last() as nat);
            assert(rest(root, idx, valid, 0) == here);
            assert(w.found + here.paths =~= w.found);
        }
    }
}

} // verus!
