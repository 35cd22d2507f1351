//! The repair of a list of candidate paths with a search that reads one
//! directory at a time.

use crate::prelude::IoFailure;
use crate::util::cache::tree::{is_predicate, path_views, Listing};
use crate::util::cache::walk_laws::{lemma_walk_ends_with_tree_search, tracks};
use crate::util::cache::walker::{fresh_walk, listing_model, DirEntry, WalkModel, Walker};
use crate::util::cache::{lemma_filter_all, repair_result, repaired, split_by_validity, validity};
use vstd::prelude::*;

verus! {

/// The state of a repair.
pub struct RepairModel {
    /// The valid paths of the list, in their order.
    pub kept: Seq<Seq<char>>,
    /// The invalid paths of the list, in their order.
    pub dropped: Seq<Seq<char>>,
    /// The search for the paths that take the place of the invalid ones.
    /// `None` where nothing is to be replaced.
    pub walk: Option<WalkModel>,
}

impl RepairModel {
    /// The repair is over: no listing is awaited.
    pub open spec fn finished(self) -> bool {
        match self.walk {
            Some(w) => w.finished(),
            None => true,
        }
    }

    /// The list that a repair that is over leaves: the valid paths, followed
    /// by the paths found; or, after a failure, by the invalid paths.
    pub open spec fn paths(self) -> Seq<Seq<char>> {
        match self.walk {
            None => self.kept + self.dropped,
            Some(w) => match w.result() {
                Ok(found) => self.kept + found,
                Err(_) => self.kept + self.dropped,
            },
        }
    }

    /// What a repair that is over returns.
    pub open spec fn result(self) -> Result<(), IoFailure> {
        match self.walk {
            None => Ok(()),
            Some(w) => match w.result() {
                Ok(_) => Ok(()),
                Err(e) => Err(e),
            },
        }
    }

    /// The repair of `paths` before any directory is read. Where every path
    /// is valid there is nothing to search for.
    pub open spec fn begun(paths: Seq<Seq<char>>, valid: spec_fn(Seq<char>) -> bool) -> RepairModel {
        let dropped = paths.filter(|p: Seq<char>| !valid(p));
        RepairModel {
            kept: paths.filter(valid),
            dropped,
            walk: if dropped.len() == 0 {
                None
            } else {
                Some(fresh_walk(dropped.len()))
            },
        }
    }
}

/// The repair of a list of candidate paths, in steps: it names the directory
/// to read next, and takes its listing.
pub struct Repair {
    kept: Vec<String>,
    dropped: Vec<String>,
    walker: Option<Walker>,
}

impl View for Repair {
    type V = RepairModel;

    closed spec fn view(&self) -> RepairModel {
        RepairModel {
            kept: path_views(self.kept@),
            dropped: path_views(self.dropped@),
            walk: match self.walker {
                Some(w) => Some(w@),
                None => None,
            },
        }
    }
}

impl Repair {
    /// The walker, if there is one, is well formed.
    pub closed spec fn wf(&self) -> bool {
        self.walker matches Some(w) ==> w.wf()
    }

    /// The greatest length that the list can have after the repair.
    pub open spec fn bound(&self) -> nat {
        match self@.walk {
            Some(w) => self@.kept.len() + if self@.dropped.len() > w.limit {
                self@.dropped.len()
            } else {
                w.limit
            },
            None => self@.kept.len() + self@.dropped.len(),
        }
    }

    /// The directory below which the repair searches.
    pub closed spec fn spec_root(&self) -> Option<Seq<char>> {
        match self.walker {
            Some(w) => Some(w.spec_root()),
            None => None,
        }
    }

    /// The directory whose listing the repair waits for.
    pub closed spec fn wanted(&self) -> Seq<char> {
        self.walker->0.wanted()
    }

    /// Begins the repair of `paths` with a search below `root`: the valid
    /// paths are set apart from the invalid ones, and as many paths are
    /// searched for as are invalid.
    pub fn start<F: Fn(&str) -> bool>(
        root: String,
        paths: &Vec<String>,
        validator: &F,
    ) -> (r: Self)
        requires
            is_predicate(*validator),
        ensures
            r.wf(),
            r@ == RepairModel::begun(path_views(paths@), validity(*validator)),
            r@.walk is Some ==> r.spec_root() == Some(root@),
    {
        let (kept, dropped) = split_by_validity(paths, validator);
        let walker = if dropped.len() == 0 {
            None
        } else {
            Some(Walker::start(root, dropped.len()))
        };
        Repair { kept, dropped, walker }
    }

    /// Begins the filling of an empty list with up to `len_limit` valid paths
    /// found below `root`.
    pub fn fill(root: String, len_limit: usize) -> (r: Self)
        ensures
            r.wf(),
            r@ == (RepairModel {
                kept: Seq::empty(),
                dropped: Seq::empty(),
                walk: Some(fresh_walk(len_limit as nat)),
            }),
            r.spec_root() == Some(root@),
    {
        let r = Repair {
            kept: Vec::new(),
            dropped: Vec::new(),
            walker: Some(Walker::start(root, len_limit)),
        };
        assert(r@.kept =~= Seq::<Seq<char>>::empty());
        assert(r@.dropped =~= Seq::<Seq<char>>::empty());
        r
    }

    /// The directory to read next, if the repair waits for one.
    pub fn pending(&self) -> (r: Option<&str>)
        requires
            self.wf(),
        ensures
            r is Some <==> !self@.finished(),
            r matches Some(dir) ==> dir@ == self.wanted(),
    {
        match &self.walker {
            Some(w) => w.pending(),
            None => None,
        }
    }

    /// Takes the listing that the repair waited for and carries the search
    /// on until it needs another listing or is over.
    pub fn feed<F: Fn(&str) -> bool>(
        &mut self,
        listing: Result<Vec<DirEntry>, IoFailure>,
        validator: &F,
    )
        requires
            old(self).wf(),
            !old(self)@.finished(),
            is_predicate(*validator),
        ensures
            final(self).wf(),
            final(self).spec_root() == old(self).spec_root(),
            final(self)@ == (RepairModel {
                walk: Some(old(self)@.walk->0.fed(listing_model(listing), validity(*validator))),
                ..old(self)@
            }),
            final(self)@.walk->0.settled(),
            final(self).bound() == old(self).bound(),
    {
        let mut walker = self.walker.take();
        match walker {
            Some(mut w) => {
                w.feed(listing, validator);
                self.walker = Some(w);
            },
            None => {},
        }
    }

    /// What a repair that is over leaves: the list, and the failure of the
    /// search if it failed.
    pub fn finish(self) -> (r: (Vec<String>, Result<(), IoFailure>))
        requires
            self.wf(),
            self@.finished(),
        ensures
            path_views(r.0@) == self@.paths(),
            r.1 == self@.result(),
            r.0.len() <= self.bound(),
    {
        let Repair { kept, dropped, walker } = self;
        let mut kept = kept;
        let mut dropped = dropped;
        let ghost kept_views = path_views(kept@);
        let ghost dropped_views = path_views(dropped@);
        match walker {
            None => {
                kept.append(&mut dropped);
                assert(path_views(kept@) =~= kept_views + dropped_views);
                (kept, Ok(()))
            },
            Some(w) => match w.finish() {
                Ok(found) => {
                    let mut found = found;
                    let ghost found_views = path_views(found@);
                    kept.append(&mut found);
                    assert(path_views(kept@) =~= kept_views + found_views);
                    (kept, Ok(()))
                },
                Err(e) => {
                    kept.append(&mut dropped);
                    assert(path_views(kept@) =~= kept_views + dropped_views);
                    (kept, Err(e))
                },
            },
        }
    }
}

/// A repair in steps leaves what the repair against the tree leaves: if the
/// search of the repair of `paths` was on the way through the tree `root`
/// and is over, the list and the result are those of `repaired` and
/// `repair_result`.
pub proof fn lemma_repair_follows_tree(
    paths: Seq<Seq<char>>,
    root: Listing,
    valid: spec_fn(Seq<char>) -> bool,
    walk: Option<WalkModel>,
)
    requires
        walk is Some <==> RepairModel::begun(paths, valid).walk is Some,
        walk matches Some(w) ==> tracks(
            w,
            root,
            paths.filter(|p: Seq<char>| !valid(p)).len(),
            valid,
        ) && w.settled() && w.finished(),
    ensures
        (RepairModel { walk, ..RepairModel::begun(paths, valid) }).paths() == repaired(
            root,
            paths,
            valid,
        ),
        (RepairModel { walk, ..RepairModel::begun(paths, valid) }).result() == repair_result(
            root,
            paths,
            valid,
        ),
{
    let dropped = paths.filter(|p: Seq<char>| !valid(p));
    match walk {
        None => {
            lemma_filter_all(paths, valid);
            assert(paths.filter(valid) + dropped =~= paths);
        },
        Some(w) => {
            lemma_walk_ends_with_tree_search(w, root, dropped.len(), valid);
        },
    }
}

/// A filling in steps leaves what the search of the tree finds: if the
/// search for up to `limit` paths was on the way through the tree `root` and
/// is over, the list holds the paths that the depth-first search of the tree
/// finds, and is empty after a failure.
pub proof fn lemma_fill_follows_tree(
    limit: nat,
    root: Listing,
    valid: spec_fn(Seq<char>) -> bool,
    w: WalkModel,
)
    requires
        tracks(w, root, limit, valid),
        w.settled(),
        w.finished(),
    ensures
        ({
            let filled = RepairModel { kept: Seq::empty(), dropped: Seq::empty(), walk: Some(w) };
            let whole = crate::util::cache::tree::walk_dir(root, valid, limit);
            &&& filled.paths() == (if whole.failure is Some {
                Seq::<Seq<char>>::empty()
            } else {
                whole.paths
            })
            &&& filled.result() == (match whole.failure {
                Some(e) => Err::<(), IoFailure>(e),
                None => Ok(()),
            })
        }),
{
    lemma_walk_ends_with_tree_search(w, root, limit, valid);
    let filled = RepairModel { kept: Seq::empty(), dropped: Seq::empty(), walk: Some(w) };
    assert(filled.kept + filled.dropped =~= Seq::<Seq<char>>::empty());
    assert(filled.kept + w.found =~= w.found);
}

} // verus!
