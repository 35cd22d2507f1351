//! Caches of extracted metadata, and the repair of a bounded list of
//! candidate paths.

pub mod laws;
pub mod local;
pub mod model;
pub mod repair;
pub mod session;
pub mod store;
pub mod tree;
pub mod walk_laws;
pub mod walker;

use crate::prelude::IoFailure;
use crate::util::cache::repair::Repair;
use crate::util::cache::tree::{
    accepts, is_predicate, lemma_walk_dir, path_views, walk_dir, walk_entries, Found, Listing,
};
use vstd::prelude::*;

verus! {

/// The validity of a path as `validator` sees it.
pub open spec fn validity<F: Fn(&str) -> bool>(validator: F) -> spec_fn(Seq<char>) -> bool {
    |p: Seq<char>| accepts(validator, p)
}

/// Asks `validator` about `path`.
fn is_valid<F: Fn(&str) -> bool>(validator: &F, path: &String) -> (r: bool)
    requires
        is_predicate(*validator),
    ensures
        r == accepts(*validator, path@),
{
    let p = path.as_str();
    let r = validator(p);
    assert(call_ensures(*validator, (p,), r));
    r
}

/// Searches `dir` depth first and appends to `acc` the paths that
/// `validator` accepts, until `len_limit` of them are found. Each entry's
/// subtree comes before the entry itself. `len_limit` is counted down by the
/// number of paths appended. Stops at the first directory that could not be
/// read and returns its failure.
fn acc_valid_paths<F: Fn(&str) -> bool>(
    dir: &Listing,
    acc: &mut Vec<String>,
    len_limit: &mut usize,
    validator: &F,
) -> (r: Result<(), IoFailure>)
    requires
        is_predicate(*validator),
    ensures
        ({
            let found = walk_dir(*dir, validity(*validator), *old(len_limit) as nat);
            &&& path_views(final(acc)@) == path_views(old(acc)@) + found.paths
            &&& *final(len_limit) == found.budget
            &&& match r {
                Ok(_) => found.failure is None,
                Err(e) => found.failure == Some(e),
            }
        }),
    decreases dir,
{
    let nodes = match dir {
        Listing::Failed(e) => {
            assert(path_views(acc@) =~= path_views(old(acc)@) + Seq::<Seq<char>>::empty());
            return Err(e.duplicate());
        },
        Listing::Entries(nodes) => nodes,
    };
    let ghost valid = validity(*validator);
    let ghost start = *len_limit as nat;
    let mut i: usize = 0;
    proof {
        assert(path_views(acc@) =~= path_views(old(acc)@) + Seq::<Seq<char>>::empty());
    }
    while i < nodes.len() && *len_limit > 0
        invariant
            is_predicate(*validator),
            valid == validity(*validator),
            *dir == Listing::Entries(*nodes),
            start == *old(len_limit) as nat,
            i <= nodes.len(),
            ({
                let rest = walk_entries(nodes@, valid, *len_limit as nat, i as nat);
                let all = walk_entries(nodes@, valid, start, 0);
                &&& all.budget == rest.budget
                &&& all.failure == rest.failure
                &&& path_views(old(acc)@) + all.paths == path_views(acc@) + rest.paths
            }),
        decreases nodes.len() - i,
    {
        let node = &nodes[i];
        let ghost acc_before = acc@;
        let ghost budget_before = *len_limit as nat;
        if let Some(sub) = &node.children {
            let below = acc_valid_paths(sub, acc, len_limit, validator);
            if let Err(e) = below {
                proof {
                    let under = walk_dir(*sub, valid, budget_before);
                    assert(walk_entries(nodes@, valid, budget_before, i as nat) == under);
                    assert(path_views(old(acc)@) + walk_entries(nodes@, valid, start, 0).paths
                        =~= path_views(acc@));
                }
                return Err(e);
            }
        }
        if *len_limit == 0 {
            proof {
                let under = if node.children is Some {
                    walk_dir(node.children->0, valid, budget_before)
                } else {
                    Found { paths: Seq::empty(), budget: budget_before, failure: None }
                };
                assert(walk_entries(nodes@, valid, budget_before, i as nat) == under);
                assert(path_views(old(acc)@) + walk_entries(nodes@, valid, start, 0).paths
                    =~= path_views(acc@));
            }
            return Ok(());
        }
        let ghost acc_below = acc@;
        if is_valid(validator, &node.path) {
            *len_limit -= 1;
            acc.push(node.path.clone());
            proof {
                assert(path_views(acc@) =~= path_views(acc_below) + seq![node.path@]);
            }
        } else {
            proof {
                assert(path_views(acc@) =~= path_views(acc_below) + Seq::<Seq<char>>::empty());
            }
        }
        i += 1;
    }
    Ok(())
}

/// The paths that `validator` accepts, and those that it does not, each in
/// the order they had.
pub fn split_by_validity<F: Fn(&str) -> bool>(
    paths: &Vec<String>,
    validator: &F,
) -> (r: (Vec<String>, Vec<String>))
    requires
        is_predicate(*validator),
    ensures
        path_views(r.0@) == path_views(paths@).filter(validity(*validator)),
        path_views(r.1@) == path_views(paths@).filter(|p: Seq<char>| !validity(*validator)(p)),
        r.0.len() + r.1.len() == paths.len(),
{
    let ghost valid = validity(*validator);
    let ghost before = path_views(paths@);
    let mut kept: Vec<String> = Vec::new();
    let mut dropped: Vec<String> = Vec::new();
    let mut i: usize = 0;
    while i < paths.len()
        invariant
            is_predicate(*validator),
            valid == validity(*validator),
            before == path_views(paths@),
            i <= paths.len(),
            kept.len() + dropped.len() == i,
            path_views(kept@) == before.take(i as int).filter(valid),
            path_views(dropped@) == before.take(i as int).filter(|p: Seq<char>| !valid(p)),
        decreases paths.len() - i,
    {
        let ghost kept_before = kept@;
        let ghost dropped_before = dropped@;
        proof {
            lemma_filter_take(before, valid, i as int);
            lemma_filter_take(before, |p: Seq<char>| !valid(p), i as int);
        }
        if is_valid(validator, &paths[i]) {
            kept.push(paths[i].clone());
            assert(path_views(kept@) =~= path_views(kept_before).push(before[i as int]));
        } else {
            dropped.push(paths[i].clone());
            assert(path_views(dropped@) =~= path_views(dropped_before).push(before[i as int]));
        }
        i += 1;
    }
    proof {
        assert(before.take(paths.len() as int) =~= before);
    }
    (kept, dropped)
}

/// Restores `paths` to full validity. The paths that `validator` accepts
/// move to the front, in the order they had. If there are others, the same
/// number of valid paths is searched under `root`, depth first, and takes
/// their place; where the search finds fewer, the list shrinks. If reading a
/// directory fails, the failure is returned and `paths` holds the valid paths
/// followed by the invalid ones.
pub fn replace_invalid_entries<F: Fn(&str) -> bool>(
    root: &Listing,
    paths: &mut Vec<String>,
    validator: F,
) -> (r: Result<(), IoFailure>)
    requires
        is_predicate(validator),
    ensures
        r == repair_result(*root, path_views(old(paths)@), validity(validator)),
        path_views(final(paths)@) == repaired(
            *root,
            path_views(old(paths)@),
            validity(validator),
        ),
{
    let ghost valid = validity(validator);
    let ghost before = path_views(paths@);
    let (mut kept, mut dropped) = split_by_validity(paths, &validator);
    if dropped.len() == 0 {
        proof {
            lemma_filter_all(before, valid);
        }
        return Ok(());
    }
    let mut len_limit = dropped.len();
    let mut new_valid_paths: Vec<String> = Vec::new();
    let walked = acc_valid_paths(root, &mut new_valid_paths, &mut len_limit, &validator);
    proof {
        assert(path_views(new_valid_paths@) =~= walk_dir(
            *root,
            valid,
            dropped.len() as nat,
        ).paths);
    }
    let ghost kept_views = path_views(kept@);
    match walked {
        Ok(_) => {
            let ghost found_views = path_views(new_valid_paths@);
            kept.append(&mut new_valid_paths);
            assert(path_views(kept@) =~= kept_views + found_views);
            *paths = kept;
            Ok(())
        },
        Err(e) => {
            let ghost dropped_views = path_views(dropped@);
            kept.append(&mut dropped);
            assert(path_views(kept@) =~= kept_views + dropped_views);
            *paths = kept;
            Err(e)
        },
    }
}

/// What the repair of `paths` returns: the failure of the search, if a
/// search was needed and failed.
pub open spec fn repair_result(
    root: Listing,
    paths: Seq<Seq<char>>,
    valid: spec_fn(Seq<char>) -> bool,
) -> Result<(), IoFailure> {
    let invalid = paths.filter(|p: Seq<char>| !valid(p));
    if invalid.len() == 0 {
        Ok(())
    } else {
        match walk_dir(root, valid, invalid.len()).failure {
            Some(e) => Err(e),
            None => Ok(()),
        }
    }
}

/// The list after the repair of `paths`.
pub open spec fn repaired(
    root: Listing,
    paths: Seq<Seq<char>>,
    valid: spec_fn(Seq<char>) -> bool,
) -> Seq<Seq<char>> {
    let invalid = paths.filter(|p: Seq<char>| !valid(p));
    if invalid.len() == 0 {
        paths
    } else {
        let found = walk_dir(root, valid, invalid.len());
        if found.failure is Some {
            paths.filter(valid) + invalid
        } else {
            paths.filter(valid) + found.paths
        }
    }
}

/// Filtering one element more.
proof fn lemma_filter_take<A>(s: Seq<A>, pred: spec_fn(A) -> bool, i: int)
    requires
        0 <= i < s.len(),
    ensures
        s.take(i + 1).filter(pred) == if pred(s[i]) {
            s.take(i).filter(pred).push(s[i])
        } else {
            s.take(i).filter(pred)
        },
{
    reveal(Seq::filter);
    assert(s.take(i + 1).drop_last() =~= s.take(i));
}

/// A list of which the filter drops nothing stays as it is.
pub proof fn lemma_filter_all<A>(s: Seq<A>, pred: spec_fn(A) -> bool)
    requires
        s.filter(|a: A| !pred(a)).len() == 0,
    ensures
        s.filter(pred) == s,
        forall|i: int| 0 <= i < s.len() ==> pred(#[trigger] s[i]),
    decreases s.len(),
{
    reveal(Seq::filter);
    let neg = |a: A| !pred(a);
    if s.len() > 0 {
        let front = s.drop_last();
        assert(front.filter(neg).len() == 0 && pred(s.last())) by {
            if neg(s.last()) {
                assert(s.filter(neg) == front.filter(neg).push(s.last()));
            }
        }
        lemma_filter_all(front, pred);
        assert(s.filter(pred) =~= s);
        assert forall|i: int| 0 <= i < s.len() implies pred(#[trigger] s[i]) by {
            if i < s.len() - 1 {
                assert(front[i] == s[i]);
            }
        }
    } else {
        assert(s.filter(pred) =~= s);
    }
}

/// The first `len_limit` valid paths under `root`, in the order of a depth
/// first search in which each entry's subtree comes before the entry.
pub fn get_initial_entries<F: Fn(&str) -> bool>(
    root: &Listing,
    len_limit: usize,
    validator: F,
) -> (r: Result<Vec<String>, IoFailure>)
    requires
        is_predicate(validator),
    ensures
        ({
            let found = walk_dir(*root, validity(validator), len_limit as nat);
            match r {
                Ok(entries) => found.failure is None && path_views(entries@) == found.paths,
                Err(e) => found.failure == Some(e),
            }
        }),
{
    let mut len_limit = len_limit;
    let mut entries: Vec<String> = Vec::new();
    let walked = acc_valid_paths(root, &mut entries, &mut len_limit, &validator);
    proof {
        assert(path_views(entries@) =~= Seq::<Seq<char>>::empty() + path_views(entries@));
    }
    match walked {
        Ok(_) => Ok(entries),
        Err(e) => Err(e),
    }
}

/// Every path of `paths` is valid.
pub open spec fn all_valid(paths: Seq<Seq<char>>, valid: spec_fn(Seq<char>) -> bool) -> bool {
    forall|i: int| 0 <= i < paths.len() ==> valid(#[trigger] paths[i])
}

/// Filtering keeps what passes the filter, and no more than there was.
proof fn lemma_filter_sound<A>(s: Seq<A>, pred: spec_fn(A) -> bool)
    ensures
        s.filter(pred).len() <= s.len(),
        s.filter(pred).len() + s.filter(|a: A| !pred(a)).len() == s.len(),
        forall|i: int| 0 <= i < s.filter(pred).len() ==> pred(#[trigger] s.filter(pred)[i]),
    decreases s.len(),
{
    reveal(Seq::filter);
    if s.len() > 0 {
        lemma_filter_sound(s.drop_last(), pred);
    }
}

/// A list of valid paths has no invalid ones.
proof fn lemma_none_invalid<A>(s: Seq<A>, pred: spec_fn(A) -> bool)
    requires
        forall|i: int| 0 <= i < s.len() ==> pred(#[trigger] s[i]),
    ensures
        s.filter(|a: A| !pred(a)).len() == 0,
    decreases s.len(),
{
    reveal(Seq::filter);
    if s.len() > 0 {
        let front = s.drop_last();
        assert forall|i: int| 0 <= i < front.len() implies pred(#[trigger] front[i]) by {
            assert(front[i] == s[i]);
        }
        lemma_none_invalid(front, pred);
        assert(pred(s[s.len() - 1]));
    }
}

/// Repair is idempotent on a valid list: where every path is valid, the
/// repair succeeds and leaves the list as it is, whatever the directory
/// tree holds.
pub proof fn lemma_repair_of_valid_list(
    root: Listing,
    paths: Seq<Seq<char>>,
    valid: spec_fn(Seq<char>) -> bool,
)
    requires
        all_valid(paths, valid),
    ensures
        repair_result(root, paths, valid) is Ok,
        repaired(root, paths, valid) == paths,
{
    lemma_none_invalid(paths, valid);
}

/// A repair never leaves more paths than there were, and the valid paths of
/// before stay in front, in their order.
pub proof fn lemma_repair_keeps_valid_prefix(
    root: Listing,
    paths: Seq<Seq<char>>,
    valid: spec_fn(Seq<char>) -> bool,
)
    ensures
        repaired(root, paths, valid).len() <= paths.len(),
        paths.filter(valid).is_prefix_of(repaired(root, paths, valid)),
{
    let invalid = paths.filter(|p: Seq<char>| !valid(p));
    let kept = paths.filter(valid);
    lemma_filter_sound(paths, valid);
    if invalid.len() == 0 {
        lemma_filter_all(paths, valid);
    } else {
        let found = walk_dir(root, valid, invalid.len());
        lemma_walk_dir(root, valid, invalid.len());
        if found.failure is Some {
            assert(kept.is_prefix_of(kept + invalid));
        } else {
            assert(kept.is_prefix_of(kept + found.paths));
        }
    }
}

/// A repair that succeeds leaves only valid paths, and a second repair then
/// changes nothing.
pub proof fn lemma_repair_restores_validity(
    root: Listing,
    paths: Seq<Seq<char>>,
    valid: spec_fn(Seq<char>) -> bool,
)
    requires
        repair_result(root, paths, valid) is Ok,
    ensures
        all_valid(repaired(root, paths, valid), valid),
        repaired(root, repaired(root, paths, valid), valid) == repaired(root, paths, valid),
        repair_result(root, repaired(root, paths, valid), valid) is Ok,
{
    let invalid = paths.filter(|p: Seq<char>| !valid(p));
    let kept = paths.filter(valid);
    let after = repaired(root, paths, valid);
    if invalid.len() == 0 {
        lemma_filter_all(paths, valid);
    } else {
        let found = walk_dir(root, valid, invalid.len());
        lemma_walk_dir(root, valid, invalid.len());
        lemma_filter_sound(paths, valid);
        assert(after == kept + found.paths);
        assert forall|i: int| 0 <= i < after.len() implies valid(#[trigger] after[i]) by {
            if i < kept.len() {
                assert(after[i] == kept[i]);
            } else {
                assert(after[i] == found.paths[i - kept.len()]);
            }
        }
    }
    lemma_repair_of_valid_list(root, after, valid);
}

/// A bounded, ordered list of paths that were valid when it was last
/// repaired.
pub struct PathCandidateSet {
    paths: Vec<String>,
    limit: usize,
}

impl PathCandidateSet {
    /// The list is no longer than its limit.
    pub closed spec fn wf(&self) -> bool {
        self.paths.len() <= self.limit
    }

    /// The paths, in order.
    pub closed spec fn view(&self) -> Seq<Seq<char>> {
        path_views(self.paths@)
    }

    /// The greatest length the list may have.
    pub closed spec fn spec_limit(&self) -> nat {
        self.limit as nat
    }

    /// A well-formed list keeps within its limit.
    pub proof fn lemma_within_limit(&self)
        requires
            self.wf(),
        ensures
            self@.len() <= self.spec_limit(),
    {
    }

    /// An empty list that may grow to `limit` paths.
    pub fn new(limit: usize) -> (r: Self)
        ensures
            r.wf(),
            r@ == Seq::<Seq<char>>::empty(),
            r.spec_limit() == limit,
    {
        let r = PathCandidateSet { paths: Vec::new(), limit };
        assert(r@ =~= Seq::<Seq<char>>::empty());
        r
    }

    /// A list with the paths of an earlier one. `None` if there are more
    /// paths than `limit`.
    pub fn from_snapshot(paths: Vec<String>, limit: usize) -> (r: Option<Self>)
        ensures
            r is Some <==> paths.len() <= limit,
            r matches Some(set) ==> set.wf() && set@ == path_views(paths@) && set.spec_limit()
                == limit,
    {
        if paths.len() <= limit {
            Some(PathCandidateSet { paths, limit })
        } else {
            None
        }
    }

    /// The paths, in order.
    pub fn paths(&self) -> (r: &Vec<String>)
        ensures
            path_views(r@) == self@,
    {
        &self.paths
    }

    /// The greatest length the list may have.
    pub fn limit(&self) -> (r: usize)
        ensures
            r == self.spec_limit(),
    {
        self.limit
    }

    /// Begins a repair in steps, with a search below `root`: the filling of
    /// an empty list up to its limit, or the replacement of the invalid
    /// paths of any other list.
    pub fn begin_repair<F: Fn(&str) -> bool>(&self, root: String, validator: &F) -> (r: Repair)
        requires
            self.wf(),
            is_predicate(*validator),
        ensures
            r.wf(),
            r.bound() <= self.spec_limit(),
            r@ == (if self@.len() == 0 {
                crate::util::cache::repair::RepairModel {
                    kept: Seq::empty(),
                    dropped: Seq::empty(),
                    walk: Some(crate::util::cache::walker::fresh_walk(self.spec_limit())),
                }
            } else {
                crate::util::cache::repair::RepairModel::begun(self@, validity(*validator))
            }),
    {
        proof {
            lemma_filter_sound(self@, validity(*validator));
        }
        if self.paths.len() == 0 {
            Repair::fill(root, self.limit)
        } else {
            Repair::start(root, &self.paths, validator)
        }
    }

    /// Ends a repair in steps: the list is what the repair leaves, and the
    /// failure of the search is returned if it failed.
    pub fn end_repair(&mut self, repair: Repair) -> (r: Result<(), IoFailure>)
        requires
            old(self).wf(),
            repair.wf(),
            repair@.finished(),
            repair.bound() <= old(self).spec_limit(),
        ensures
            final(self).wf(),
            final(self).spec_limit() == old(self).spec_limit(),
            final(self)@ == repair@.paths(),
            r == repair@.result(),
    {
        let (paths, result) = repair.finish();
        self.paths = paths;
        result
    }

    /// The list after a repair against the tree `root`.
    pub open spec fn repaired(
        self,
        root: Listing,
        valid: spec_fn(Seq<char>) -> bool,
    ) -> Seq<Seq<char>> {
        if self@.len() == 0 {
            let found = walk_dir(root, valid, self.spec_limit());
            if found.failure is Some {
                self@
            } else {
                found.paths
            }
        } else {
            repaired(root, self@, valid)
        }
    }

    /// What a repair against the tree `root` returns.
    pub open spec fn repair_result(
        self,
        root: Listing,
        valid: spec_fn(Seq<char>) -> bool,
    ) -> Result<(), IoFailure> {
        if self@.len() == 0 {
            match walk_dir(root, valid, self.spec_limit()).failure {
                Some(e) => Err(e),
                None => Ok(()),
            }
        } else {
            repair_result(root, self@, valid)
        }
    }

    /// Restores the list to full validity: an empty list is filled from
    /// scratch with up to `limit` valid paths found under `root`; in any other
    /// list the invalid paths are replaced by as many valid ones found under
    /// `root`, or by fewer if no more are found. If reading a directory fails,
    /// the failure is returned: an empty list then stays empty, and any other
    /// holds its valid paths followed by its invalid ones.
    pub fn repair<F: Fn(&str) -> bool>(
        &mut self,
        root: &Listing,
        validator: F,
    ) -> (r: Result<(), IoFailure>)
        requires
            old(self).wf(),
            is_predicate(validator),
        ensures
            final(self).wf(),
            final(self).spec_limit() == old(self).spec_limit(),
            r == old(self).repair_result(*root, validity(validator)),
            final(self)@ == old(self).repaired(*root, validity(validator)),
    {
        proof {
            lemma_walk_dir(*root, validity(validator), self.limit as nat);
            lemma_repair_keeps_valid_prefix(*root, self@, validity(validator));
        }
        if self.paths.len() == 0 {
            match get_initial_entries(root, self.limit, validator) {
                Ok(entries) => {
                    self.paths = entries;
                    Ok(())
                },
                Err(e) => Err(e),
            }
        } else {
            replace_invalid_entries(root, &mut self.paths, validator)
        }
    }
}

} // verus!
