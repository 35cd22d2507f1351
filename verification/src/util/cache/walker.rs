//! The search for valid paths, one directory at a time: the walker names the
//! directory it needs next, the caller reads it and feeds the listing back.
//! No directory is read that the search does not reach.

use crate::prelude::IoFailure;
use crate::util::cache::tree::{is_predicate, path_views};
use crate::util::cache::{is_valid, validity};
use vstd::prelude::*;

verus! {

/// An entry of a directory, as its listing shows it.
#[derive(Debug)]
pub struct DirEntry {
    /// The entry's full path.
    pub path: String,
    pub is_dir: bool,
}

/// An entry of a directory.
pub struct EntryModel {
    pub path: Seq<char>,
    pub is_dir: bool,
}

/// A directory under search: its entries, and the index of the entry that
/// the search has reached.
pub struct FrameModel {
    pub entries: Seq<EntryModel>,
    pub next: int,
}

/// The state of a search.
pub struct WalkModel {
    /// The directories under search, the outermost first. Each but the last
    /// has reached the entry that led into the next.
    pub frames: Seq<FrameModel>,
    /// The valid paths found, in the order in which they were found.
    pub found: Seq<Seq<char>>,
    /// How many paths may be taken in all.
    pub limit: nat,
    /// How many more paths may be taken.
    pub budget: nat,
    /// The failure that stopped the search, if one did.
    pub failure: Option<IoFailure>,
    /// Whether the search waits for a listing: that of the root while there
    /// is no frame, else that of the entry that the last frame has reached.
    pub waiting: bool,
}

/// The entries that a listing shows.
pub open spec fn entries_model(entries: Seq<DirEntry>) -> Seq<EntryModel> {
    Seq::new(entries.len(), |i: int| EntryModel { path: entries[i].path@, is_dir: entries[i].is_dir })
}

/// What a listing is to the search.
pub open spec fn listing_model(listing: Result<Vec<DirEntry>, IoFailure>) -> Result<
    Seq<EntryModel>,
    IoFailure,
> {
    match listing {
        Ok(entries) => Ok(entries_model(entries@)),
        Err(e) => Err(e),
    }
}

impl FrameModel {
    /// The entries that are still to be handled.
    pub open spec fn left(self) -> nat {
        if 0 <= self.next <= self.entries.len() {
            (self.entries.len() - self.next) as nat
        } else {
            0
        }
    }

    /// The frame with the next entry reached.
    pub open spec fn step(self) -> FrameModel {
        FrameModel { next: self.next + 1, ..self }
    }
}

/// A bound on the steps that the search can take without a new listing.
pub open spec fn work(frames: Seq<FrameModel>) -> nat
    decreases frames.len(),
{
    if frames.len() == 0 {
        0
    } else {
        work(frames.drop_last()) + frames.last().left() + 1
    }
}

impl WalkModel {
    /// The paths found and the budget left make up the limit; every frame
    /// has reached an entry or the end of its entries; every frame but the
    /// last has reached an entry; and a search that waits for the listing of
    /// an entry has budget left and has reached a directory.
    pub open spec fn wf(self) -> bool {
        &&& self.found.len() + self.budget == self.limit
        &&& forall|k: int|
            0 <= k < self.frames.len() ==> 0 <= (#[trigger] self.frames[k]).next
                <= self.frames[k].entries.len()
        &&& forall|k: int|
            0 <= k < self.frames.len() - 1 ==> (#[trigger] self.frames[k]).next
                < self.frames[k].entries.len()
        &&& self.waiting && self.frames.len() > 0 ==> {
            &&& self.budget > 0
            &&& self.frames.last().next < self.frames.last().entries.len()
            &&& self.frames.last().entries[self.frames.last().next].is_dir
        }
        &&& self.failure is Some ==> !self.waiting
    }

    /// The search has come to rest: it waits for a listing, or it is over.
    pub open spec fn settled(self) -> bool {
        self.waiting || self.failure is Some || self.budget == 0 || self.frames.len() == 0
    }

    /// The search is over.
    pub open spec fn finished(self) -> bool {
        !self.waiting
    }

    /// What a search that is over has to show.
    pub open spec fn result(self) -> Result<Seq<Seq<char>>, IoFailure> {
        match self.failure {
            Some(e) => Err(e),
            None => Ok(self.found),
        }
    }

    /// The search after the entry at `path` was tested: a valid path is
    /// taken and counted against the budget.
    pub open spec fn tested(self, path: Seq<char>, valid: spec_fn(Seq<char>) -> bool) -> WalkModel {
        if valid(path) {
            WalkModel { found: self.found.push(path), budget: (self.budget - 1) as nat, ..self }
        } else {
            self
        }
    }

    /// The search with its last frame moved on by one entry.
    pub open spec fn moved_on(self) -> WalkModel {
        WalkModel { frames: self.frames.drop_last().push(self.frames.last().step()), ..self }
    }

    /// The search carried on as far as it goes without a new listing. A file
    /// is tested and passed. A directory makes the search wait for its
    /// listing. At the end of a directory's entries the search returns to
    /// the entry that led into it, tests it and passes it. The search stops
    /// as soon as the budget is used up, and when the root's entries are
    /// done.
    pub open spec fn advance(self, valid: spec_fn(Seq<char>) -> bool) -> WalkModel
        decreases work(self.frames),
        via Self::advance_decreases
    {
        if self.budget == 0 || self.frames.len() == 0 {
            self
        } else {
            let top = self.frames.last();
            if top.next < 0 {
                self
            } else if top.next >= top.entries.len() {
                let back = WalkModel { frames: self.frames.drop_last(), ..self };
                if back.frames.len() == 0 {
                    back
                } else {
                    let parent = back.frames.last();
                    if 0 <= parent.next < parent.entries.len() {
                        back.tested(parent.entries[parent.next].path, valid).moved_on().advance(
                            valid,
                        )
                    } else {
                        back
                    }
                }
            } else if top.entries[top.next].is_dir {
                WalkModel { waiting: true, ..self }
            } else {
                self.tested(top.entries[top.next].path, valid).moved_on().advance(valid)
            }
        }
    }

    #[via_fn]
    proof fn advance_decreases(self, valid: spec_fn(Seq<char>) -> bool) {
        if self.budget != 0 && self.frames.len() != 0 {
            let top = self.frames.last();
            if top.next >= top.entries.len() {
                let back = WalkModel { frames: self.frames.drop_last(), ..self };
                if back.frames.len() > 0 {
                    let parent = back.frames.last();
                    if 0 <= parent.next < parent.entries.len() {
                        let after = back.tested(parent.entries[parent.next].path, valid).moved_on();
                        assert(after.frames.drop_last() =~= back.frames.drop_last());
                        assert(after.frames.last() == parent.step());
                        assert(work(self.frames) == work(back.frames) + top.left() + 1);
                        assert(work(back.frames) == work(back.frames.drop_last()) + parent.left()
                            + 1);
                        assert(work(after.frames) == work(after.frames.drop_last())
                            + parent.step().left() + 1);
                    }
                }
            } else if top.next >= 0 && !top.entries[top.next].is_dir {
                let after = self.tested(top.entries[top.next].path, valid).moved_on();
                assert(after.frames.drop_last() =~= self.frames.drop_last());
                assert(after.frames.last() == top.step());
                assert(work(self.frames) == work(self.frames.drop_last()) + top.left() + 1);
                assert(work(after.frames) == work(after.frames.drop_last()) + top.step().left()
                    + 1);
            }
        }
    }

    /// The search after the listing it waited for came in. A failure to read
    /// the directory ends the search. Else the directory's entries are
    /// searched next.
    pub open spec fn fed(
        self,
        listing: Result<Seq<EntryModel>, IoFailure>,
        valid: spec_fn(Seq<char>) -> bool,
    ) -> WalkModel {
        match listing {
            Err(e) => WalkModel { failure: Some(e), waiting: false, ..self },
            Ok(entries) => WalkModel {
                frames: self.frames.push(FrameModel { entries, next: 0 }),
                waiting: false,
                ..self
            }.advance(valid),
        }
    }
}

/// A search that has not begun: it waits for the listing of the root.
pub open spec fn fresh_walk(len_limit: nat) -> WalkModel {
    WalkModel {
        frames: Seq::empty(),
        found: Seq::empty(),
        limit: len_limit,
        budget: len_limit,
        failure: None,
        waiting: true,
    }
}

/// Moving the last frame on by one entry takes one step off the work.
pub proof fn lemma_work_moved_on(frames: Seq<FrameModel>)
    requires
        frames.len() > 0,
        0 <= frames.last().next < frames.last().entries.len(),
    ensures
        work(frames.drop_last().push(frames.last().step())) + 1 == work(frames),
{
    let after = frames.drop_last().push(frames.last().step());
    assert(after.drop_last() =~= frames.drop_last());
    assert(after.last() == frames.last().step());
}

/// A directory under search, as the walker holds it.
struct Frame {
    entries: Vec<DirEntry>,
    next: usize,
}

spec fn frame_model(frame: Frame) -> FrameModel {
    FrameModel { entries: entries_model(frame.entries@), next: frame.next as int }
}

spec fn frames_model(stack: Seq<Frame>) -> Seq<FrameModel> {
    Seq::new(stack.len(), |k: int| frame_model(stack[k]))
}

/// A search for valid paths below a root directory that reads one directory
/// at a time.
pub struct Walker {
    root: String,
    stack: Vec<Frame>,
    acc: Vec<String>,
    initial_limit: usize,
    len_limit: usize,
    failure: Option<IoFailure>,
    waiting: bool,
}

impl View for Walker {
    type V = WalkModel;

    closed spec fn view(&self) -> WalkModel {
        WalkModel {
            frames: frames_model(self.stack@),
            found: path_views(self.acc@),
            limit: self.initial_limit as nat,
            budget: self.len_limit as nat,
            failure: self.failure,
            waiting: self.waiting,
        }
    }
}

impl Walker {
    /// The walker's state is well formed.
    pub closed spec fn wf(&self) -> bool {
        self@.wf()
    }

    /// The directory below which the search goes.
    pub closed spec fn spec_root(&self) -> Seq<char> {
        self.root@
    }

    /// The directory whose listing the search waits for.
    pub open spec fn wanted(&self) -> Seq<char> {
        if self@.frames.len() == 0 {
            self.spec_root()
        } else {
            self@.frames.last().entries[self@.frames.last().next].path
        }
    }

    /// A well-formed walker has a well-formed state.
    pub proof fn lemma_wf_model(&self)
        requires
            self.wf(),
        ensures
            self@.wf(),
    {
    }

    /// A search below `root` for up to `len_limit` valid paths. It begins by
    /// waiting for the listing of `root`.
    pub fn start(root: String, len_limit: usize) -> (r: Self)
        ensures
            r.wf(),
            r@ == fresh_walk(len_limit as nat),
            r.spec_root() == root@,
    {
        let r = Walker {
            root,
            stack: Vec::new(),
            acc: Vec::new(),
            initial_limit: len_limit,
            len_limit,
            failure: None,
            waiting: true,
        };
        assert(r@.frames =~= Seq::<FrameModel>::empty());
        assert(r@.found =~= Seq::<Seq<char>>::empty());
        r
    }

    /// The directory to read next, if the search waits for one.
    pub fn pending(&self) -> (r: Option<&str>)
        requires
            self.wf(),
        ensures
            r is Some <==> self@.waiting,
            r matches Some(dir) ==> dir@ == self.wanted(),
    {
        if !self.waiting {
            None
        } else if self.stack.len() == 0 {
            Some(self.root.as_str())
        } else {
            let top = &self.stack[self.stack.len() - 1];
            assert(self@.frames.last() == frame_model(*top));
            Some(top.entries[top.next].path.as_str())
        }
    }

    /// Whether the search is over.
    pub fn is_finished(&self) -> (r: bool)
        ensures
            r == self@.finished(),
    {
        !self.waiting
    }

    /// Tests the entry that the last frame has reached, takes its path if it
    /// is valid, and moves the frame on.
    fn pass_entry<F: Fn(&str) -> bool>(&mut self, validator: &F)
        requires
            is_predicate(*validator),
            old(self)@.frames.len() > 0,
            0 <= old(self)@.frames.last().next < old(self)@.frames.last().entries.len(),
            old(self)@.budget > 0,
        ensures
            final(self)@ == old(self)@.tested(
                old(self)@.frames.last().entries[old(self)@.frames.last().next].path,
                validity(*validator),
            ).moved_on(),
            final(self).root == old(self).root,
    {
        let d = self.stack.len();
        let ghost top = self@.frames.last();
        assert(top == frame_model(self.stack[d - 1]));
        let next = self.stack[d - 1].next;
        assert(next < self.stack[d - 1].entries.len());
        let ghost acc_before = self.acc@;
        if is_valid(validator, &self.stack[d - 1].entries[next].path) {
            let path = self.stack[d - 1].entries[next].path.clone();
            self.len_limit = self.len_limit - 1;
            self.acc.push(path);
            assert(path_views(self.acc@) =~= path_views(acc_before).push(top.entries[top.next].path));
        }
        self.stack[d - 1].next = next + 1;
        assert(self@.frames =~= old(self)@.frames.drop_last().push(top.step()));
    }

    /// Takes the listing that the search waited for and carries the search
    /// on until it needs another listing or is over.
    pub fn feed<F: Fn(&str) -> bool>(
        &mut self,
        listing: Result<Vec<DirEntry>, IoFailure>,
        validator: &F,
    )
        requires
            old(self).wf(),
            old(self)@.waiting,
            is_predicate(*validator),
        ensures
            final(self).wf(),
            final(self).spec_root() == old(self).spec_root(),
            final(self)@ == old(self)@.fed(listing_model(listing), validity(*validator)),
            final(self)@.settled(),
            final(self)@.limit == old(self)@.limit,
    {
        let ghost valid = validity(*validator);
        self.waiting = false;
        match listing {
            Err(e) => {
                self.failure = Some(e);
                return ;
            },
            Ok(entries) => {
                self.stack.push(Frame { entries, next: 0 });
            },
        }
        let ghost begun = self@;
        assert(begun.frames =~= old(self)@.frames.push(
            FrameModel { entries: listing_model(listing)->Ok_0, next: 0 },
        ));
        loop
            invariant
                is_predicate(*validator),
                valid == validity(*validator),
                self.root == old(self).root,
                self.initial_limit == old(self).initial_limit,
                !self.waiting,
                self.failure is None,
                self@.wf(),
                self@.advance(valid) == begun.advance(valid),
                old(self)@.fed(listing_model(listing), valid) == begun.advance(valid),
            decreases work(self@.frames),
        {
            if self.len_limit == 0 || self.stack.len() == 0 {
                return ;
            }
            let ghost before = self@;
            let d = self.stack.len();
            assert(before.frames.last() == frame_model(self.stack[d - 1]));
            if self.stack[d - 1].next >= self.stack[d - 1].entries.len() {
                self.stack.pop();
                assert(self@.frames =~= before.frames.drop_last());
                if self.stack.len() == 0 {
                    return ;
                }
                proof {
                    lemma_work_moved_on(self@.frames);
                }
                self.pass_entry(validator);
            } else if self.stack[d - 1].entries[self.stack[d - 1].next].is_dir {
                self.waiting = true;
                return ;
            } else {
                proof {
                    lemma_work_moved_on(self@.frames);
                }
                self.pass_entry(validator);
            }
        }
    }

    /// What the search has to show once it is over: the valid paths found,
    /// or the failure that stopped it.
    pub fn finish(self) -> (r: Result<Vec<String>, IoFailure>)
        requires
            self.wf(),
            self@.finished(),
        ensures
            match r {
                Ok(found) => self@.result() == Ok::<Seq<Seq<char>>, IoFailure>(path_views(found@))
                    && found.len() <= self@.limit,
                Err(e) => self@.result() == Err::<Seq<Seq<char>>, IoFailure>(e),
            },
    {
        match self.failure {
            Some(e) => Err(e),
            None => Ok(self.acc),
        }
    }
}

} // verus!
