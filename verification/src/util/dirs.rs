//! The size of a directory: the tally of a walk through it.

use crate::prelude::{decimal, u64_to_string};
use vstd::prelude::*;
use vstd::string::*;

verus! {

/// What a walk through a directory found.
#[derive(Debug)]
pub struct DirMeta {
    pub path: String,
    /// The bytes that the directory's entries take on disk.
    pub disk_size: u64,
    /// The number of entries whose size is known.
    pub num_files: u64,
}

impl DirMeta {
    /// The directory's metadata as text: its path, the number of its files
    /// and its size on disk.
    pub open spec fn text(&self) -> Seq<char> {
        "path: "@ + self.path@ + "\n"@ + decimal(self.num_files as nat) + " files\ndisk size: <"@
            + decimal(self.disk_size as nat) + ">"@
    }

    /// The directory's metadata as text.
    pub fn to_string(&self) -> (r: String)
        ensures
            r@ == self.text(),
    {
        let mut out = String::from_str("path: ");
        out.append(self.path.as_str());
        out.append("\n");
        out.append(u64_to_string(self.num_files).as_str());
        out.append(" files\ndisk size: <");
        out.append(u64_to_string(self.disk_size).as_str());
        out.append(">");
        assert(out@ =~= self.text());
        out
    }
}

/// What happened at one entry of a walk.
#[derive(Clone, Copy, Debug, PartialEq, Eq, Structural)]
pub enum WalkEvent {
    /// The entry takes this many bytes on disk.
    Sized(u64),
    /// The entry's size on disk could not be found.
    SizeUnknown,
    /// The entry, or the directory it is in, could not be read.
    Unreadable,
}

/// The running tally of a walk.
#[derive(Clone, Copy, Debug, Default, PartialEq, Eq, Structural)]
pub struct DirWalker {
    pub total: u64,
    pub dir_ent_count: u64,
    pub io_err_count: u16,
    pub filesize_err_count: u16,
}

impl DirWalker {
    /// The tally has room for `event`.
    pub open spec fn has_room(&self, event: WalkEvent) -> bool {
        match event {
            WalkEvent::Sized(size) => self.total + size <= u64::MAX && self.dir_ent_count
                < u64::MAX,
            WalkEvent::SizeUnknown => self.filesize_err_count < u16::MAX,
            WalkEvent::Unreadable => self.io_err_count < u16::MAX,
        }
    }

    /// The tally after `event`.
    pub open spec fn after(&self, event: WalkEvent) -> DirWalker {
        match event {
            WalkEvent::Sized(size) => DirWalker {
                total: (self.total + size) as u64,
                dir_ent_count: (self.dir_ent_count + 1) as u64,
                ..*self
            },
            WalkEvent::SizeUnknown => DirWalker {
                filesize_err_count: (self.filesize_err_count + 1) as u16,
                ..*self
            },
            WalkEvent::Unreadable => DirWalker {
                io_err_count: (self.io_err_count + 1) as u16,
                ..*self
            },
        }
    }

    /// A tally of nothing.
    pub fn new() -> (r: Self)
        ensures
            r == (DirWalker { total: 0, dir_ent_count: 0, io_err_count: 0, filesize_err_count: 0 }),
    {
        DirWalker { total: 0, dir_ent_count: 0, io_err_count: 0, filesize_err_count: 0 }
    }

    /// Whether the tally has room for `event`.
    pub fn can_record(&self, event: WalkEvent) -> (r: bool)
        ensures
            r == self.has_room(event),
    {
        match event {
            WalkEvent::Sized(size) => size <= u64::MAX - self.total && self.dir_ent_count
                < u64::MAX,
            WalkEvent::SizeUnknown => self.filesize_err_count < u16::MAX,
            WalkEvent::Unreadable => self.io_err_count < u16::MAX,
        }
    }

    /// Adds `event` to the tally: a size to the total and the count of
    /// entries, a failure to the count of its kind.
    pub fn record(&mut self, event: WalkEvent)
        requires
            old(self).has_room(event),
        ensures
            *final(self) == old(self).after(event),
    {
        match event {
            WalkEvent::Sized(size) => {
                self.total = self.total + size;
                self.dir_ent_count = self.dir_ent_count + 1;
            },
            WalkEvent::SizeUnknown => {
                self.filesize_err_count = self.filesize_err_count + 1;
            },
            WalkEvent::Unreadable => {
                self.io_err_count = self.io_err_count + 1;
            },
        }
    }

    /// The metadata of the directory at `path`, from the tally of the walk
    /// through it.
    pub fn into_meta(self, path: String) -> (r: DirMeta)
        ensures
            r.path == path,
            r.disk_size == self.total,
            r.num_files == self.dir_ent_count,
    {
        DirMeta { path, disk_size: self.total, num_files: self.dir_ent_count }
    }
}

} // verus!
