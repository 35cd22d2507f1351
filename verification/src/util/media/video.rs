//! The analyzer of video files.

use crate::util::file_types::FileExt;
use crate::util::media::meta::{DateKind, MediaDuration, MediaMeta, UtcTime};
use vstd::prelude::*;

verus! {

/// Reads the header of video containers.
#[derive(Clone, Copy, Debug, PartialEq, Eq, Structural)]
pub struct VideoAnalyzer;

/// How the video analyzer reads a file.
#[derive(Clone, Copy, Debug, PartialEq, Eq, Structural)]
pub enum VideoReader {
    /// As a Matroska container.
    Matroska,
    /// With the probe that reads audio tags.
    Iso4,
}

impl VideoAnalyzer {
    /// Whether files with the extension `ext` go to this analyzer.
    pub fn serves(&self, ext: FileExt) -> (r: bool)
        ensures
            r == (!ext.is_audio() && ext.is_video()),
    {
        !ext.is_audio() && ext.is_video()
    }

    /// The reader for a file with the extension `ext`: Matroska where the
    /// extension is one of that container, else the tag probe where it can
    /// read the format, else none.
    pub fn reader_for(&self, ext: FileExt) -> (r: Option<VideoReader>)
        ensures
            r == (if ext.is_matroska() {
                Some(VideoReader::Matroska)
            } else if ext.is_iso4() {
                Some(VideoReader::Iso4)
            } else {
                None
            }),
    {
        if ext.is_matroska() {
            Some(VideoReader::Matroska)
        } else if ext.is_iso4() {
            Some(VideoReader::Iso4)
        } else {
            None
        }
    }
}

/// What the header of a Matroska container tells of the file.
#[derive(Debug)]
pub struct Info {
    pub title: Option<String>,
    pub duration: Option<MediaDuration>,
    /// When the file was made.
    pub date_utc: Option<UtcTime>,
}

impl Info {
    /// The header has a title, a duration and a date.
    pub open spec fn is_complete(&self) -> bool {
        self.title is Some && self.duration is Some && self.date_utc is Some
    }

    /// The record for the file named `file_name`: title, duration and date
    /// from the header, and nothing else. `None` unless the header has all
    /// three.
    pub fn into_meta(self, file_name: String) -> (r: Option<MediaMeta>)
        ensures
            r is Some <==> self.is_complete(),
            r matches Some(meta) ==> {
                &&& meta.file_name == file_name
                &&& meta.file_path@ == Seq::<char>::empty()
                &&& meta.title == self.title
                &&& meta.duration == self.duration
                &&& self.date_utc matches Some(made)
                &&& meta.date == Some(DateKind::Chrono { secs: made.secs, nanos: made.nanos })
                &&& meta.author is None
                &&& meta.stats is None
                &&& !meta.display_extra
                &&& meta.extra is None
            },
    {
        let Info { title, duration, date_utc } = self;
        if title.is_none() || duration.is_none() {
            return None;
        }
        match date_utc {
            None => None,
            Some(UtcTime { secs, nanos }) => Some(
                MediaMeta {
                    file_path: String::new(),
                    file_name,
                    title,
                    author: None,
                    duration,
                    date: Some(DateKind::Chrono { secs, nanos }),
                    stats: None,
                    display_extra: false,
                    extra: None,
                },
            ),
        }
    }
}

} // verus!
