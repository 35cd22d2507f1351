//! The analyzer of source code.

use crate::util::dev::{collect_into_stats, countable, sums_up, LanguageReports};
use crate::util::file_types::FileExt;
use crate::util::media::meta::MediaMeta;
use vstd::prelude::*;
use vstd::string::*;

verus! {

/// Counts lines of code and of comments.
#[derive(Clone, Copy, Debug, PartialEq, Eq, Structural)]
pub struct CodeAnalyzer;

impl CodeAnalyzer {
    /// Whether files with the extension `ext` go to this analyzer.
    pub fn serves(&self, ext: FileExt) -> (r: bool)
        ensures
            r == (!ext.is_audio() && !ext.is_video() && ext.is_dev()),
    {
        !ext.is_audio() && !ext.is_video() && ext.is_dev()
    }
}

/// The record for the directory named `file_name` from the counts of its
/// languages: the statistics of each language, and nothing else.
pub fn into_meta(
    lang_children: &Vec<LanguageReports>,
    file_name: String,
) -> (r: Option<MediaMeta>)
    requires
        countable(lang_children@),
    ensures
        r matches Some(meta) && {
            &&& meta.file_name == file_name
            &&& meta.file_path@ == Seq::<char>::empty()
            &&& meta.stats matches Some(stats)
            &&& stats.len() == lang_children.len()
            &&& forall|i: int| 0 <= i < stats.len() ==> sums_up(#[trigger] stats[i], lang_children[i])
            &&& meta.title is None
            &&& meta.author is None
            &&& meta.duration is None
            &&& meta.date is None
            &&& !meta.display_extra
            &&& meta.extra is None
        },
{
    let stats = collect_into_stats(lang_children);
    Some(
        MediaMeta {
            file_path: String::new(),
            file_name,
            title: None,
            author: None,
            duration: None,
            date: None,
            stats: Some(stats),
            display_extra: false,
            extra: None,
        },
    )
}

/// What a record shows of a readme with the contents `readme`.
pub open spec fn readme_text(readme: Seq<char>) -> Seq<char> {
    "Readme:\n"@ + readme
}

/// Puts the contents of a readme into a record as its extra text, to be
/// shown with the rest. Where there is no record, nothing happens.
pub fn attach_readme(media_meta: &mut Option<MediaMeta>, readme: &str)
    ensures
        match *old(media_meta) {
            Some(before) => *final(media_meta) matches Some(after) && {
                &&& after.extra matches Some(extra)
                &&& extra@ == readme_text(readme@)
                &&& after.display_extra
                &&& after.file_path == before.file_path
                &&& after.file_name == before.file_name
                &&& after.title == before.title
                &&& after.author == before.author
                &&& after.duration == before.duration
                &&& after.date == before.date
                &&& after.stats == before.stats
            },
            None => *final(media_meta) is None,
        },
{
    let mut readme_contents = String::from_str("Readme:\n");
    readme_contents.append(readme);
    if let Some(meta) = media_meta {
        meta.extra = Some(readme_contents);
        meta.display_extra = true;
    }
}

} // verus!
