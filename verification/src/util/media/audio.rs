//! The analyzer of audio files.

use crate::util::file_types::FileExt;
use crate::util::iso4::{
    date_text, extra_of, first_value, last_value, lemma_no_unknown_no_extra, lemma_tag_step,
    text_of, unknown_count, StandardTagKey, Tag, TagError,
};
use crate::util::media::meta::{DateKind, MediaMeta};
use vstd::prelude::*;
use vstd::string::*;

verus! {

/// Reads the tags of audio files.
#[derive(Clone, Copy, Debug, PartialEq, Eq, Structural)]
pub struct AudioAnalyzer;

impl AudioAnalyzer {
    /// Whether files with the extension `ext` go to this analyzer.
    pub fn serves(&self, ext: FileExt) -> (r: bool)
        ensures
            r == ext.is_audio(),
    {
        ext.is_audio()
    }
}

/// The tag has the standard meaning `key`.
pub open spec fn has_key(tag: Tag, key: StandardTagKey) -> bool {
    tag.std_key == Some(key)
}

/// The tag names someone who stands in for the artist.
pub open spec fn is_credit(tag: Tag) -> bool {
    has_key(tag, StandardTagKey::AlbumArtist) || has_key(tag, StandardTagKey::Composer)
        || has_key(tag, StandardTagKey::Writer)
}

/// The author that `tags` give: the last artist; where no tag names an
/// artist, the first album artist, composer or writer.
pub open spec fn author_of(tags: Seq<Tag>) -> Option<Seq<char>> {
    match last_value(tags, |t: Tag| has_key(t, StandardTagKey::Artist)) {
        Some(artist) => Some(artist),
        None => first_value(tags, |t: Tag| is_credit(t)),
    }
}

/// The record that an audio file's `tags` give for the file named `name`:
/// title, author and date from the last tag of each meaning, empty values
/// included, and the tags without standard meaning as extra text.
pub open spec fn is_audio_meta_of(meta: MediaMeta, tags: Seq<Tag>, name: Seq<char>) -> bool {
    &&& meta.file_name@ == name
    &&& meta.file_path@ == Seq::<char>::empty()
    &&& text_of(meta.title) == last_value(tags, |t: Tag| has_key(t, StandardTagKey::TrackTitle))
    &&& text_of(meta.author) == author_of(tags)
    &&& meta.date is Some <==> last_value(
        tags,
        |t: Tag| has_key(t, StandardTagKey::OriginalDate),
    ) is Some
    &&& date_text(meta.date) == last_value(
        tags,
        |t: Tag| has_key(t, StandardTagKey::OriginalDate),
    )
    &&& meta.duration is None
    &&& meta.stats is None
    &&& !meta.display_extra
    &&& text_of(meta.extra) == Some(extra_of(tags))
}

/// The record for the audio file named `file_name` from its tags. Fails if
/// there are no tags.
pub fn into_meta(tags: &Vec<Tag>, file_name: String) -> (r: Result<MediaMeta, TagError>)
    ensures
        match r {
            Ok(meta) => tags.len() > 0 && is_audio_meta_of(meta, tags@, file_name@),
            Err(e) => tags.len() == 0 && e == TagError::NoMetadata,
        },
{
    if tags.len() == 0 {
        return Err(TagError::NoMetadata);
    }
    let mut title: Option<String> = None;
    let mut author: Option<String> = None;
    let mut date: Option<String> = None;
    let mut extra = String::new();
    let mut unknown: usize = 0;
    let mut i: usize = 0;
    while i < tags.len()
        invariant
            i <= tags.len(),
            text_of(title) == last_value(
                tags@.take(i as int),
                |t: Tag| has_key(t, StandardTagKey::TrackTitle),
            ),
            text_of(author) == author_of(tags@.take(i as int)),
            text_of(date) == last_value(
                tags@.take(i as int),
                |t: Tag| has_key(t, StandardTagKey::OriginalDate),
            ),
            extra@ == extra_of(tags@.take(i as int)),
            unknown == unknown_count(tags@.take(i as int)),
            unknown <= i,
        decreases tags.len() - i,
    {
        proof {
            lemma_tag_step(tags@, i as int);
        }
        let tag = &tags[i];
        match tag.std_key {
            Some(key) => {
                match key {
                    StandardTagKey::Artist => {
                        author = Some(tag.value.clone());
                    },
                    StandardTagKey::AlbumArtist
                    | StandardTagKey::Composer
                    | StandardTagKey::Writer => {
                        if author.is_none() {
                            author = Some(tag.value.clone());
                        }
                    },
                    StandardTagKey::OriginalDate => {
                        date = Some(tag.value.clone());
                    },
                    StandardTagKey::TrackTitle => {
                        title = Some(tag.value.clone());
                    },
                    _ => {},
                }
            },
            None => {
                let ghost before = extra@;
                proof {
                    if unknown == 0 {
                        lemma_no_unknown_no_extra(tags@.take(i as int));
                    }
                }
                if unknown > 0 {
                    extra.append("\n");
                }
                extra.append(tag.key.as_str());
                extra.append(": ");
                extra.append(tag.value.as_str());
                unknown += 1;
                proof {
                    let line = tag.line();
                    assert(line =~= tag.key@ + ": "@ + tag.value@);
                    if unknown == 1 {
                        assert(extra@ =~= line);
                    } else {
                        assert(extra@ =~= before + "\n"@ + line);
                    }
                }
            },
        }
        i += 1;
    }
    proof {
        assert(tags@.take(tags.len() as int) =~= tags@);
    }
    let date = match date {
        Some(year) => Some(DateKind::Sym(year)),
        None => None,
    };
    Ok(
        MediaMeta {
            file_path: String::new(),
            file_name,
            title,
            author,
            duration: None,
            date,
            stats: None,
            display_extra: false,
            extra: Some(extra),
        },
    )
}

/// The record for the audio file named `file_name`: from its tags where the
/// probe found a set of them, else a record with the file name alone.
pub fn pretty_meta(file_name: String, tags: Option<&Vec<Tag>>) -> (r: Result<MediaMeta, TagError>)
    ensures
        match tags {
            Some(tags) => match r {
                Ok(meta) => tags.len() > 0 && is_audio_meta_of(meta, tags@, file_name@),
                Err(e) => tags.len() == 0 && e == TagError::NoMetadata,
            },
            None => r matches Ok(meta) && meta.is_bare(file_name@),
        },
{
    match tags {
        Some(tags) => into_meta(tags, file_name),
        None => Ok(MediaMeta::with_file_name(file_name)),
    }
}

} // verus!
