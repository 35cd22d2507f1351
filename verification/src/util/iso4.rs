//! From the tags of a media file to its metadata record.

use crate::util::media::meta::{DateKind, MediaMeta};
use vstd::prelude::*;
use vstd::string::*;

verus! {

/// The standard meanings of a tag that the library reads. Every other
/// standard meaning is `Other`.
#[derive(Clone, Copy, Debug, PartialEq, Eq, Structural)]
pub enum StandardTagKey {
    Artist,
    AlbumArtist,
    Composer,
    Writer,
    OriginalDate,
    TrackTitle,
    Other,
}

/// A tag of a media file: its key as the file spells it, its standard
/// meaning if it has one, and its value as text.
#[derive(Debug)]
pub struct Tag {
    pub std_key: Option<StandardTagKey>,
    pub key: String,
    pub value: String,
}

/// Why tags gave no record.
#[derive(Clone, Copy, Debug, PartialEq, Eq, Structural)]
pub enum TagError {
    /// There are no tags at all.
    NoMetadata,
}

impl TagError {
    /// The failure in words.
    pub fn message(&self) -> (r: &'static str)
        ensures
            r@ == "No metadata available!"@,
    {
        "No metadata available!"
    }
}

impl Tag {
    /// The tag has a standard meaning.
    pub open spec fn is_known(self) -> bool {
        self.std_key is Some
    }

    /// The tag has the standard meaning `key` and a value that is not empty.
    pub open spec fn gives(self, key: StandardTagKey) -> bool {
        self.std_key == Some(key) && self.value@.len() > 0
    }

    /// The tag names the artist.
    pub open spec fn is_artist(self) -> bool {
        self.gives(StandardTagKey::Artist)
    }

    /// The tag names someone who stands in for the artist.
    pub open spec fn is_credit(self) -> bool {
        self.gives(StandardTagKey::AlbumArtist) || self.gives(StandardTagKey::Composer)
            || self.gives(StandardTagKey::Writer)
    }

    /// The line that shows a tag without standard meaning.
    pub open spec fn line(self) -> Seq<char> {
        self.key@ + ": "@ + self.value@
    }
}

/// The value of the last of `tags` of which `pred` holds.
pub open spec fn last_value(tags: Seq<Tag>, pred: spec_fn(Tag) -> bool) -> Option<Seq<char>>
    decreases tags.len(),
{
    if tags.len() == 0 {
        None
    } else if pred(tags.last()) {
        Some(tags.last().value@)
    } else {
        last_value(tags.drop_last(), pred)
    }
}

/// The value of the first of `tags` of which `pred` holds.
pub open spec fn first_value(tags: Seq<Tag>, pred: spec_fn(Tag) -> bool) -> Option<Seq<char>>
    decreases tags.len(),
{
    if tags.len() == 0 {
        None
    } else {
        match first_value(tags.drop_last(), pred) {
            Some(v) => Some(v),
            None => if pred(tags.last()) {
                Some(tags.last().value@)
            } else {
                None
            },
        }
    }
}

/// The title that `tags` give: that of the last track title tag.
pub open spec fn title_of(tags: Seq<Tag>) -> Option<Seq<char>> {
    last_value(tags, |t: Tag| t.gives(StandardTagKey::TrackTitle))
}

/// The date that `tags` give: that of the last original date tag.
pub open spec fn date_of(tags: Seq<Tag>) -> Option<Seq<char>> {
    last_value(tags, |t: Tag| t.gives(StandardTagKey::OriginalDate))
}

/// The author that `tags` give: the last artist; where no tag names an
/// artist, the first album artist, composer or writer.
pub open spec fn author_of(tags: Seq<Tag>) -> Option<Seq<char>> {
    match last_value(tags, |t: Tag| t.is_artist()) {
        Some(artist) => Some(artist),
        None => first_value(tags, |t: Tag| t.is_credit()),
    }
}

/// The lines of the tags without standard meaning among `tags`, each line
/// but the first after a line break.
pub open spec fn extra_of(tags: Seq<Tag>) -> Seq<char>
    decreases tags.len(),
{
    if tags.len() == 0 {
        Seq::empty()
    } else if tags.last().is_known() {
        extra_of(tags.drop_last())
    } else if unknown_count(tags.drop_last()) == 0 {
        tags.last().line()
    } else {
        extra_of(tags.drop_last()) + "\n"@ + tags.last().line()
    }
}

/// The number of tags without standard meaning among `tags`.
pub open spec fn unknown_count(tags: Seq<Tag>) -> nat
    decreases tags.len(),
{
    if tags.len() == 0 {
        0
    } else if tags.last().is_known() {
        unknown_count(tags.drop_last())
    } else {
        unknown_count(tags.drop_last()) + 1
    }
}

/// The views of an optional string.
pub open spec fn text_of(s: Option<String>) -> Option<Seq<char>> {
    match s {
        Some(s) => Some(s@),
        None => None,
    }
}

/// The text of a date that is spelled out.
pub open spec fn date_text(d: Option<DateKind>) -> Option<Seq<char>> {
    match d {
        Some(DateKind::Sym(s)) => Some(s@),
        _ => None,
    }
}

/// The record that `tags` give for the file named `name`: title, author and
/// date as the tags give them, the tags without standard meaning as extra
/// text, if there are any, and nothing else.
pub open spec fn is_meta_of(meta: MediaMeta, tags: Seq<Tag>, name: Seq<char>) -> bool {
    &&& meta.file_name@ == name
    &&& meta.file_path@ == Seq::<char>::empty()
    &&& text_of(meta.title) == title_of(tags)
    &&& text_of(meta.author) == author_of(tags)
    &&& meta.date is Some <==> date_of(tags) is Some
    &&& date_text(meta.date) == date_of(tags)
    &&& meta.duration is None
    &&& meta.stats is None
    &&& !meta.display_extra
    &&& text_of(meta.extra) == (if extra_of(tags).len() == 0 {
        None
    } else {
        Some(extra_of(tags))
    })
}

/// One tag more.
pub proof fn lemma_tag_step(tags: Seq<Tag>, i: int)
    requires
        0 <= i < tags.len(),
    ensures
        tags.take(i + 1).drop_last() == tags.take(i),
        tags.take(i + 1).last() == tags[i],
{
    assert(tags.take(i + 1).drop_last() =~= tags.take(i));
}

/// Tags that all have a standard meaning give no extra text.
pub proof fn lemma_no_unknown_no_extra(tags: Seq<Tag>)
    requires
        unknown_count(tags) == 0,
    ensures
        extra_of(tags).len() == 0,
    decreases tags.len(),
{
    if tags.len() > 0 {
        lemma_no_unknown_no_extra(tags.drop_last());
    }
}

/// Puts `tag_value` into `tag` unless it is empty.
fn replace_tag_if_not_empty(tag_value: &String, tag: &mut Option<String>)
    ensures
        tag_value@.len() > 0 ==> text_of(*final(tag)) == Some(tag_value@),
        tag_value@.len() == 0 ==> *final(tag) == *old(tag),
{
    if !tag_value.as_str().is_empty() {
        *tag = Some(tag_value.clone());
    }
}

/// The record for the file named `file_name` from its tags. Fails if there
/// are no tags.
pub fn into_meta(tags: &Vec<Tag>, file_name: String) -> (r: Result<MediaMeta, TagError>)
    ensures
        match r {
            Ok(meta) => tags.len() > 0 && is_meta_of(meta, tags@, file_name@),
            Err(e) => tags.len() == 0 && e == TagError::NoMetadata,
        },
{
    if tags.len() == 0 {
        return Err(TagError::NoMetadata);
    }
    let mut title: Option<String> = None;
    let mut author: Option<String> = None;
    let mut date: Option<String> = None;
    let mut maybe_extra = String::new();
    let mut unknown: usize = 0;
    let mut i: usize = 0;
    while i < tags.len()
        invariant
            i <= tags.len(),
            text_of(title) == title_of(tags@.take(i as int)),
            text_of(author) == author_of(tags@.take(i as int)),
            text_of(date) == date_of(tags@.take(i as int)),
            maybe_extra@ == extra_of(tags@.take(i as int)),
            unknown == unknown_count(tags@.take(i as int)),
            unknown <= i,
        decreases tags.len() - i,
    {
        proof {
            lemma_tag_step(tags@, i as int);
        }
        let tag = &tags[i];
        match tag.std_key {
            Some(key) => {
                match key {
                    StandardTagKey::Artist => replace_tag_if_not_empty(&tag.value, &mut author),
                    StandardTagKey::AlbumArtist
                    | StandardTagKey::Composer
                    | StandardTagKey::Writer => {
                        if author.is_none() {
                            replace_tag_if_not_empty(&tag.value, &mut author);
                        }
                    },
                    StandardTagKey::OriginalDate => replace_tag_if_not_empty(
                        &tag.value,
                        &mut date,
                    ),
                    StandardTagKey::TrackTitle => replace_tag_if_not_empty(&tag.value, &mut title),
                    _ => {},
                }
            },
            None => {
                let ghost before = maybe_extra@;
                proof {
                    if unknown == 0 {
                        lemma_no_unknown_no_extra(tags@.take(i as int));
                    }
                }
                if unknown > 0 {
                    maybe_extra.append("\n");
                }
                maybe_extra.append(tag.key.as_str());
                maybe_extra.append(": ");
                maybe_extra.append(tag.value.as_str());
                unknown += 1;
                proof {
                    let line = tag.line();
                    assert(line =~= tag.key@ + ": "@ + tag.value@);
                    if unknown == 1 {
                        assert(maybe_extra@ =~= line);
                    } else {
                        assert(maybe_extra@ =~= before + "\n"@ + line);
                    }
                }
            },
        }
        i += 1;
    }
    proof {
        assert(tags@.take(tags.len() as int) =~= tags@);
    }
    let extra = if maybe_extra.as_str().is_empty() {
        None
    } else {
        Some(maybe_extra)
    };
    let date = match date {
        Some(year) => Some(DateKind::Sym(year)),
        None => None,
    };
    Ok(
        MediaMeta {
            file_path: String::new(),
            file_name,
            title,
            author,
            duration: None,
            date,
            stats: None,
            display_extra: false,
            extra,
        },
    )
}

/// The record for the file named `file_name`: from its tags where the probe
/// found a set of them, else a record with the file name alone.
pub fn iso4_media_meta(
    file_name: String,
    tags: Option<&Vec<Tag>>,
) -> (r: Result<MediaMeta, TagError>)
    ensures
        match tags {
            Some(tags) => match r {
                Ok(meta) => tags.len() > 0 && is_meta_of(meta, tags@, file_name@),
                Err(e) => tags.len() == 0 && e == TagError::NoMetadata,
            },
            None => r matches Ok(meta) && meta.is_bare(file_name@),
        },
{
    match tags {
        Some(tags) => into_meta(tags, file_name),
        None => Ok(MediaMeta::with_file_name(file_name)),
    }
}

} // verus!
