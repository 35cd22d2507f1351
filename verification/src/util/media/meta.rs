//! The metadata record that analyzers produce and the cache stores.

use crate::prelude::{path_eq, surely_other_path, surely_same_path};
use crate::util::dev::LangStats;
use vstd::prelude::*;
use vstd::string::*;

verus! {

/// The number of nanoseconds in a second.
pub const NANOS_PER_SEC: u32 = 1_000_000_000;

/// The pattern by which a point in time is shown: weekday, month, day, time
/// of day and year.
pub const DATE_PATTERN: &'static str = "%a %b %e %T %Y";

/// A length of time: whole seconds, and the nanoseconds of the second that
/// has begun.
#[derive(Clone, Copy, Debug, PartialEq, Eq)]
pub struct MediaDuration {
    secs: u64,
    nanos: u32,
}

impl MediaDuration {
    #[verifier::type_invariant]
    spec fn inv(self) -> bool {
        self.nanos < NANOS_PER_SEC
    }

    /// The whole seconds.
    pub closed spec fn spec_secs(self) -> u64 {
        self.secs
    }

    /// The nanoseconds of the second that has begun.
    pub closed spec fn spec_nanos(self) -> u32 {
        self.nanos
    }

    /// A length of time. `None` if `nanos` is a second or more.
    pub fn new(secs: u64, nanos: u32) -> (r: Option<Self>)
        ensures
            r is Some <==> nanos < NANOS_PER_SEC,
            r matches Some(d) ==> d.spec_secs() == secs && d.spec_nanos() == nanos,
    {
        if nanos < NANOS_PER_SEC {
            Some(MediaDuration { secs, nanos })
        } else {
            None
        }
    }

    /// The whole seconds.
    pub fn secs(&self) -> (r: u64)
        ensures
            r == self.spec_secs(),
    {
        self.secs
    }

    /// The nanoseconds of the second that has begun, less than a second.
    pub fn nanos(&self) -> (r: u32)
        ensures
            r == self.spec_nanos(),
            r < NANOS_PER_SEC,
    {
        proof {
            use_type_invariant(self);
        }
        self.nanos
    }

    /// The length of time as text.
    pub fn to_string(&self) -> (r: String)
        ensures
            r@ == duration_text(self.spec_secs(), self.spec_nanos()),
    {
        proof {
            use_type_invariant(self);
        }
        duration_debug(self.secs, self.nanos)
    }
}

/// How the standard library shows, for debugging, the length of time of
/// `secs` seconds and `nanos` nanoseconds.
pub uninterp spec fn duration_text(secs: u64, nanos: u32) -> Seq<char>;

/// `Duration::new` of the standard library and its `Debug` text: the length
/// of time in the largest fitting unit, such as `1.5s` or `20ms`. `nanos` is
/// less than a second, as `Duration::new` may panic otherwise.
#[verifier::external_body]
fn duration_debug(secs: u64, nanos: u32) -> (r: String)
    requires
        nanos < NANOS_PER_SEC,
    ensures
        r@ == duration_text(secs, nanos),
{
    format!("{:?}", std::time::Duration::new(secs, nanos))
}

/// How `chrono` shows, by `pattern`, the point in time `secs` seconds and
/// `nanos` nanoseconds after the Unix epoch, in UTC. `None` where there is
/// no such point in time for `chrono`, or the pattern is not a valid one.
pub uninterp spec fn utc_text(secs: i64, nanos: u32, pattern: Seq<char>) -> Option<Seq<char>>;

/// `DateTime::from_timestamp` of `chrono`, then `DateTime::format` with
/// `pattern`, written out with `DelayedFormat::write_to`.
#[verifier::external_body]
fn format_utc(secs: i64, nanos: u32, pattern: &str) -> (r: Option<String>)
    ensures
        match r {
            Some(text) => utc_text(secs, nanos, pattern@) == Some(text@),
            None => utc_text(secs, nanos, pattern@) is None,
        },
{
    let date = chrono::DateTime::from_timestamp(secs, nanos)?;
    let mut text = String::new();
    date.format(pattern).write_to(&mut text).ok()?;
    Some(text)
}

/// A point in time: seconds since the Unix epoch (UTC), and the nanoseconds
/// within that second.
#[derive(Clone, Copy, Debug, PartialEq, Eq, Structural)]
pub struct UtcTime {
    pub secs: i64,
    pub nanos: u32,
}

/// A date attached to a media file.
#[derive(Debug, Clone)]
pub enum DateKind {
    /// A point in time, as seconds since the Unix epoch (UTC) and the
    /// nanoseconds within that second.
    Chrono { secs: i64, nanos: u32 },
    /// A date as the file's tags spell it, most often a year.
    Sym(String),
}

impl DateKind {
    /// The date as a line of text: a point in time after `date: `, a date
    /// from the tags after `year: `. Nothing for a point in time that cannot
    /// be shown.
    pub open spec fn text(&self) -> Seq<char> {
        match self {
            DateKind::Chrono { secs, nanos } => match utc_text(*secs, *nanos, DATE_PATTERN@) {
                Some(formatted) => "date: "@ + formatted + "\n"@,
                None => Seq::empty(),
            },
            DateKind::Sym(year) => "year: "@ + year@ + "\n"@,
        }
    }

    /// The date as a line of text.
    pub fn to_string(&self) -> (r: String)
        ensures
            r@ == self.text(),
    {
        match self {
            DateKind::Chrono { secs, nanos } => match format_utc(*secs, *nanos, DATE_PATTERN) {
                Some(formatted) => {
                    let mut out = String::from_str("date: ");
                    out.append(formatted.as_str());
                    out.append("\n");
                    out
                },
                None => String::new(),
            },
            DateKind::Sym(year) => {
                let mut out = String::from_str("year: ");
                out.append(year.as_str());
                out.append("\n");
                out
            },
        }
    }
}

/// Descriptive information extracted from one file.
#[derive(Debug, Clone)]
pub struct MediaMeta {
    pub file_path: String,
    pub file_name: String,
    pub title: Option<String>,
    pub author: Option<String>,
    pub duration: Option<MediaDuration>,
    pub date: Option<DateKind>,
    pub stats: Option<Vec<LangStats>>,
    /// Whether `extra`, if present, is shown with the rest.
    pub display_extra: bool,
    pub extra: Option<String>,
}

/// The line for a tag: the label, the value and a line break; nothing for a
/// tag that is missing or empty.
pub open spec fn tag_line(label: Seq<char>, value: Option<String>) -> Seq<char> {
    match value {
        Some(v) => if v@.len() > 0 {
            label + v@ + "\n"@
        } else {
            Seq::empty()
        },
        None => Seq::empty(),
    }
}

/// The line for a duration.
pub open spec fn duration_line(duration: Option<MediaDuration>) -> Seq<char> {
    match duration {
        Some(d) => "duration: "@ + duration_text(d.spec_secs(), d.spec_nanos()) + "\n"@,
        None => Seq::empty(),
    }
}

/// The line for a date.
pub open spec fn date_line(date: Option<DateKind>) -> Seq<char> {
    match date {
        Some(d) => d.text(),
        None => Seq::empty(),
    }
}

/// The statistics of the first `n` languages, one after the other, with a
/// line break between two of them.
pub open spec fn stats_text(stats: Seq<LangStats>, n: int) -> Seq<char>
    decreases n,
{
    if n <= 0 || n > stats.len() {
        Seq::empty()
    } else if n == 1 {
        stats[0].text()
    } else {
        stats_text(stats, n - 1) + "\n"@ + stats[n - 1].text()
    }
}

/// Appends the line for a tag to `out`.
fn push_tag_line(out: &mut String, label: &str, value: &Option<String>)
    ensures
        final(out)@ == old(out)@ + tag_line(label@, *value),
{
    match value {
        Some(v) => {
            if !v.as_str().is_empty() {
                out.append(label);
                out.append(v.as_str());
                out.append("\n");
                assert(out@ =~= old(out)@ + (label@ + v@ + "\n"@));
            } else {
                assert(out@ =~= old(out)@ + Seq::<char>::empty());
            }
        },
        None => {
            assert(out@ =~= old(out)@ + Seq::<char>::empty());
        },
    }
}

impl MediaMeta {
    /// Holds of a record with nothing in it but the file name `name`.
    pub open spec fn is_bare(&self, name: Seq<char>) -> bool {
        &&& self.file_path@ == Seq::<char>::empty()
        &&& self.file_name@ == name
        &&& self.title is None
        &&& self.author is None
        &&& self.duration is None
        &&& self.date is None
        &&& self.stats is None
        &&& !self.display_extra
        &&& self.extra is None
    }

    /// A record that holds the file name and nothing else.
    pub fn with_file_name(file_name: String) -> (r: Self)
        ensures
            r.is_bare(file_name@),
            r.file_name == file_name,
    {
        MediaMeta {
            file_path: String::new(),
            file_name,
            title: None,
            author: None,
            duration: None,
            date: None,
            stats: None,
            display_extra: false,
            extra: None,
        }
    }

    /// Whether the record is of the file at `path`: whether the two paths
    /// have the same components. It is, where the two are the same text. Of
    /// paths that read the same on Unix and on Windows the answer goes by
    /// `components`.
    pub fn is_at(&self, path: &str) -> (r: bool)
        ensures
            surely_same_path(self.file_path@, path@) ==> r,
            surely_other_path(self.file_path@, path@) ==> !r,
    {
        path_eq(self.file_path.as_str(), path)
    }

    /// Whether the two records are of the same file: whether their paths
    /// have the same components. They are, where the two paths are the same
    /// text. Of paths that read the same on Unix and on Windows the answer goes
    /// by `components`.
    pub fn same_file(&self, other: &MediaMeta) -> (r: bool)
        ensures
            surely_same_path(self.file_path@, other.file_path@) ==> r,
            surely_other_path(self.file_path@, other.file_path@) ==> !r,
    {
        path_eq(self.file_path.as_str(), other.file_path.as_str())
    }

    /// The record as text. The file name comes first. A record of source
    /// code shows its statistics and nothing else. Any other record shows
    /// what it has of title, author, duration and date, each on a line of
    /// its own.
    pub open spec fn text(&self) -> Seq<char> {
        let head = "file name: "@ + self.file_name@ + "\n"@;
        match self.stats {
            Some(stats) => head + stats_text(stats@, stats@.len() as int),
            None => head + tag_line("title: "@, self.title) + tag_line("author: "@, self.author)
                + duration_line(self.duration) + date_line(self.date),
        }
    }

    /// The record as text.
    pub fn to_string(&self) -> (r: String)
        ensures
            r@ == self.text(),
    {
        let mut out = String::from_str("file name: ");
        out.append(self.file_name.as_str());
        out.append("\n");
        let ghost head = out@;
        assert(head =~= "file name: "@ + self.file_name@ + "\n"@);
        if let Some(stats) = &self.stats {
            let mut i: usize = 0;
            while i < stats.len()
                invariant
                    i <= stats.len(),
                    out@ == head + stats_text(stats@, i as int),
                decreases stats.len() - i,
            {
                let ghost before = out@;
                if i > 0 {
                    out.append("\n");
                }
                out.append(stats[i].to_string().as_str());
                proof {
                    if i == 0 {
                        assert(out@ =~= head + stats[0].text());
                    } else {
                        assert(out@ =~= head + (stats_text(stats@, i as int) + "\n"@ + stats[i as int].text()));
                    }
                }
                i += 1;
            }
            return out;
        }
        push_tag_line(&mut out, "title: ", &self.title);
        push_tag_line(&mut out, "author: ", &self.author);
        let ghost tagged = out@;
        if let Some(duration) = &self.duration {
            out.append("duration: ");
            out.append(duration.to_string().as_str());
            out.append("\n");
        }
        assert(out@ =~= tagged + duration_line(self.duration));
        let ghost timed = out@;
        if let Some(date) = &self.date {
            out.append(date.to_string().as_str());
        }
        assert(out@ =~= timed + date_line(self.date));
        out
    }
}

impl PartialEq for MediaMeta {
    /// Two records are equal if they are of the same file, that is, if their
    /// paths have the same components.
    fn eq(&self, other: &MediaMeta) -> (r: bool) {
        self.same_file(other)
    }
}

impl vstd::std_specs::cmp::PartialEqSpecImpl for MediaMeta {
    /// What `==` gives is not one function of the two paths' texts: for
    /// paths that do not read the same on Unix and on Windows it goes by the
    /// platform. `same_file` says what is known of it.
    open spec fn obeys_eq_spec() -> bool {
        false
    }

    open spec fn eq_spec(&self, other: &MediaMeta) -> bool {
        surely_same_path(self.file_path@, other.file_path@)
    }
}

impl Default for MediaMeta {
    fn default() -> (r: Self)
        ensures
            r.is_bare(Seq::<char>::empty()),
    {
        MediaMeta::with_file_name(String::new())
    }
}

} // verus!
