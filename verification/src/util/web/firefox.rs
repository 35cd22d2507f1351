//! Reading the bookmarks of Firefox, step by step: the caller lists the
//! directory and queries the database, the library says what to do next.

use crate::prelude::{ends_with, is_plain_name, is_suffix, path_join, IoFailure};
use crate::util::web::WebBookmark;
use vstd::prelude::*;

verus! {

/// Where Firefox keeps its profiles, below the home directory.
pub const FF_ROOT_PATH: &'static str = ".mozilla/firefox";

/// The name of the database of a profile.
pub const PLACES: &'static str = "places.sqlite";

/// The query that lists the bookmarks, each with its title and address.
pub const QUERY: &'static str =
    "SELECT b.title, p.url FROM moz_bookmarks b JOIN moz_places p ON p.id = b.fk";

/// The ending of the default profile's directory name.
pub const DEFAULT_PROFILE: &'static str = "default-release";

/// What the caller reports.
pub enum FirefoxEvent {
    /// The search begins, for the user whose home directory this is.
    Start(String),
    /// The entries of the directory of profiles, as full paths, or the
    /// failure to read it.
    Profiles(Result<Vec<String>, IoFailure>),
    /// The rows that the query gave, each a bookmark or a row that could not
    /// be read; or the failure to open or query the database.
    Rows(Result<Vec<Option<WebBookmark>>, String>),
}

/// What the caller does next.
pub enum FirefoxStep {
    /// List this directory and report its entries.
    ListProfiles(String),
    /// Open this database read-only, run `QUERY` and report the rows.
    QueryPlaces(String),
    /// The bookmarks.
    Done(Vec<WebBookmark>),
    /// The search failed.
    Failed(FirefoxFailure),
}

/// Why no bookmarks were found.
pub enum FirefoxFailure {
    /// The directory of profiles could not be read.
    Io(IoFailure),
    /// No entry of the directory of profiles is a default profile.
    NoDefaultProfile,
    /// The database could not be opened or queried.
    Database(String),
}

/// The index of the first of `entries` that ends like a default profile.
pub open spec fn first_default_profile(entries: Seq<String>, from: int) -> Option<int>
    decreases entries.len() - from,
{
    if from < 0 || from >= entries.len() {
        None
    } else if is_suffix(DEFAULT_PROFILE@, entries[from]@) {
        Some(from)
    } else {
        first_default_profile(entries, from + 1)
    }
}

/// The first of `entries` whose path ends like a default profile.
pub fn with_default_firefox_profile(entries: &Vec<String>) -> (r: Option<String>)
    ensures
        match r {
            Some(path) => first_default_profile(entries@, 0) matches Some(i) && path
                == entries[i],
            None => first_default_profile(entries@, 0) is None,
        },
        r matches Some(path) ==> is_suffix(DEFAULT_PROFILE@, path@),
        r is None ==> forall|i: int|
            0 <= i < entries.len() ==> !is_suffix(DEFAULT_PROFILE@, (#[trigger] entries[i])@),
{
    let mut i: usize = 0;
    while i < entries.len()
        invariant
            i <= entries.len(),
            first_default_profile(entries@, 0) == first_default_profile(entries@, i as int),
            forall|j: int| 0 <= j < i ==> !is_suffix(DEFAULT_PROFILE@, (#[trigger] entries[j])@),
        decreases entries.len() - i,
    {
        if ends_with(entries[i].as_str(), DEFAULT_PROFILE) {
            return Some(entries[i].clone());
        }
        i += 1;
    }
    None
}

/// The bookmarks among `rows`, in order; rows that could not be read are
/// left out.
pub open spec fn readable_rows(rows: Seq<Option<WebBookmark>>) -> Seq<WebBookmark> {
    rows.filter(|row: Option<WebBookmark>| row is Some).map_values(
        |row: Option<WebBookmark>| row->0,
    )
}

/// The bookmarks among `rows`, in order.
fn keep_readable(rows: Vec<Option<WebBookmark>>) -> (r: Vec<WebBookmark>)
    ensures
        r@ == readable_rows(rows@),
{
    let ghost all = rows@;
    let mut rows = rows;
    let n = rows.len();
    let mut kept: Vec<WebBookmark> = Vec::new();
    let mut i: usize = 0;
    while i < n
        invariant
            i <= n,
            n == rows.len(),
            n == all.len(),
            forall|j: int| i <= j < n ==> #[trigger] rows[j] == all[j],
            kept@ == readable_rows(all.take(i as int)),
        decreases n - i,
    {
        proof {
            lemma_readable_step(all, i as int);
        }
        if let Some(bookmark) = rows[i].take() {
            kept.push(bookmark);
        }
        i += 1;
    }
    assert(all.take(n as int) =~= all);
    kept
}

/// Reading one row more.
proof fn lemma_readable_step(rows: Seq<Option<WebBookmark>>, i: int)
    requires
        0 <= i < rows.len(),
    ensures
        readable_rows(rows.take(i + 1)) == match rows[i] {
            Some(bookmark) => readable_rows(rows.take(i)).push(bookmark),
            None => readable_rows(rows.take(i)),
        },
{
    reveal(Seq::filter);
    assert(rows.take(i + 1).drop_last() =~= rows.take(i));
    let readable = |row: Option<WebBookmark>| row is Some;
    let value = |row: Option<WebBookmark>| row->0;
    let before = rows.take(i).filter(readable);
    if rows[i] is Some {
        assert(rows.take(i + 1).filter(readable) == before.push(rows[i]));
        assert(before.push(rows[i]).map_values(value) =~= before.map_values(value).push(
            rows[i]->0,
        ));
    }
}

/// The next step of the search for Firefox's bookmarks. It starts with the
/// listing of the directory of profiles under the home directory. Of the
/// entries, the first that ends like a default profile is taken, and its
/// database is queried. The rows that could be read are the bookmarks. A
/// failure that the caller reports ends the search, and so does a listing
/// without a default profile.
pub fn get_firefox_bookmarks(event: FirefoxEvent) -> (r: FirefoxStep)
    ensures
        match event {
            FirefoxEvent::Start(cfg_path) => r is ListProfiles,
            FirefoxEvent::Profiles(Err(e)) => r matches FirefoxStep::Failed(
                FirefoxFailure::Io(f),
            ) && f == e,
            FirefoxEvent::Profiles(Ok(entries)) => match first_default_profile(entries@, 0) {
                Some(i) => r matches FirefoxStep::QueryPlaces(db) && is_suffix(PLACES@, db@),
                None => r matches FirefoxStep::Failed(FirefoxFailure::NoDefaultProfile),
            },
            FirefoxEvent::Rows(Err(e)) => r matches FirefoxStep::Failed(
                FirefoxFailure::Database(m),
            ) && m == e,
            FirefoxEvent::Rows(Ok(rows)) => r matches FirefoxStep::Done(bookmarks) && bookmarks@
                == readable_rows(rows@),
        },
{
    proof {
        reveal_strlit("places.sqlite");
        assert(PLACES@ =~= seq![
            'p',
            'l',
            'a',
            'c',
            'e',
            's',
            '.',
            's',
            'q',
            'l',
            'i',
            't',
            'e',
        ]);
        assert(is_plain_name(PLACES@));
    }
    match event {
        FirefoxEvent::Start(cfg_path) => FirefoxStep::ListProfiles(
            path_join(cfg_path.as_str(), FF_ROOT_PATH),
        ),
        FirefoxEvent::Profiles(Err(e)) => FirefoxStep::Failed(FirefoxFailure::Io(e)),
        FirefoxEvent::Profiles(Ok(entries)) => match with_default_firefox_profile(&entries) {
            Some(profile) => FirefoxStep::QueryPlaces(path_join(profile.as_str(), PLACES)),
            None => FirefoxStep::Failed(FirefoxFailure::NoDefaultProfile),
        },
        FirefoxEvent::Rows(Err(e)) => FirefoxStep::Failed(FirefoxFailure::Database(e)),
        FirefoxEvent::Rows(Ok(rows)) => FirefoxStep::Done(keep_readable(rows)),
    }
}

} // verus!
