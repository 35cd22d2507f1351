//! Finding and reading the bookmarks of the browsers built on Chromium.

use crate::prelude::{is_plain_name, is_prefix, is_suffix, path_join, starts_with, IoFailure};
use crate::util::os::Os;
use crate::util::web::WebBookmark;
use vstd::prelude::*;

verus! {

/// The browsers built on Chromium whose bookmarks can be read.
#[derive(Clone, Copy, Debug, PartialEq, Eq, Structural)]
pub enum ChromiumBrowser {
    Brave,
    Chrome,
    Chromium,
    Edge,
    Vivaldi,
}

/// The name of the profile that a browser makes first.
pub const DEFAULT_PROFILE: &'static str = "Default";

/// The beginning of the name of every other profile.
pub const PROFILE_PREFIX: &'static str = "Profile";

/// The name of the file of bookmarks in a profile.
pub const BOOKMARKS: &'static str = "Bookmarks";

/// Where `browser` keeps its profiles on `os`, below the directory of the
/// user's settings. `None` for a browser whose place on that system is not
/// known.
pub open spec fn spec_profile_root(browser: ChromiumBrowser, os: Os) -> Option<Seq<char>> {
    match (browser, os) {
        (ChromiumBrowser::Brave, Os::Linux) => Some("BraveSoftware/Brave-Browser/"@),
        (ChromiumBrowser::Vivaldi, Os::Linux) => Some("vivaldi/"@),
        (ChromiumBrowser::Brave, Os::Windows) => Some("Local/BraveSoftware/Brave-Browser/"@),
        (ChromiumBrowser::Chrome, Os::Windows) => Some("Local/Google/Chrome/"@),
        (ChromiumBrowser::Chromium, Os::Windows) => Some("Local/Google/Chromium/"@),
        (ChromiumBrowser::Edge, Os::Windows) => Some("Local/Microsoft/Edge/User Data/"@),
        (ChromiumBrowser::Vivaldi, Os::Windows) => Some("Local/Vivaldi/Application/"@),
        _ => None,
    }
}

/// Where `browser` keeps its profiles on `os`, below the directory of the
/// user's settings.
pub fn profile_root(browser: ChromiumBrowser, os: Os) -> (r: Option<&'static str>)
    ensures
        match r {
            Some(root) => spec_profile_root(browser, os) == Some(root@),
            None => spec_profile_root(browser, os) is None,
        },
{
    match (browser, os) {
        (ChromiumBrowser::Brave, Os::Linux) => Some("BraveSoftware/Brave-Browser/"),
        (ChromiumBrowser::Vivaldi, Os::Linux) => Some("vivaldi/"),
        (ChromiumBrowser::Brave, Os::Windows) => Some("Local/BraveSoftware/Brave-Browser/"),
        (ChromiumBrowser::Chrome, Os::Windows) => Some("Local/Google/Chrome/"),
        (ChromiumBrowser::Chromium, Os::Windows) => Some("Local/Google/Chromium/"),
        (ChromiumBrowser::Edge, Os::Windows) => Some("Local/Microsoft/Edge/User Data/"),
        (ChromiumBrowser::Vivaldi, Os::Windows) => Some("Local/Vivaldi/Application/"),
        _ => None,
    }
}

/// The index of the first of `entries` from `from` on that begins like a
/// profile.
pub open spec fn first_profile(entries: Seq<String>, from: int) -> Option<int>
    decreases entries.len() - from,
{
    if from < 0 || from >= entries.len() {
        None
    } else if is_prefix(PROFILE_PREFIX@, entries[from]@) {
        Some(from)
    } else {
        first_profile(entries, from + 1)
    }
}

/// The first of `entries` that begins like a profile.
pub fn with_default_profile(entries: &Vec<String>) -> (r: Option<usize>)
    ensures
        match r {
            Some(i) => first_profile(entries@, 0) == Some(i as int) && i < entries.len(),
            None => first_profile(entries@, 0) is None,
        },
        r matches Some(i) ==> is_prefix(PROFILE_PREFIX@, entries[i as int]@),
        r is None ==> forall|j: int|
            0 <= j < entries.len() ==> !is_prefix(PROFILE_PREFIX@, (#[trigger] entries[j])@),
{
    let mut i: usize = 0;
    while i < entries.len()
        invariant
            i <= entries.len(),
            first_profile(entries@, 0) == first_profile(entries@, i as int),
            forall|j: int| 0 <= j < i ==> !is_prefix(PROFILE_PREFIX@, (#[trigger] entries[j])@),
        decreases entries.len() - i,
    {
        if starts_with(entries[i].as_str(), PROFILE_PREFIX) {
            return Some(i);
        }
        i += 1;
    }
    None
}

/// The names of the default profile and of the file of bookmarks are plain
/// names.
proof fn lemma_names_are_plain()
    ensures
        is_plain_name(DEFAULT_PROFILE@),
        is_plain_name(BOOKMARKS@),
{
    reveal_strlit("Default");
    reveal_strlit("Bookmarks");
    assert(DEFAULT_PROFILE@ =~= seq!['D', 'e', 'f', 'a', 'u', 'l', 't']);
    assert(BOOKMARKS@ =~= seq!['B', 'o', 'o', 'k', 'm', 'a', 'r', 'k', 's']);
}

/// What the caller reports.
pub enum ChromiumEvent {
    /// The search begins, below the directory of the user's settings.
    Start { config_dir: String, browser: ChromiumBrowser, os: Os },
    /// Whether the default profile in the browser's directory exists.
    DefaultProfile { browser_dir: String, default_dir: String, exists: bool },
    /// The entries of the browser's directory, as full paths, or the failure
    /// to read it.
    Profiles { browser_dir: String, entries: Result<Vec<String>, IoFailure> },
}

/// What the caller does next.
pub enum ChromiumStep {
    /// See whether `default_dir` exists, and report it.
    CheckDefault { browser_dir: String, default_dir: String },
    /// List `browser_dir` and report its entries.
    ListProfiles { browser_dir: String },
    /// The file of bookmarks.
    Found(String),
    /// Where the browser keeps its profiles on this system is not known.
    Unsupported,
    /// The browser's directory could not be read.
    Failed(IoFailure),
}

/// The next step of the search for the file of bookmarks of a browser. The
/// default profile is taken where it exists. Else the first entry of the
/// browser's directory that begins like a profile is taken, and where there
/// is none, the browser's directory itself.
pub fn resolve_chromium_browser_bookmark_path(event: ChromiumEvent) -> (r: ChromiumStep)
    ensures
        match event {
            ChromiumEvent::Start { config_dir, browser, os } => match spec_profile_root(
                browser,
                os,
            ) {
                Some(root) => r matches ChromiumStep::CheckDefault { browser_dir, default_dir }
                    && is_suffix(DEFAULT_PROFILE@, default_dir@),
                None => r matches ChromiumStep::Unsupported,
            },
            ChromiumEvent::DefaultProfile { browser_dir, default_dir, exists } => if exists {
                r matches ChromiumStep::Found(file) && is_suffix(BOOKMARKS@, file@)
            } else {
                r matches ChromiumStep::ListProfiles { browser_dir: dir } && dir == browser_dir
            },
            ChromiumEvent::Profiles { browser_dir, entries: Err(e) } => r matches ChromiumStep::Failed(
                f,
            ) && f == e,
            ChromiumEvent::Profiles { browser_dir, entries: Ok(entries) } => r matches ChromiumStep::Found(
                file,
            ) && is_suffix(BOOKMARKS@, file@),
        },
{
    proof {
        lemma_names_are_plain();
    }
    match event {
        ChromiumEvent::Start { config_dir, browser, os } => match profile_root(browser, os) {
            Some(root) => {
                let browser_dir = path_join(config_dir.as_str(), root);
                let default_dir = path_join(browser_dir.as_str(), DEFAULT_PROFILE);
                ChromiumStep::CheckDefault { browser_dir, default_dir }
            },
            None => ChromiumStep::Unsupported,
        },
        ChromiumEvent::DefaultProfile { browser_dir, default_dir, exists } => {
            if exists {
                ChromiumStep::Found(path_join(default_dir.as_str(), BOOKMARKS))
            } else {
                ChromiumStep::ListProfiles { browser_dir }
            }
        },
        ChromiumEvent::Profiles { browser_dir, entries: Err(e) } => ChromiumStep::Failed(e),
        ChromiumEvent::Profiles { browser_dir, entries: Ok(entries) } => {
            match with_default_profile(&entries) {
                Some(i) => {
                    let profile = path_join(browser_dir.as_str(), entries[i].as_str());
                    ChromiumStep::Found(path_join(profile.as_str(), BOOKMARKS))
                },
                None => ChromiumStep::Found(path_join(browser_dir.as_str(), BOOKMARKS)),
            }
        },
    }
}

/// What one of the root folders of a file of bookmarks holds.
pub enum RootFolder {
    /// Its children are bookmarks.
    Bookmarks(Vec<WebBookmark>),
    /// Its children are of another shape.
    OtherShape,
    /// Its children could not be read, for the reason given.
    Broken(String),
}

/// The bookmarks of the first `n` folders, in order.
pub open spec fn gathered(folders: Seq<RootFolder>, n: int) -> Seq<WebBookmark>
    decreases n,
{
    if n <= 0 || n > folders.len() {
        Seq::empty()
    } else {
        match folders[n - 1] {
            RootFolder::Bookmarks(b) => gathered(folders, n - 1) + b@,
            _ => gathered(folders, n - 1),
        }
    }
}

/// The index of the first folder from `from` on that could not be read.
pub open spec fn first_broken(folders: Seq<RootFolder>, from: int) -> Option<int>
    decreases folders.len() - from,
{
    if from < 0 || from >= folders.len() {
        None
    } else if folders[from] is Broken {
        Some(from)
    } else {
        first_broken(folders, from + 1)
    }
}

/// The bookmarks of a file, from its root folders in order. `roots` is
/// `None` where the file has no root folders. Folders of another shape are
/// passed over. The first folder that could not be read ends the reading
/// with its reason. `Ok(None)` where no bookmark was found.
pub fn get_chromium_bookmarks(
    roots: Option<&Vec<RootFolder>>,
) -> (r: Result<Option<Vec<WebBookmark>>, String>)
    ensures
        match roots {
            None => r matches Ok(None),
            Some(folders) => match first_broken(folders@, 0) {
                Some(i) => r matches Err(reason) && folders[i] matches RootFolder::Broken(why)
                    && reason == why,
                None => match r {
                    Ok(Some(found)) => found@.len() > 0 && found@ == gathered(
                        folders@,
                        folders.len() as int,
                    ),
                    Ok(None) => gathered(folders@, folders.len() as int).len() == 0,
                    Err(_) => false,
                },
            },
        },
{
    let folders = match roots {
        None => {
            return Ok(None);
        },
        Some(folders) => folders,
    };
    let mut bookmarks: Vec<WebBookmark> = Vec::new();
    let mut i: usize = 0;
    while i < folders.len()
        invariant
            i <= folders.len(),
            roots == Some(folders),
            first_broken(folders@, 0) == first_broken(folders@, i as int),
            bookmarks@ == gathered(folders@, i as int),
        decreases folders.len() - i,
    {
        match &folders[i] {
            RootFolder::Bookmarks(bkmks) => {
                let ghost before = bookmarks@;
                let mut j: usize = 0;
                while j < bkmks.len()
                    invariant
                        j <= bkmks.len(),
                        bookmarks@ == before + bkmks@.take(j as int),
                    decreases bkmks.len() - j,
                {
                    bookmarks.push(bkmks[j].duplicate());
                    assert(bkmks@.take(j + 1) =~= bkmks@.take(j as int).push(bkmks[j as int]));
                    j += 1;
                }
                assert(bkmks@.take(bkmks.len() as int) =~= bkmks@);
            },
            RootFolder::OtherShape => {},
            RootFolder::Broken(why) => {
                return Err(why.clone());
            },
        }
        i += 1;
    }
    if bookmarks.len() == 0 {
        Ok(None)
    } else {
        Ok(Some(bookmarks))
    }
}

} // verus!
