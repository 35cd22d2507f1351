//! The user's settings, as they are read and written.

use vstd::prelude::*;

verus! {

/// The settings as they are read.
pub struct ReadCfg<'cfg> {
    pub web_browser: &'cfg str,
    pub include_browser_bookmarks: bool,
}

/// The settings as they are written.
pub struct WriteCfg {
    pub web_browser: String,
    pub include_browser_bookmarks: bool,
}

/// A file of bookmarks that the user names.
pub struct CustomBookmark {
    pub path: String,
}

impl<'cfg> ReadCfg<'cfg> {
    /// The settings in the form in which they are written.
    pub fn to_write_cfg(&self) -> (r: WriteCfg)
        ensures
            r.web_browser@ == self.web_browser@,
            r.include_browser_bookmarks == self.include_browser_bookmarks,
    {
        WriteCfg {
            web_browser: self.web_browser.to_owned(),
            include_browser_bookmarks: self.include_browser_bookmarks,
        }
    }
}

} // verus!
