//! Bookmarks of web browsers.

pub mod chromium;
pub mod firefox;

use vstd::prelude::*;

verus! {

/// A bookmark: the address, and the name the user gave it, if any.
#[derive(Clone, Debug)]
pub struct WebBookmark {
    pub name: Option<String>,
    pub url: String,
}

impl WebBookmark {
    /// A copy of this bookmark.
    pub fn duplicate(&self) -> (r: Self)
        ensures
            r == *self,
    {
        WebBookmark {
            name: match &self.name {
                Some(name) => Some(name.clone()),
                None => None,
            },
            url: self.url.clone(),
        }
    }
}

} // verus!
