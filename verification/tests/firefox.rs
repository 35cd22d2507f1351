use buo::prelude::{IoFailure, IoKind};
use buo::util::web::firefox::{
    get_firefox_bookmarks, with_default_firefox_profile, FirefoxEvent, FirefoxFailure, FirefoxStep,
};
use buo::util::web::WebBookmark;

fn bookmark(name: Option<&str>, url: &str) -> WebBookmark {
    WebBookmark { name: name.map(|n| n.to_string()), url: url.to_string() }
}

#[test]
fn firefox_bookmarks() {
    let home: Option<String> = Some("/home/user".to_string());
    let bookmarks_path = home.expect("no home dir");

    let dir = match get_firefox_bookmarks(FirefoxEvent::Start(bookmarks_path)) {
        FirefoxStep::ListProfiles(dir) => dir,
        _ => panic!("the search starts with a listing"),
    };
    assert_eq!(dir, "/home/user/.mozilla/firefox");

    let entries = vec![
        format!("{}/Crash Reports", dir),
        format!("{}/abcd1234.default", dir),
        format!("{}/wxyz5678.default-release", dir),
    ];
    let db = match get_firefox_bookmarks(FirefoxEvent::Profiles(Ok(entries))) {
        FirefoxStep::QueryPlaces(db) => db,
        _ => panic!("a default profile is there"),
    };
    assert_eq!(db, "/home/user/.mozilla/firefox/wxyz5678.default-release/places.sqlite");

    let rows = vec![
        Some(bookmark(Some("Rust"), "https://www.rust-lang.org/")),
        None,
        Some(bookmark(None, "https://example.org/")),
    ];
    let bookmarks = match get_firefox_bookmarks(FirefoxEvent::Rows(Ok(rows))) {
        FirefoxStep::Done(bookmarks) => bookmarks,
        _ => panic!("rows end the search"),
    };
    assert_eq!(bookmarks.len(), 2);
    assert_eq!(bookmarks[0].name.as_deref(), Some("Rust"));
    assert_eq!(bookmarks[0].url, "https://www.rust-lang.org/");
    assert_eq!(bookmarks[1].name, None);
    assert_eq!(bookmarks[1].url, "https://example.org/");
    for bkm in bookmarks {
        println!("{:?}", bkm);
    }
}

#[test]
fn firefox_without_default_profile_fails() {
    let entries = vec!["/home/user/.mozilla/firefox/abcd1234.default".to_string()];
    assert!(with_default_firefox_profile(&entries).is_none());
    match get_firefox_bookmarks(FirefoxEvent::Profiles(Ok(entries))) {
        FirefoxStep::Failed(FirefoxFailure::NoDefaultProfile) => {}
        _ => panic!("no default profile"),
    }
}

#[test]
fn firefox_takes_first_default_profile() {
    let entries = vec![
        "/p/a.default".to_string(),
        "/p/b.default-release".to_string(),
        "/p/c.default-release".to_string(),
    ];
    assert_eq!(with_default_firefox_profile(&entries), Some("/p/b.default-release".to_string()));
}

#[test]
fn firefox_failures_are_handed_on() {
    let failure = IoFailure { kind: IoKind::NotFound, message: "no such directory".to_string() };
    match get_firefox_bookmarks(FirefoxEvent::Profiles(Err(failure))) {
        FirefoxStep::Failed(FirefoxFailure::Io(e)) => {
            assert_eq!(e.kind, IoKind::NotFound);
            assert_eq!(e.message, "no such directory");
        }
        _ => panic!("the listing failed"),
    }
    match get_firefox_bookmarks(FirefoxEvent::Rows(Err("locked".to_string()))) {
        FirefoxStep::Failed(FirefoxFailure::Database(m)) => assert_eq!(m, "locked"),
        _ => panic!("the query failed"),
    }
}
