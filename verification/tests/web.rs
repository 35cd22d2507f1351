use buo::cfg::ReadCfg;
use buo::prelude::{IoFailure, IoKind};
use buo::util::cache::session::{LiveCache, MIN_CACHE_SIZE};
use buo::util::media::meta::MediaMeta;
use buo::util::os::Os;
use buo::util::web::chromium::{
    get_chromium_bookmarks, profile_root, resolve_chromium_browser_bookmark_path,
    with_default_profile, ChromiumBrowser, ChromiumEvent, ChromiumStep, RootFolder,
};
use buo::util::web::WebBookmark;

fn bookmark(name: &str, url: &str) -> WebBookmark {
    WebBookmark { name: Some(name.to_string()), url: url.to_string() }
}

#[test]
fn chromium_profile_roots() {
    assert_eq!(profile_root(ChromiumBrowser::Brave, Os::Linux), Some("BraveSoftware/Brave-Browser/"));
    assert_eq!(profile_root(ChromiumBrowser::Vivaldi, Os::Linux), Some("vivaldi/"));
    assert_eq!(profile_root(ChromiumBrowser::Brave, Os::Windows), Some("Local/BraveSoftware/Brave-Browser/"));
    assert_eq!(profile_root(ChromiumBrowser::Chrome, Os::Windows), Some("Local/Google/Chrome/"));
    assert_eq!(profile_root(ChromiumBrowser::Chromium, Os::Windows), Some("Local/Google/Chromium/"));
    assert_eq!(profile_root(ChromiumBrowser::Edge, Os::Windows), Some("Local/Microsoft/Edge/User Data/"));
    assert_eq!(profile_root(ChromiumBrowser::Vivaldi, Os::Windows), Some("Local/Vivaldi/Application/"));
    assert_eq!(profile_root(ChromiumBrowser::Chrome, Os::Linux), None);
    assert_eq!(profile_root(ChromiumBrowser::Brave, Os::MacOs), None);
}

#[test]
fn chromium_bookmark_path_with_default_profile() {
    let step = resolve_chromium_browser_bookmark_path(ChromiumEvent::Start {
        config_dir: "/home/u/.config".to_string(),
        browser: ChromiumBrowser::Brave,
        os: Os::Linux,
    });
    let (browser_dir, default_dir) = match step {
        ChromiumStep::CheckDefault { browser_dir, default_dir } => (browser_dir, default_dir),
        _ => panic!("the default profile is looked for first"),
    };
    assert_eq!(browser_dir, "/home/u/.config/BraveSoftware/Brave-Browser/");
    assert_eq!(default_dir, "/home/u/.config/BraveSoftware/Brave-Browser/Default");
    match resolve_chromium_browser_bookmark_path(ChromiumEvent::DefaultProfile {
        browser_dir,
        default_dir,
        exists: true,
    }) {
        ChromiumStep::Found(file) => {
            assert_eq!(file, "/home/u/.config/BraveSoftware/Brave-Browser/Default/Bookmarks")
        }
        _ => panic!("the default profile holds the bookmarks"),
    }
}

#[test]
fn chromium_bookmark_path_without_default_profile() {
    let dir = "/c/vivaldi/".to_string();
    match resolve_chromium_browser_bookmark_path(ChromiumEvent::DefaultProfile {
        browser_dir: dir.clone(),
        default_dir: "/c/vivaldi/Default".to_string(),
        exists: false,
    }) {
        ChromiumStep::ListProfiles { browser_dir } => assert_eq!(browser_dir, dir),
        _ => panic!("the directory is listed"),
    }
    let entries = vec!["Crashpad".to_string(), "Profile 2".to_string(), "Profile 1".to_string()];
    assert_eq!(with_default_profile(&entries), Some(1));
    match resolve_chromium_browser_bookmark_path(ChromiumEvent::Profiles {
        browser_dir: dir.clone(),
        entries: Ok(entries),
    }) {
        ChromiumStep::Found(file) => assert_eq!(file, "/c/vivaldi/Profile 2/Bookmarks"),
        _ => panic!("a profile is there"),
    }
    let entries = vec!["/c/vivaldi/Profile 1".to_string()];
    assert_eq!(with_default_profile(&entries), None);
    match resolve_chromium_browser_bookmark_path(ChromiumEvent::Profiles {
        browser_dir: dir.clone(),
        entries: Ok(entries),
    }) {
        ChromiumStep::Found(file) => assert_eq!(file, "/c/vivaldi/Bookmarks"),
        _ => panic!("the directory itself is taken"),
    }
    let failure = IoFailure { kind: IoKind::PermissionDenied, message: "denied".to_string() };
    match resolve_chromium_browser_bookmark_path(ChromiumEvent::Profiles {
        browser_dir: dir,
        entries: Err(failure),
    }) {
        ChromiumStep::Failed(e) => assert_eq!((e.kind, e.message.as_str()), (IoKind::PermissionDenied, "denied")),
        _ => panic!("the listing failed"),
    }
    assert!(matches!(
        resolve_chromium_browser_bookmark_path(ChromiumEvent::Start {
            config_dir: "/c".to_string(),
            browser: ChromiumBrowser::Edge,
            os: Os::Linux,
        }),
        ChromiumStep::Unsupported
    ));
}

#[test]
fn chromium_bookmarks_are_gathered_from_the_root_folders() {
    assert_eq!(get_chromium_bookmarks(None).map(|b| b.map(|v| v.len())), Ok(None));
    assert_eq!(get_chromium_bookmarks(Some(&vec![])).map(|b| b.map(|v| v.len())), Ok(None));
    let folders = vec![
        RootFolder::Bookmarks(vec![bookmark("a", "https://a/"), bookmark("b", "https://b/")]),
        RootFolder::OtherShape,
        RootFolder::Bookmarks(vec![]),
        RootFolder::Bookmarks(vec![bookmark("c", "https://c/")]),
    ];
    let found = get_chromium_bookmarks(Some(&folders)).unwrap().unwrap();
    let urls: Vec<&str> = found.iter().map(|b| b.url.as_str()).collect();
    assert_eq!(urls, vec!["https://a/", "https://b/", "https://c/"]);
    assert_eq!(found[0].name.as_deref(), Some("a"));
    let nothing = vec![RootFolder::OtherShape, RootFolder::Bookmarks(vec![])];
    assert!(get_chromium_bookmarks(Some(&nothing)).unwrap().is_none());
    let broken = vec![
        RootFolder::Bookmarks(vec![bookmark("a", "https://a/")]),
        RootFolder::Broken("first".to_string()),
        RootFolder::Broken("second".to_string()),
    ];
    assert_eq!(get_chromium_bookmarks(Some(&broken)).map(|b| b.is_some()), Err("first".to_string()));
}

#[test]
fn bookmark_copy_and_settings() {
    let b = WebBookmark { name: None, url: "https://x/".to_string() };
    let c = b.duplicate();
    assert_eq!((c.name, c.url), (None, "https://x/".to_string()));
    let cfg = ReadCfg { web_browser: "firefox", include_browser_bookmarks: true };
    let written = cfg.to_write_cfg();
    assert_eq!(written.web_browser, "firefox");
    assert!(written.include_browser_bookmarks);
}

fn at(path: &str, name: &str) -> MediaMeta {
    let mut m = MediaMeta::with_file_name(name.to_string());
    m.file_path = path.to_string();
    m
}

#[test]
fn session_cache_fills_then_reuses_the_first_place() {
    let mut cache = LiveCache::new();
    assert!(cache.has_capacity());
    assert!(cache.entries().is_empty());
    for i in 0..MIN_CACHE_SIZE {
        cache.insert(at(&format!("/f/{}", i), "n"));
    }
    assert!(!cache.has_capacity());
    assert_eq!(cache.entries().len(), 64);
    assert!(cache.contains(&at("/f/0", "other name")));
    cache.insert(at("/f/new", "n"));
    assert_eq!(cache.entries().len(), 64);
    assert!(!cache.contains(&at("/f/0", "n")));
    assert_eq!(cache.entries()[0].file_path, "/f/new");
    assert_eq!(cache.entries()[1].file_path, "/f/1");
    cache.insert(at("/f/newer", "n"));
    assert_eq!(cache.entries()[0].file_path, "/f/newer");
    assert_eq!(cache.entries()[1].file_path, "/f/1");
    assert_eq!(cache.entries()[63].file_path, "/f/63");
    cache.clear();
    assert!(cache.entries().is_empty());
    assert!(cache.has_capacity());
}

#[test]
fn session_cache_finds_the_first_match() {
    let mut cache = LiveCache::default();
    cache.insert(at("/a", "x"));
    cache.insert(at("/b", "y"));
    cache.insert(at("/c", "y"));
    assert_eq!(cache.find(|m| m.file_name == "y").map(|m| m.file_path.as_str()), Some("/b"));
    assert!(cache.find(|m| m.file_name == "z").is_none());
    assert!(cache.contains(&at("/c", "")));
    assert!(!cache.contains(&at("/d", "x")));
    let paths: Vec<&str> = cache.entries().iter().map(|m| m.file_path.as_str()).collect();
    assert_eq!(paths, vec!["/a", "/b", "/c"]);
}

/// The file of bookmarks of `browser` on Linux, found through a made-up
/// directory of settings in which the default profile exists.
fn bookmarks_file(browser: ChromiumBrowser) -> String {
    let start = ChromiumEvent::Start {
        config_dir: "/home/u/.config".to_string(),
        browser,
        os: Os::Linux,
    };
    let (browser_dir, default_dir) = match resolve_chromium_browser_bookmark_path(start) {
        ChromiumStep::CheckDefault { browser_dir, default_dir } => (browser_dir, default_dir),
        _ => panic!("the default profile is looked for first"),
    };
    let found = ChromiumEvent::DefaultProfile { browser_dir, default_dir, exists: true };
    match resolve_chromium_browser_bookmark_path(found) {
        ChromiumStep::Found(file) => file,
        _ => panic!("the default profile holds the bookmarks"),
    }
}

#[test]
fn brave_bookmarks() {
    let bookmarks_path = bookmarks_file(ChromiumBrowser::Brave);
    assert_eq!(bookmarks_path, "/home/u/.config/BraveSoftware/Brave-Browser/Default/Bookmarks");
    let roots = vec![
        RootFolder::Bookmarks(vec![bookmark("Rust", "https://www.rust-lang.org/")]),
        RootFolder::OtherShape,
        RootFolder::Bookmarks(vec![bookmark("Docs", "https://doc.rust-lang.org/")]),
    ];
    let bookmarks = get_chromium_bookmarks(Some(&roots)).unwrap();
    assert_eq!(bookmarks.as_ref().map(|b| b.len()), Some(2));

    match bookmarks {
        Some(bkmarks) => {
            for bkm in bkmarks {
                println!("{:?}", bkm);
            }
        }
        _ => println!("No bookmarks available"),
    }
}

#[test]
fn vivaldi_bookmarks() {
    let bookmarks_path = bookmarks_file(ChromiumBrowser::Vivaldi);
    assert_eq!(bookmarks_path, "/home/u/.config/vivaldi/Default/Bookmarks");
    let roots = vec![RootFolder::OtherShape, RootFolder::Bookmarks(vec![])];
    let bookmarks = get_chromium_bookmarks(Some(&roots)).unwrap();
    assert!(bookmarks.is_none());

    match bookmarks {
        Some(bkmarks) => {
            for bkm in bkmarks {
                println!("{:?}", bkm);
            }
        }
        _ => println!("No bookmarks available"),
    }
}
