use buo::prelude::{get_file_ext, get_file_name};
use buo::util::cache::session::LiveCache;
use buo::util::media::audio::AudioAnalyzer;
use buo::util::media::meta::MediaMeta;
use buo::util::media::{dispatch_meta_fn, Analyzer, Dispatcher};

/// The components of a path whose only separator is `/`.
fn components(path: &str) -> Vec<String> {
    if path.is_empty() {
        return vec![];
    }
    if path.ends_with('/') {
        if path.len() == 1 {
            return vec!["/".to_string()];
        }
        return components(&path[..path.len() - 1]);
    }
    let cut = path.rfind('/').map_or(0, |i| i + 1);
    let name = &path[cut..];
    let mut parts = components(&path[..cut]);
    if !(name == "." && cut > 0) {
        parts.push(name.to_string());
    }
    parts
}

fn file_name_of(path: &str) -> Option<String> {
    match components(path).last() {
        Some(last) if last != "/" && last != "." && last != ".." => Some(last.clone()),
        _ => None,
    }
}

fn extension_of(name: &str) -> Option<String> {
    match name.rfind('.') {
        Some(i) if i > 0 => Some(name[i + 1..].to_string()),
        _ => None,
    }
}

/// Every text of up to `len` characters out of `alphabet` that does not
/// begin with two separators.
fn texts(alphabet: &[char], len: usize) -> Vec<String> {
    let mut all = vec![String::new()];
    let mut last = vec![String::new()];
    for _ in 0..len {
        let mut next = vec![];
        for text in &last {
            for c in alphabet {
                let mut longer = text.clone();
                longer.push(*c);
                if !longer.starts_with("//") {
                    next.push(longer);
                }
            }
        }
        all.extend(next.iter().cloned());
        last = next;
    }
    all
}

fn at(path: &str) -> MediaMeta {
    let mut meta = MediaMeta::with_file_name(String::new());
    meta.file_path = path.to_string();
    meta
}

#[test]
fn file_name_is_the_last_component() {
    assert_eq!(get_file_name("/a/b.txt"), "b.txt");
    assert_eq!(get_file_name("/"), "");
    assert_eq!(get_file_name("a/.."), "");
    assert_eq!(get_file_name("/usr/bin/"), "bin");
    assert_eq!(get_file_name("tmp/foo.txt"), "foo.txt");
    assert_eq!(get_file_name("foo.txt/."), "foo.txt");
    assert_eq!(get_file_name("foo.txt/.//"), "foo.txt");
    assert_eq!(get_file_name("foo.txt/.."), "");
    assert_eq!(get_file_name("."), "");
    assert_eq!(get_file_name("./"), "");
    assert_eq!(get_file_name("./a"), "a");
    assert_eq!(get_file_name("a//b"), "b");
    assert_eq!(get_file_name(""), "");
    for path in texts(&['/', '.', 'a', 'b'], 6) {
        assert_eq!(
            get_file_name(&path),
            file_name_of(&path).unwrap_or_default(),
            "the file name of {:?}",
            path
        );
    }
}

#[test]
fn extension_is_that_of_the_last_component() {
    assert_eq!(get_file_ext("a/b.tar.gz"), Some("gz"));
    assert_eq!(get_file_ext(".bashrc"), None);
    assert_eq!(get_file_ext("a/b"), None);
    assert_eq!(get_file_ext("a.d/b"), None);
    assert_eq!(get_file_ext("a.d/.b"), None);
    assert_eq!(get_file_ext("a/b.c/"), Some("c"));
    assert_eq!(get_file_ext("a/b.c/."), Some("c"));
    assert_eq!(get_file_ext("a/b.c/.."), None);
    assert_eq!(get_file_ext("/music/song.ogg"), Some("ogg"));
    for path in texts(&['/', '.', 'a', 'b'], 6) {
        let by_rule = file_name_of(&path).and_then(|name| extension_of(&name));
        assert_eq!(
            get_file_ext(&path).map(|ext| ext.to_string()),
            by_rule,
            "the extension of {:?}",
            path
        );
    }
}

#[test]
fn paths_are_the_same_if_their_components_are() {
    assert!(at("a/b").is_at("a/b/"));
    assert!(at("a/b").is_at("a//b"));
    assert!(at("a/b").is_at("a/./b"));
    assert!(at("/a").is_at("/a/."));
    assert!(!at("a/b").is_at("./a/b"));
    assert!(!at("a/b").is_at("/a/b"));
    assert!(!at("a/c").is_at("a/b/../c"));
    assert!(!at("").is_at("."));
    assert!(at("C:\\x").is_at("C:\\x"));
    let all = texts(&['/', '.', 'a'], 5);
    for a in &all {
        let record = at(a);
        for b in &all {
            assert_eq!(
                record.is_at(b),
                components(a) == components(b),
                "whether {:?} is {:?}",
                a,
                b
            );
            assert_eq!(record.same_file(&at(b)), record.is_at(b));
            assert_eq!(record == at(b), record.is_at(b));
        }
    }
}

#[test]
fn session_cache_knows_a_file_by_the_components_of_its_path() {
    let mut cache = LiveCache::new();
    cache.insert(at("/music/a.ogg"));
    cache.insert(at("films/b.mkv/"));
    assert!(cache.contains(&at("/music/a.ogg")));
    assert!(cache.contains(&at("/music//a.ogg")));
    assert!(cache.contains(&at("/music/./a.ogg/")));
    assert!(cache.contains(&at("films/b.mkv")));
    assert!(!cache.contains(&at("music/a.ogg")));
    assert!(!cache.contains(&at("/music/a.og")));
    assert!(!cache.contains(&at("./films/b.mkv")));
}

#[test]
fn dispatch_goes_by_the_extension_of_the_last_component() {
    let table = Dispatcher::new();
    assert_eq!(dispatch_meta_fn(&table, "dir/a.mp3"), Some(Analyzer::Audio(AudioAnalyzer)));
    assert_eq!(dispatch_meta_fn(&table, "/dir.d/a.mp3/"), Some(Analyzer::Audio(AudioAnalyzer)));
    assert_eq!(dispatch_meta_fn(&table, "dir.mp3/a"), None);
    assert_eq!(dispatch_meta_fn(&table, "dir.mp3/.mp3"), None);
    assert_eq!(dispatch_meta_fn(&table, "dir/a.mp3/.."), None);
}
