use buo::prelude::{get_file_ext, get_file_name};
use buo::util::file_types::FileExt;
use buo::util::media::audio::AudioAnalyzer;
use buo::util::media::video::{VideoAnalyzer, VideoReader};
use buo::util::media::{dispatch_meta_fn, Analyzer, Dispatcher, FileExtCallback, LEN};
use buo::util::text::code::CodeAnalyzer;
use buo::util::traits::OptionFromBool;

#[test]
fn extension_names_are_lower_case_spellings() {
    assert_eq!(FileExt::Flac.as_str(), "flac");
    assert_eq!(FileExt::Mp3.as_str(), "mp3");
    assert_eq!(FileExt::Jpeg.as_str(), "jpeg");
    assert_eq!(FileExt::Raw.as_str(), "RAW");
    assert_eq!(FileExt::Invalid.as_str(), "Not a supported file type");
    assert_eq!(FileExt::iter().len(), 40);
    assert_eq!(FileExt::iter()[0], FileExt::Invalid);
    assert_eq!(FileExt::iter()[39], FileExt::Xml);
}

#[test]
fn every_extension_is_found_by_its_name() {
    for ext in FileExt::iter() {
        assert_eq!(FileExt::from_name(ext.as_str()), ext);
        assert_eq!(FileExt::from(ext.as_str()), ext);
    }
    assert_eq!(FileExt::from_name("exe"), FileExt::Invalid);
    assert_eq!(FileExt::from_name("MP3"), FileExt::Invalid);
    assert_eq!(FileExt::from_name("raw"), FileExt::Invalid);
    assert_eq!(FileExt::from_name(""), FileExt::Invalid);
    assert_eq!(FileExt::default(), FileExt::Invalid);
}

#[test]
fn extension_categories() {
    let count = |f: fn(&FileExt) -> bool| FileExt::iter().iter().filter(|e| f(e)).count();
    assert_eq!(count(FileExt::is_text), 4);
    assert_eq!(count(FileExt::is_audio), 5);
    assert_eq!(count(FileExt::is_video), 5);
    assert_eq!(count(FileExt::is_img), 4);
    assert_eq!(count(FileExt::is_dev), 19);
    assert_eq!(count(FileExt::is_iso4), 7);
    assert_eq!(count(FileExt::is_matroska), 2);
    assert!(FileExt::Md.is_text() && !FileExt::Md.is_dev());
    assert!(FileExt::Wav.is_audio() && FileExt::Wav.is_iso4());
    assert!(FileExt::Mkv.is_video() && FileExt::Mkv.is_matroska());
    assert!(!FileExt::M4v.is_video() && FileExt::M4v.is_iso4());
    assert!(FileExt::Gif.is_img() && !FileExt::Raw.is_img());
    assert!(FileExt::Rs.is_dev() && FileExt::Yml.is_dev());
    assert!(!FileExt::Invalid.is_text() && !FileExt::Invalid.is_dev());
}

#[test]
fn dispatch_by_category() {
    let table = Dispatcher::new();
    assert_eq!(table.dispatch_ext(FileExt::Flac), Some(Analyzer::Audio(AudioAnalyzer)));
    assert_eq!(table.dispatch_ext(FileExt::Webm), Some(Analyzer::Video(VideoAnalyzer)));
    assert_eq!(table.dispatch_ext(FileExt::Toml), Some(Analyzer::Code(CodeAnalyzer)));
    assert_eq!(table.dispatch_ext(FileExt::Txt), None);
    assert_eq!(table.dispatch_ext(FileExt::Png), None);
    assert_eq!(table.dispatch_ext(FileExt::M4v), None);
    assert_eq!(table.dispatch_ext(FileExt::Invalid), None);
    let mut with_analyzer = 0;
    for ext in FileExt::iter() {
        if table.dispatch_ext(ext).is_some() {
            with_analyzer += 1;
        }
    }
    assert_eq!(with_analyzer, 29);
    assert!(with_analyzer <= LEN);
}

#[test]
fn dispatch_by_spelling_and_by_path() {
    let table = Dispatcher::new();
    assert_eq!(table.dispatch(Some("mp3")), Some(Analyzer::Audio(AudioAnalyzer)));
    assert_eq!(table.dispatch(Some("MP3")), None);
    assert_eq!(table.dispatch(Some("unknown")), None);
    assert_eq!(table.dispatch(None), None);
    assert_eq!(dispatch_meta_fn(&table, "/music/song.ogg"), Some(Analyzer::Audio(AudioAnalyzer)));
    assert_eq!(dispatch_meta_fn(&table, "/films/film.mkv"), Some(Analyzer::Video(VideoAnalyzer)));
    assert_eq!(dispatch_meta_fn(&table, "src/main.rs"), Some(Analyzer::Code(CodeAnalyzer)));
    assert_eq!(dispatch_meta_fn(&table, "notes.txt"), None);
    assert_eq!(dispatch_meta_fn(&table, "Makefile"), None);
    assert_eq!(dispatch_meta_fn(&table, ".rs"), None);
    assert_eq!(dispatch_meta_fn(&table, "archive.tar.zz"), None);
}

#[test]
fn analyzers_serve_their_categories() {
    assert!(AudioAnalyzer.serves(FileExt::Mp3) && !AudioAnalyzer.serves(FileExt::Mp4));
    assert!(VideoAnalyzer.serves(FileExt::Mp4) && !VideoAnalyzer.serves(FileExt::Rs));
    assert!(CodeAnalyzer.serves(FileExt::Rs) && !CodeAnalyzer.serves(FileExt::Txt));
    assert_eq!(VideoAnalyzer.reader_for(FileExt::Mkv), Some(VideoReader::Matroska));
    assert_eq!(VideoAnalyzer.reader_for(FileExt::Webm), Some(VideoReader::Matroska));
    assert_eq!(VideoAnalyzer.reader_for(FileExt::Mp4), Some(VideoReader::Iso4));
    assert_eq!(VideoAnalyzer.reader_for(FileExt::Mov), None);
    assert_eq!(FileExtCallback::default(), FileExtCallback(FileExt::Invalid, Analyzer::Unset));
}

#[test]
fn file_name_and_extension_of_a_path() {
    assert_eq!(get_file_name("/music/song.ogg"), "song.ogg");
    assert_eq!(get_file_name("/music/album/"), "album");
    assert_eq!(get_file_name("/"), "");
    assert_eq!(get_file_name(".."), "");
    assert_eq!(get_file_ext("/music/song.ogg"), Some("ogg"));
    assert_eq!(get_file_ext("archive.tar.gz"), Some("gz"));
    assert_eq!(get_file_ext(".bashrc"), None);
    assert_eq!(get_file_ext("Makefile"), None);
}

#[test]
fn option_from_bool() {
    assert_eq!(true.opt(5), Some(5));
    assert_eq!(false.opt(5), None);
    assert_eq!(true.opt_and(Some(7)), Some(7));
    assert_eq!(true.opt_and(None::<i32>), None);
    assert_eq!(false.opt_and(Some(7)), None);
    assert_eq!(false.opt_not(9), Some(9));
    assert_eq!(true.opt_not(9), None);
}

#[test]
fn names_of_extensions_are_known() {
    assert!(FileExt::is_name("flac"));
    assert!(FileExt::is_name("RAW"));
    assert!(FileExt::is_name("Not a supported file type"));
    assert!(!FileExt::is_name("raw"));
    assert!(!FileExt::is_name("exe"));
    assert!(!FileExt::is_name(""));
}

#[test]
fn extension_of_a_plain_name_follows_its_last_dot() {
    let cases: [(&str, Option<&str>); 14] = [
        ("foo.rs", Some("rs")),
        ("foo.tar.gz", Some("gz")),
        ("a", None),
        (".bashrc", None),
        (".bashrc.bak", Some("bak")),
        ("foo.", Some("")),
        ("foo..", Some("")),
        ("..foo", Some("foo")),
        ("...", Some("")),
        (" .x", Some("x")),
        ("a.b c", Some("b c")),
        ("song.OGG", Some("OGG")),
        ("no dot here", None),
        ("x.y.z.w", Some("w")),
    ];
    for (name, ext) in cases {
        assert_eq!(get_file_ext(name), ext, "the extension of {:?}", name);
        let by_rule = match name.rfind('.') {
            Some(i) if i > 0 => Some(&name[i + 1..]),
            _ => None,
        };
        assert_eq!(get_file_ext(name), by_rule, "the rule for {:?}", name);
    }
}

#[test]
fn dispatch_of_a_plain_name_goes_by_its_extension() {
    let table = Dispatcher::new();
    assert_eq!(dispatch_meta_fn(&table, "a.mp3"), Some(Analyzer::Audio(AudioAnalyzer)));
    assert_eq!(dispatch_meta_fn(&table, "film.tar.webm"), Some(Analyzer::Video(VideoAnalyzer)));
    assert_eq!(dispatch_meta_fn(&table, "..toml"), Some(Analyzer::Code(CodeAnalyzer)));
    assert_eq!(dispatch_meta_fn(&table, ".toml"), None);
    assert_eq!(dispatch_meta_fn(&table, "toml"), None);
    assert_eq!(dispatch_meta_fn(&table, "a.mp3."), None);
    assert_eq!(dispatch_meta_fn(&table, "a.MP3"), None);
    assert_eq!(dispatch_meta_fn(&table, "a.m4v"), None);
}
