use buo::util::dev::{
    collect_into_stats, find_readme, get_comments, get_loc, is_countable, is_summable, LangStats,
    LanguageReports, Report,
};
use buo::util::dirs::{DirMeta, DirWalker, WalkEvent};
use buo::util::iso4::{into_meta, iso4_media_meta, StandardTagKey, Tag, TagError};
use buo::util::json_out::{export_text, output_form, ExportKind, OutputForm};
use buo::util::media::audio;
use buo::util::media::meta::{DateKind, MediaDuration, MediaMeta, UtcTime};
use buo::util::media::video::Info;
use buo::util::text::code;

fn tag(std_key: Option<StandardTagKey>, key: &str, value: &str) -> Tag {
    Tag { std_key, key: key.to_string(), value: value.to_string() }
}

fn sym(date: &Option<DateKind>) -> Option<String> {
    match date {
        Some(DateKind::Sym(s)) => Some(s.clone()),
        _ => None,
    }
}

#[test]
fn tags_give_title_author_date_and_extra() {
    let tags = vec![
        tag(Some(StandardTagKey::Composer), "TCOM", "Composer"),
        tag(Some(StandardTagKey::TrackTitle), "TIT2", "First"),
        tag(None, "X-ONE", "1"),
        tag(Some(StandardTagKey::Artist), "TPE1", "Artist"),
        tag(Some(StandardTagKey::Writer), "TEXT", "Writer"),
        tag(Some(StandardTagKey::TrackTitle), "TIT2", "Second"),
        tag(Some(StandardTagKey::OriginalDate), "TDOR", "1999"),
        tag(Some(StandardTagKey::Other), "TBPM", "120"),
        tag(None, "X-TWO", "2"),
    ];
    let meta = into_meta(&tags, "song.mp3".to_string()).unwrap();
    assert_eq!(meta.file_name, "song.mp3");
    assert_eq!(meta.file_path, "");
    assert_eq!(meta.title.as_deref(), Some("Second"));
    assert_eq!(meta.author.as_deref(), Some("Artist"));
    assert_eq!(sym(&meta.date).as_deref(), Some("1999"));
    assert_eq!(meta.extra.as_deref(), Some("X-ONE: 1\nX-TWO: 2"));
    assert!(meta.duration.is_none() && meta.stats.is_none() && !meta.display_extra);
}

#[test]
fn tags_without_artist_take_the_first_credit() {
    let tags = vec![
        tag(Some(StandardTagKey::Writer), "TEXT", ""),
        tag(Some(StandardTagKey::Composer), "TCOM", "Composer"),
        tag(Some(StandardTagKey::AlbumArtist), "TPE2", "Album"),
        tag(Some(StandardTagKey::Artist), "TPE1", ""),
        tag(Some(StandardTagKey::TrackTitle), "TIT2", ""),
    ];
    let meta = into_meta(&tags, "a".to_string()).unwrap();
    assert_eq!(meta.author.as_deref(), Some("Composer"));
    assert_eq!(meta.title, None);
    assert_eq!(meta.extra, None);
    assert!(meta.date.is_none());

    let loose = audio::into_meta(&tags, "a".to_string()).unwrap();
    assert_eq!(loose.author.as_deref(), Some(""));
    assert_eq!(loose.title.as_deref(), Some(""));
    assert_eq!(loose.extra.as_deref(), Some(""));
}

#[test]
fn no_tags_are_no_metadata() {
    assert_eq!(into_meta(&vec![], "a".to_string()).map(|m| m.file_name), Err(TagError::NoMetadata));
    assert_eq!(
        audio::into_meta(&vec![], "a".to_string()).map(|m| m.file_name),
        Err(TagError::NoMetadata)
    );
    assert_eq!(TagError::NoMetadata.message(), "No metadata available!");
    let bare = iso4_media_meta("a.mp4".to_string(), None).unwrap();
    assert_eq!(bare.file_name, "a.mp4");
    assert!(bare.title.is_none() && bare.extra.is_none());
    let bare = audio::pretty_meta("a.ogg".to_string(), None).unwrap();
    assert_eq!(bare.file_name, "a.ogg");
    let tags = vec![tag(Some(StandardTagKey::TrackTitle), "TIT2", "T")];
    assert_eq!(iso4_media_meta("x".to_string(), Some(&tags)).unwrap().title.as_deref(), Some("T"));
    assert_eq!(audio::pretty_meta("x".to_string(), Some(&tags)).unwrap().title.as_deref(), Some("T"));
}

#[test]
fn matroska_header_needs_title_duration_and_date() {
    let full = Info {
        title: Some("Film".to_string()),
        duration: MediaDuration::new(90, 500_000_000),
        date_utc: Some(UtcTime { secs: 1431648000, nanos: 0 }),
    };
    let meta = full.into_meta("film.mkv".to_string()).unwrap();
    assert_eq!(meta.file_name, "film.mkv");
    assert_eq!(meta.title.as_deref(), Some("Film"));
    assert_eq!(meta.duration.map(|d| (d.secs(), d.nanos())), Some((90, 500_000_000)));
    assert!(matches!(meta.date, Some(DateKind::Chrono { secs: 1431648000, nanos: 0 })));
    let no_title = Info {
        title: None,
        duration: MediaDuration::new(1, 0),
        date_utc: Some(UtcTime { secs: 0, nanos: 0 }),
    };
    assert!(no_title.into_meta("f".to_string()).is_none());
    let no_duration =
        Info { title: Some("t".to_string()), duration: None, date_utc: Some(UtcTime { secs: 0, nanos: 0 }) };
    assert!(no_duration.into_meta("f".to_string()).is_none());
    let no_date =
        Info { title: Some("t".to_string()), duration: MediaDuration::new(1, 0), date_utc: None };
    assert!(no_date.into_meta("f".to_string()).is_none());
}

#[test]
fn duration_keeps_nanoseconds_below_a_second() {
    assert!(MediaDuration::new(0, 999_999_999).is_some());
    assert!(MediaDuration::new(0, 1_000_000_000).is_none());
    assert_eq!(MediaDuration::new(1, 500_000_000).unwrap().to_string(), "1.5s");
    assert_eq!(MediaDuration::new(0, 20_000_000).unwrap().to_string(), "20ms");
}

#[test]
fn record_as_text() {
    let mut meta = MediaMeta::with_file_name("song.mp3".to_string());
    assert_eq!(meta.to_string(), "file name: song.mp3\n");
    meta.title = Some("Title".to_string());
    meta.author = Some(String::new());
    meta.duration = MediaDuration::new(61, 0);
    meta.date = Some(DateKind::Sym("1999".to_string()));
    meta.extra = Some("not shown".to_string());
    assert_eq!(meta.to_string(), "file name: song.mp3\ntitle: Title\nduration: 61s\nyear: 1999\n");
    meta.author = Some("Someone".to_string());
    meta.date = Some(DateKind::Chrono { secs: 1431648000, nanos: 0 });
    assert_eq!(
        meta.to_string(),
        "file name: song.mp3\ntitle: Title\nauthor: Someone\nduration: 61s\ndate: Fri May 15 00:00:00 2015\n"
    );
    assert_eq!(DateKind::Sym("2001".to_string()).to_string(), "year: 2001\n");
    assert_eq!(DateKind::Chrono { secs: 0, nanos: 0 }.to_string(), "date: Thu Jan  1 00:00:00 1970\n");
    assert_eq!(DateKind::Chrono { secs: i64::MAX, nanos: 0 }.to_string(), "");
}

#[test]
fn record_of_code_shows_statistics_only() {
    let mut meta = MediaMeta::with_file_name("project".to_string());
    meta.title = Some("not shown".to_string());
    meta.stats = Some(vec![
        LangStats::new("Rust".to_string(), 1200, 34),
        LangStats::new("TOML".to_string(), 10, 0),
        LangStats::new("Text".to_string(), 0, 0),
    ]);
    assert_eq!(
        meta.to_string(),
        "file name: project\nRust\n1200 loc, 34 comments.\nTOML\n10 loc.\nText\n"
    );
    meta.stats = Some(vec![]);
    assert_eq!(meta.to_string(), "file name: project\n");
}

#[test]
fn records_are_equal_if_of_the_same_file() {
    let mut a = MediaMeta::with_file_name("a".to_string());
    let mut b = MediaMeta::with_file_name("b".to_string());
    assert!(a == b);
    a.file_path = "/x/a".to_string();
    assert!(a != b);
    b.file_path = "/x/a".to_string();
    assert!(a == b);
    assert!(MediaMeta::default() == MediaMeta::with_file_name(String::new()));
    assert!(a.is_at("/x/a"));
    assert!(a.is_at("/x/a/"));
    assert!(!a.is_at("/x/b"));
    b.file_path = "/x//a/.".to_string();
    assert!(a == b);
}

#[test]
fn language_statistics() {
    let stats = LangStats::new("Rust".to_string(), 0, 7);
    assert_eq!(stats.name(), "Rust");
    assert_eq!(stats.loc(), None);
    assert_eq!(stats.comments(), Some(7));
    assert_eq!(stats.to_string(), "Rust\n7 comments.");
    assert_eq!(LangStats::new("C".to_string(), 12, 0).to_string(), "C\n12 loc.");
    assert_eq!(LangStats::new("C".to_string(), 0, 0).to_string(), "C\n");
    assert_eq!(
        LangStats::new("Go".to_string(), 18446744073709551615, 100).to_string(),
        "Go\n18446744073709551615 loc, 100 comments."
    );
}

#[test]
fn statistics_are_summed_per_language() {
    let reports = vec![Report { code: 10, comments: 1 }, Report { code: 5, comments: 0 }];
    assert_eq!(get_loc(&reports), 15);
    assert_eq!(get_comments(&reports), 1);
    assert_eq!(get_loc(&vec![]), 0);
    let langs = vec![
        LanguageReports { name: "Rust".to_string(), reports },
        LanguageReports { name: "Markdown".to_string(), reports: vec![Report { code: 0, comments: 0 }] },
    ];
    let stats = collect_into_stats(&langs);
    assert_eq!(stats.len(), 2);
    assert_eq!((stats[0].name(), stats[0].loc(), stats[0].comments()), ("Rust", Some(15), Some(1)));
    assert_eq!((stats[1].name(), stats[1].loc(), stats[1].comments()), ("Markdown", None, None));
    let meta = code::into_meta(&langs, "project".to_string()).unwrap();
    assert_eq!(meta.file_name, "project");
    assert_eq!(meta.stats.as_ref().map(|s| s.len()), Some(2));
    assert!(meta.title.is_none() && meta.extra.is_none() && !meta.display_extra);
}

#[test]
fn readme_is_found_and_attached() {
    let names: Vec<String> =
        ["Cargo.toml", "MY_README.txt", "README.md"].iter().map(|s| s.to_string()).collect();
    assert_eq!(find_readme(&names), Some(1));
    assert_eq!(find_readme(&vec!["readme.md".to_string()]), None);
    assert_eq!(find_readme(&vec![]), None);
    let mut meta = Some(MediaMeta::with_file_name("project".to_string()));
    code::attach_readme(&mut meta, "Hello");
    let meta = meta.unwrap();
    assert_eq!(meta.extra.as_deref(), Some("Readme:\nHello"));
    assert!(meta.display_extra);
    assert_eq!(meta.file_name, "project");
    let mut none: Option<MediaMeta> = None;
    code::attach_readme(&mut none, "Hello");
    assert!(none.is_none());
}

#[test]
fn directory_tally() {
    let mut walker = DirWalker::new();
    assert_eq!(walker, DirWalker::default());
    for event in [
        WalkEvent::Sized(4096),
        WalkEvent::Unreadable,
        WalkEvent::Sized(100),
        WalkEvent::SizeUnknown,
        WalkEvent::SizeUnknown,
    ] {
        assert!(walker.can_record(event));
        walker.record(event);
    }
    assert_eq!(
        walker,
        DirWalker { total: 4196, dir_ent_count: 2, io_err_count: 1, filesize_err_count: 2 }
    );
    assert!(!walker.can_record(WalkEvent::Sized(u64::MAX)));
    let full = DirWalker { total: 0, dir_ent_count: 0, io_err_count: u16::MAX, filesize_err_count: u16::MAX };
    assert!(!full.can_record(WalkEvent::Unreadable) && !full.can_record(WalkEvent::SizeUnknown));
    let meta = walker.into_meta("/tmp/x".to_string());
    assert_eq!((meta.path.as_str(), meta.disk_size, meta.num_files), ("/tmp/x", 4196, 2));
    assert_eq!(meta.to_string(), "path: /tmp/x\n2 files\ndisk size: <4196>");
    let empty = DirMeta { path: String::new(), disk_size: 0, num_files: 0 };
    assert_eq!(empty.to_string(), "path: \n0 files\ndisk size: <0>");
}

#[test]
fn output_form_and_export_text() {
    assert_eq!(output_form(false, false), OutputForm::Text);
    assert_eq!(output_form(true, false), OutputForm::Json);
    assert_eq!(output_form(false, true), OutputForm::PrettyJson);
    assert_eq!(output_form(true, true), OutputForm::PrettyJson);
    assert_eq!(ExportKind::Dir.as_str(), "Dir");
    assert_eq!(ExportKind::File.as_str(), "File");
    assert_eq!(export_text(ExportKind::File, "file name: a\n"), "type: File\nfile name: a\n");
}

#[test]
fn sums_that_do_not_fit_are_told_apart() {
    let fits = vec![Report { code: usize::MAX - 1, comments: 0 }, Report { code: 1, comments: usize::MAX }];
    assert!(is_summable(&fits));
    assert_eq!(get_loc(&fits), usize::MAX);
    let too_much_code = vec![Report { code: usize::MAX, comments: 0 }, Report { code: 1, comments: 0 }];
    assert!(!is_summable(&too_much_code));
    let too_many_comments = vec![Report { code: 0, comments: 1 }, Report { code: 0, comments: usize::MAX }];
    assert!(!is_summable(&too_many_comments));
    assert!(is_summable(&vec![]));
    let langs = vec![
        LanguageReports { name: "A".to_string(), reports: fits },
        LanguageReports { name: "B".to_string(), reports: too_much_code },
    ];
    assert!(!is_countable(&langs));
    assert!(is_countable(&langs[..1].iter().map(|l| LanguageReports { name: l.name.clone(), reports: l.reports.clone() }).collect()));
    assert!(is_countable(&vec![]));
}
