//! The file extensions that the library knows, and their categories.

use crate::prelude::str_eq;
use vstd::prelude::*;

verus! {

/// A file extension. `Invalid` stands for every extension that is not known.
#[derive(Copy, Clone, Debug, Hash, PartialEq, Eq, Structural)]
pub enum FileExt {
    Invalid,
    // Audio
    Flac,
    Mp3,
    M4a,
    Ogg,
    Wav,
    // Video
    Mp4,
    M4v,
    Flv,
    Mkv,
    Mov,
    Webm,
    // Text
    Txt,
    Docx,
    Md,
    Odf,
    // Img
    Gif,
    Png,
    Jpeg,
    Jpg,
    Raw,
    // Dev
    Html,
    Js,
    Rs,
    Go,
    Ts,
    Py,
    Cpp,
    C,
    Zig,
    Sh,
    Css,
    Dart,
    Java,
    Toml,
    Yaml,
    Yml,
    Json,
    Ini,
    Xml,
}

/// The number of extensions, `Invalid` included.
pub const FILE_EXT_COUNT: usize = 40;

impl FileExt {
    /// The extension's name: its spelling in a file name.
    pub open spec fn name(self) -> Seq<char> {
        match self {
            FileExt::Invalid => "Not a supported file type"@,
            FileExt::Flac => "flac"@,
            FileExt::Mp3 => "mp3"@,
            FileExt::M4a => "m4a"@,
            FileExt::Ogg => "ogg"@,
            FileExt::Wav => "wav"@,
            FileExt::Mp4 => "mp4"@,
            FileExt::M4v => "m4v"@,
            FileExt::Flv => "flv"@,
            FileExt::Mkv => "mkv"@,
            FileExt::Mov => "mov"@,
            FileExt::Webm => "webm"@,
            FileExt::Txt => "txt"@,
            FileExt::Docx => "docx"@,
            FileExt::Md => "md"@,
            FileExt::Odf => "odf"@,
            FileExt::Gif => "gif"@,
            FileExt::Png => "png"@,
            FileExt::Jpeg => "jpeg"@,
            FileExt::Jpg => "jpg"@,
            FileExt::Raw => "RAW"@,
            FileExt::Html => "html"@,
            FileExt::Js => "js"@,
            FileExt::Rs => "rs"@,
            FileExt::Go => "go"@,
            FileExt::Ts => "ts"@,
            FileExt::Py => "py"@,
            FileExt::Cpp => "cpp"@,
            FileExt::C => "c"@,
            FileExt::Zig => "zig"@,
            FileExt::Sh => "sh"@,
            FileExt::Css => "css"@,
            FileExt::Dart => "dart"@,
            FileExt::Java => "java"@,
            FileExt::Toml => "toml"@,
            FileExt::Yaml => "yaml"@,
            FileExt::Yml => "yml"@,
            FileExt::Json => "json"@,
            FileExt::Ini => "ini"@,
            FileExt::Xml => "xml"@,
        }
    }

    /// All extensions, in the order of their declaration.
    pub open spec fn all() -> Seq<FileExt> {
        seq![
            FileExt::Invalid,
            FileExt::Flac,
            FileExt::Mp3,
            FileExt::M4a,
            FileExt::Ogg,
            FileExt::Wav,
            FileExt::Mp4,
            FileExt::M4v,
            FileExt::Flv,
            FileExt::Mkv,
            FileExt::Mov,
            FileExt::Webm,
            FileExt::Txt,
            FileExt::Docx,
            FileExt::Md,
            FileExt::Odf,
            FileExt::Gif,
            FileExt::Png,
            FileExt::Jpeg,
            FileExt::Jpg,
            FileExt::Raw,
            FileExt::Html,
            FileExt::Js,
            FileExt::Rs,
            FileExt::Go,
            FileExt::Ts,
            FileExt::Py,
            FileExt::Cpp,
            FileExt::C,
            FileExt::Zig,
            FileExt::Sh,
            FileExt::Css,
            FileExt::Dart,
            FileExt::Java,
            FileExt::Toml,
            FileExt::Yaml,
            FileExt::Yml,
            FileExt::Json,
            FileExt::Ini,
            FileExt::Xml,
        ]
    }

    /// The extension's name: its spelling in a file name.
    pub fn as_str(&self) -> (r: &'static str)
        ensures
            r@ == self.name(),
    {
        match self {
            FileExt::Invalid => "Not a supported file type",
            FileExt::Flac => "flac",
            FileExt::Mp3 => "mp3",
            FileExt::M4a => "m4a",
            FileExt::Ogg => "ogg",
            FileExt::Wav => "wav",
            FileExt::Mp4 => "mp4",
            FileExt::M4v => "m4v",
            FileExt::Flv => "flv",
            FileExt::Mkv => "mkv",
            FileExt::Mov => "mov",
            FileExt::Webm => "webm",
            FileExt::Txt => "txt",
            FileExt::Docx => "docx",
            FileExt::Md => "md",
            FileExt::Odf => "odf",
            FileExt::Gif => "gif",
            FileExt::Png => "png",
            FileExt::Jpeg => "jpeg",
            FileExt::Jpg => "jpg",
            FileExt::Raw => "RAW",
            FileExt::Html => "html",
            FileExt::Js => "js",
            FileExt::Rs => "rs",
            FileExt::Go => "go",
            FileExt::Ts => "ts",
            FileExt::Py => "py",
            FileExt::Cpp => "cpp",
            FileExt::C => "c",
            FileExt::Zig => "zig",
            FileExt::Sh => "sh",
            FileExt::Css => "css",
            FileExt::Dart => "dart",
            FileExt::Java => "java",
            FileExt::Toml => "toml",
            FileExt::Yaml => "yaml",
            FileExt::Yml => "yml",
            FileExt::Json => "json",
            FileExt::Ini => "ini",
            FileExt::Xml => "xml",
        }
    }

    /// All extensions, in the order of their declaration.
    pub fn iter() -> (r: Vec<FileExt>)
        ensures
            r@ == FileExt::all(),
    {
        let r = vec![
            FileExt::Invalid,
            FileExt::Flac,
            FileExt::Mp3,
            FileExt::M4a,
            FileExt::Ogg,
            FileExt::Wav,
            FileExt::Mp4,
            FileExt::M4v,
            FileExt::Flv,
            FileExt::Mkv,
            FileExt::Mov,
            FileExt::Webm,
            FileExt::Txt,
            FileExt::Docx,
            FileExt::Md,
            FileExt::Odf,
            FileExt::Gif,
            FileExt::Png,
            FileExt::Jpeg,
            FileExt::Jpg,
            FileExt::Raw,
            FileExt::Html,
            FileExt::Js,
            FileExt::Rs,
            FileExt::Go,
            FileExt::Ts,
            FileExt::Py,
            FileExt::Cpp,
            FileExt::C,
            FileExt::Zig,
            FileExt::Sh,
            FileExt::Css,
            FileExt::Dart,
            FileExt::Java,
            FileExt::Toml,
            FileExt::Yaml,
            FileExt::Yml,
            FileExt::Json,
            FileExt::Ini,
            FileExt::Xml,
        ];
        assert(r@ =~= FileExt::all());
        r
    }

    /// Every extension occurs in `all`.
    pub proof fn lemma_all_is_complete(ext: FileExt)
        ensures
            exists|i: int| 0 <= i < FileExt::all().len() && #[trigger] FileExt::all()[i] == ext,
            FileExt::all().len() == FILE_EXT_COUNT,
    {
        match ext {
            FileExt::Invalid => {
                assert(FileExt::all()[0] == ext);
            },
            FileExt::Flac => {
                assert(FileExt::all()[1] == ext);
            },
            FileExt::Mp3 => {
                assert(FileExt::all()[2] == ext);
            },
            FileExt::M4a => {
                assert(FileExt::all()[3] == ext);
            },
            FileExt::Ogg => {
                assert(FileExt::all()[4] == ext);
            },
            FileExt::Wav => {
                assert(FileExt::all()[5] == ext);
            },
            FileExt::Mp4 => {
                assert(FileExt::all()[6] == ext);
            },
            FileExt::M4v => {
                assert(FileExt::all()[7] == ext);
            },
            FileExt::Flv => {
                assert(FileExt::all()[8] == ext);
            },
            FileExt::Mkv => {
                assert(FileExt::all()[9] == ext);
            },
            FileExt::Mov => {
                assert(FileExt::all()[10] == ext);
            },
            FileExt::Webm => {
                assert(FileExt::all()[11] == ext);
            },
            FileExt::Txt => {
                assert(FileExt::all()[12] == ext);
            },
            FileExt::Docx => {
                assert(FileExt::all()[13] == ext);
            },
            FileExt::Md => {
                assert(FileExt::all()[14] == ext);
            },
            FileExt::Odf => {
                assert(FileExt::all()[15] == ext);
            },
            FileExt::Gif => {
                assert(FileExt::all()[16] == ext);
            },
            FileExt::Png => {
                assert(FileExt::all()[17] == ext);
            },
            FileExt::Jpeg => {
                assert(FileExt::all()[18] == ext);
            },
            FileExt::Jpg => {
                assert(FileExt::all()[19] == ext);
            },
            FileExt::Raw => {
                assert(FileExt::all()[20] == ext);
            },
            FileExt::Html => {
                assert(FileExt::all()[21] == ext);
            },
            FileExt::Js => {
                assert(FileExt::all()[22] == ext);
            },
            FileExt::Rs => {
                assert(FileExt::all()[23] == ext);
            },
            FileExt::Go => {
                assert(FileExt::all()[24] == ext);
            },
            FileExt::Ts => {
                assert(FileExt::all()[25] == ext);
            },
            FileExt::Py => {
                assert(FileExt::all()[26] == ext);
            },
            FileExt::Cpp => {
                assert(FileExt::all()[27] == ext);
            },
            FileExt::C => {
                assert(FileExt::all()[28] == ext);
            },
            FileExt::Zig => {
                assert(FileExt::all()[29] == ext);
            },
            FileExt::Sh => {
                assert(FileExt::all()[30] == ext);
            },
            FileExt::Css => {
                assert(FileExt::all()[31] == ext);
            },
            FileExt::Dart => {
                assert(FileExt::all()[32] == ext);
            },
            FileExt::Java => {
                assert(FileExt::all()[33] == ext);
            },
            FileExt::Toml => {
                assert(FileExt::all()[34] == ext);
            },
            FileExt::Yaml => {
                assert(FileExt::all()[35] == ext);
            },
            FileExt::Yml => {
                assert(FileExt::all()[36] == ext);
            },
            FileExt::Json => {
                assert(FileExt::all()[37] == ext);
            },
            FileExt::Ini => {
                assert(FileExt::all()[38] == ext);
            },
            FileExt::Xml => {
                assert(FileExt::all()[39] == ext);
            },
        }
    }

    /// The shape of a name: its length and up to three of its first letters.
    pub open spec fn shaped(self, len: nat, first: Seq<char>) -> bool {
        &&& self.name().len() == len
        &&& first.len() <= len
        &&& forall|i: int| 0 <= i < first.len() ==> self.name()[i] == #[trigger] first[i]
    }

    /// What is known of each name: its length and its first letters.
    proof fn lemma_name_shapes()
        ensures
            FileExt::Invalid.shaped(25, seq!['N', 'o', 't']),
            FileExt::Flac.shaped(4, seq!['f', 'l', 'a']),
            FileExt::Mp3.shaped(3, seq!['m', 'p', '3']),
            FileExt::M4a.shaped(3, seq!['m', '4', 'a']),
            FileExt::Ogg.shaped(3, seq!['o', 'g', 'g']),
            FileExt::Wav.shaped(3, seq!['w', 'a', 'v']),
            FileExt::Mp4.shaped(3, seq!['m', 'p', '4']),
            FileExt::M4v.shaped(3, seq!['m', '4', 'v']),
            FileExt::Flv.shaped(3, seq!['f', 'l', 'v']),
            FileExt::Mkv.shaped(3, seq!['m', 'k', 'v']),
            FileExt::Mov.shaped(3, seq!['m', 'o', 'v']),
            FileExt::Webm.shaped(4, seq!['w', 'e', 'b']),
            FileExt::Txt.shaped(3, seq!['t', 'x', 't']),
            FileExt::Docx.shaped(4, seq!['d', 'o', 'c']),
            FileExt::Md.shaped(2, seq!['m', 'd']),
            FileExt::Odf.shaped(3, seq!['o', 'd', 'f']),
            FileExt::Gif.shaped(3, seq!['g', 'i', 'f']),
            FileExt::Png.shaped(3, seq!['p', 'n', 'g']),
            FileExt::Jpeg.shaped(4, seq!['j', 'p', 'e']),
            FileExt::Jpg.shaped(3, seq!['j', 'p', 'g']),
            FileExt::Raw.shaped(3, seq!['R', 'A', 'W']),
            FileExt::Html.shaped(4, seq!['h', 't', 'm']),
            FileExt::Js.shaped(2, seq!['j', 's']),
            FileExt::Rs.shaped(2, seq!['r', 's']),
            FileExt::Go.shaped(2, seq!['g', 'o']),
            FileExt::Ts.shaped(2, seq!['t', 's']),
            FileExt::Py.shaped(2, seq!['p', 'y']),
            FileExt::Cpp.shaped(3, seq!['c', 'p', 'p']),
            FileExt::C.shaped(1, seq!['c']),
            FileExt::Zig.shaped(3, seq!['z', 'i', 'g']),
            FileExt::Sh.shaped(2, seq!['s', 'h']),
            FileExt::Css.shaped(3, seq!['c', 's', 's']),
            FileExt::Dart.shaped(4, seq!['d', 'a', 'r']),
            FileExt::Java.shaped(4, seq!['j', 'a', 'v']),
            FileExt::Toml.shaped(4, seq!['t', 'o', 'm']),
            FileExt::Yaml.shaped(4, seq!['y', 'a', 'm']),
            FileExt::Yml.shaped(3, seq!['y', 'm', 'l']),
            FileExt::Json.shaped(4, seq!['j', 's', 'o']),
            FileExt::Ini.shaped(3, seq!['i', 'n', 'i']),
            FileExt::Xml.shaped(3, seq!['x', 'm', 'l']),
    {
        reveal_strlit("Not a supported file type");
        reveal_strlit("flac");
        reveal_strlit("mp3");
        reveal_strlit("m4a");
        reveal_strlit("ogg");
        reveal_strlit("wav");
        reveal_strlit("mp4");
        reveal_strlit("m4v");
        reveal_strlit("flv");
        reveal_strlit("mkv");
        reveal_strlit("mov");
        reveal_strlit("webm");
        reveal_strlit("txt");
        reveal_strlit("docx");
        reveal_strlit("md");
        reveal_strlit("odf");
        reveal_strlit("gif");
        reveal_strlit("png");
        reveal_strlit("jpeg");
        reveal_strlit("jpg");
        reveal_strlit("RAW");
        reveal_strlit("html");
        reveal_strlit("js");
        reveal_strlit("rs");
        reveal_strlit("go");
        reveal_strlit("ts");
        reveal_strlit("py");
        reveal_strlit("cpp");
        reveal_strlit("c");
        reveal_strlit("zig");
        reveal_strlit("sh");
        reveal_strlit("css");
        reveal_strlit("dart");
        reveal_strlit("java");
        reveal_strlit("toml");
        reveal_strlit("yaml");
        reveal_strlit("yml");
        reveal_strlit("json");
        reveal_strlit("ini");
        reveal_strlit("xml");
    }

    /// No two extensions share a name.
    pub proof fn lemma_names_differ(a: FileExt, b: FileExt)
        requires
            a != b,
        ensures
            a.name() != b.name(),
    {
        FileExt::lemma_name_shapes();
    }

    /// The extension is known, that is, it is not `Invalid`.
    pub open spec fn is_known(self) -> bool {
        self != FileExt::Invalid
    }

    /// Whether `other` is the name of one of the extensions, that of
    /// `Invalid` included.
    pub fn is_name(other: &str) -> (r: bool)
        ensures
            r == exists|e: FileExt| e.name() == other@,
    {
        let all = FileExt::iter();
        let mut i: usize = 0;
        while i < all.len()
            invariant
                i <= all.len(),
                all@ == FileExt::all(),
                forall|j: int| 0 <= j < i ==> (#[trigger] all[j]).name() != other@,
            decreases all.len() - i,
        {
            if str_eq(all[i].as_str(), other) {
                return true;
            }
            i += 1;
        }
        proof {
            assert forall|e: FileExt| e.name() != other@ by {
                FileExt::lemma_all_is_complete(e);
            }
        }
        false
    }

    /// The extension spelled `s`: the one whose name is `s`, or `Invalid` if
    /// there is none.
    pub open spec fn named(s: Seq<char>) -> FileExt {
        if exists|e: FileExt| e.name() == s {
            choose|e: FileExt| e.name() == s
        } else {
            FileExt::Invalid
        }
    }

    /// The extension spelled `s`: the one whose name is `s`, or `Invalid` if
    /// there is none.
    pub fn from_name(s: &str) -> (r: FileExt)
        ensures
            r == FileExt::named(s@),
            r.name() == s@ || (r == FileExt::Invalid && forall|e: FileExt| e.name() != s@),
    {
        let all = FileExt::iter();
        let mut i: usize = 0;
        while i < all.len()
            invariant
                i <= all.len(),
                all@ == FileExt::all(),
                forall|j: int| 0 <= j < i ==> (#[trigger] all[j]).name() != s@,
            decreases all.len() - i,
        {
            if str_eq(all[i].as_str(), s) {
                proof {
                    let e = all[i as int];
                    if FileExt::named(s@) != e {
                        FileExt::lemma_names_differ(FileExt::named(s@), e);
                    }
                }
                return all[i];
            }
            i += 1;
        }
        proof {
            assert forall|e: FileExt| e.name() != s@ by {
                FileExt::lemma_all_is_complete(e);
            }
        }
        FileExt::Invalid
    }

    /// The extension is that of a text document.
    pub open spec fn spec_is_text(&self) -> bool {
        matches!(self, FileExt::Txt | FileExt::Md | FileExt::Docx | FileExt::Odf)
    }

    /// Whether the extension is that of a text document.
    #[verifier::when_used_as_spec(spec_is_text)]
    pub fn is_text(&self) -> (r: bool)
        ensures
            r == self.spec_is_text(),
    {
        matches!(self, FileExt::Txt | FileExt::Md | FileExt::Docx | FileExt::Odf)
    }

    /// The extension is that of an audio file.
    pub open spec fn spec_is_audio(&self) -> bool {
        matches!(self, FileExt::Flac | FileExt::Mp3 | FileExt::M4a | FileExt::Ogg | FileExt::Wav)
    }

    /// Whether the extension is that of an audio file.
    #[verifier::when_used_as_spec(spec_is_audio)]
    pub fn is_audio(&self) -> (r: bool)
        ensures
            r == self.spec_is_audio(),
    {
        matches!(self, FileExt::Flac | FileExt::Mp3 | FileExt::M4a | FileExt::Ogg | FileExt::Wav)
    }

    /// The extension is that of a video file.
    pub open spec fn spec_is_video(&self) -> bool {
        matches!(self, FileExt::Mkv | FileExt::Flv | FileExt::Mov | FileExt::Mp4 | FileExt::Webm)
    }

    /// Whether the extension is that of a video file.
    #[verifier::when_used_as_spec(spec_is_video)]
    pub fn is_video(&self) -> (r: bool)
        ensures
            r == self.spec_is_video(),
    {
        matches!(self, FileExt::Mkv | FileExt::Flv | FileExt::Mov | FileExt::Mp4 | FileExt::Webm)
    }

    /// The extension is that of an image.
    pub open spec fn spec_is_img(&self) -> bool {
        matches!(self, FileExt::Png | FileExt::Jpg | FileExt::Jpeg | FileExt::Gif)
    }

    /// Whether the extension is that of an image.
    #[verifier::when_used_as_spec(spec_is_img)]
    pub fn is_img(&self) -> (r: bool)
        ensures
            r == self.spec_is_img(),
    {
        matches!(self, FileExt::Png | FileExt::Jpg | FileExt::Jpeg | FileExt::Gif)
    }

    /// The extension is that of source code or configuration.
    pub open spec fn spec_is_dev(&self) -> bool {
        matches!(self, FileExt::Html | FileExt::Js | FileExt::Rs | FileExt::Go | FileExt::Ts | FileExt::Py | FileExt::Cpp | FileExt::C | FileExt::Zig | FileExt::Sh | FileExt::Css | FileExt::Dart | FileExt::Java | FileExt::Json | FileExt::Toml | FileExt::Yml | FileExt::Yaml | FileExt::Ini | FileExt::Xml)
    }

    /// Whether the extension is that of source code or configuration.
    #[verifier::when_used_as_spec(spec_is_dev)]
    pub fn is_dev(&self) -> (r: bool)
        ensures
            r == self.spec_is_dev(),
    {
        matches!(self, FileExt::Html | FileExt::Js | FileExt::Rs | FileExt::Go | FileExt::Ts | FileExt::Py | FileExt::Cpp | FileExt::C | FileExt::Zig | FileExt::Sh | FileExt::Css | FileExt::Dart | FileExt::Java | FileExt::Json | FileExt::Toml | FileExt::Yml | FileExt::Yaml | FileExt::Ini | FileExt::Xml)
    }

    /// The extension is that of a format whose tags the audio probe reads.
    pub open spec fn spec_is_iso4(&self) -> bool {
        matches!(self, FileExt::Mp3 | FileExt::Mp4 | FileExt::M4v | FileExt::M4a | FileExt::Wav | FileExt::Flac | FileExt::Ogg)
    }

    /// Whether the extension is that of a format whose tags the audio probe reads.
    #[verifier::when_used_as_spec(spec_is_iso4)]
    pub fn is_iso4(&self) -> (r: bool)
        ensures
            r == self.spec_is_iso4(),
    {
        matches!(self, FileExt::Mp3 | FileExt::Mp4 | FileExt::M4v | FileExt::M4a | FileExt::Wav | FileExt::Flac | FileExt::Ogg)
    }

    /// The extension is that of a Matroska container.
    pub open spec fn spec_is_matroska(&self) -> bool {
        matches!(self, FileExt::Mkv | FileExt::Webm)
    }

    /// Whether the extension is that of a Matroska container.
    #[verifier::when_used_as_spec(spec_is_matroska)]
    pub fn is_matroska(&self) -> (r: bool)
        ensures
            r == self.spec_is_matroska(),
    {
        matches!(self, FileExt::Mkv | FileExt::Webm)
    }

}

impl<'a> From<&'a str> for FileExt {
    /// The extension spelled `s`, or `Invalid` if there is none.
    fn from(s: &'a str) -> (r: Self) {
        FileExt::from_name(s)
    }
}

impl<'a> vstd::std_specs::convert::FromSpecImpl<&'a str> for FileExt {
    open spec fn obeys_from_spec() -> bool {
        true
    }

    open spec fn from_spec(s: &'a str) -> Self {
        FileExt::named(s@)
    }
}

impl Default for FileExt {
    fn default() -> (r: Self)
        ensures
            r == FileExt::Invalid,
    {
        FileExt::Invalid
    }
}

} // verus!
