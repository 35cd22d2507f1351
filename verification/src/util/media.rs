//! Metadata of media files, the analyzers that produce it, and the table
//! that leads from a file's extension to its analyzer.

pub mod audio;
pub mod meta;
pub mod video;

use crate::prelude::{extension_in, extension_of, get_file_ext, is_plain_name, is_portable};
use crate::util::file_types::FileExt;
use crate::util::media::audio::AudioAnalyzer;
use crate::util::media::video::VideoAnalyzer;
use crate::util::text::code::CodeAnalyzer;
use tinyvec::ArrayVec;
use vstd::prelude::*;

verus! {

/// The analyzers, one per category of file.
#[derive(Clone, Copy, Debug, PartialEq, Eq, Structural)]
pub enum Analyzer {
    /// Stands in the unused rows of a table. Nothing is dispatched to it.
    Unset,
    Audio(AudioAnalyzer),
    Video(VideoAnalyzer),
    Code(CodeAnalyzer),
}

/// A row of the dispatch table: an extension and its analyzer.
#[derive(Clone, Copy, Debug, PartialEq, Eq, Structural)]
pub struct FileExtCallback(pub FileExt, pub Analyzer);

impl Default for FileExtCallback {
    fn default() -> (r: Self)
        ensures
            r == FileExtCallback(FileExt::Invalid, Analyzer::Unset),
    {
        FileExtCallback(FileExt::Invalid, Analyzer::Unset)
    }
}

/// The number of rows that a dispatch table has room for.
pub const LEN: usize = 32;

/// The analyzer for files with the extension `ext`, if there is one: audio
/// first, then video, then code.
pub open spec fn analyzer_for(ext: FileExt) -> Option<Analyzer> {
    if ext.is_audio() {
        Some(Analyzer::Audio(AudioAnalyzer))
    } else if ext.is_video() {
        Some(Analyzer::Video(VideoAnalyzer))
    } else if ext.is_dev() {
        Some(Analyzer::Code(CodeAnalyzer))
    } else {
        None
    }
}

/// The rows for the first `n` extensions, in the order of the extensions.
pub open spec fn rows_upto(n: int) -> Seq<FileExtCallback>
    decreases n,
{
    if n <= 0 || n > FileExt::all().len() {
        Seq::empty()
    } else {
        let ext = FileExt::all()[n - 1];
        match analyzer_for(ext) {
            Some(analyzer) => rows_upto(n - 1).push(FileExtCallback(ext, analyzer)),
            None => rows_upto(n - 1),
        }
    }
}

/// The rows of the dispatch table: one for each extension that has an
/// analyzer.
pub open spec fn ext_table() -> Seq<FileExtCallback> {
    rows_upto(FileExt::all().len() as int)
}

/// The first row of `rows` from row `from` on that is for `ext`.
pub open spec fn first_row_for(rows: Seq<FileExtCallback>, ext: FileExt, from: int) -> Option<
    Analyzer,
>
    decreases rows.len() - from,
{
    if from < 0 || from >= rows.len() {
        None
    } else if rows[from].0 == ext {
        Some(rows[from].1)
    } else {
        first_row_for(rows, ext, from + 1)
    }
}

/// `ArrayVec` of `tinyvec`, a row of bounded length kept in an array. Nothing
/// is known of what is inside one but what the functions below say.
#[verifier::external_type_specification]
#[verifier::external_body]
#[verifier::reject_recursive_types(A)]
pub struct ExArrayVec<A>(ArrayVec<A>);

/// The rows that a table of `tinyvec` holds, in order.
pub uninterp spec fn table_rows(table: ArrayVec<[FileExtCallback; LEN]>) -> Seq<FileExtCallback>;

/// `ArrayVec::new`: a table without rows.
#[verifier::external_body]
fn table_new() -> (r: ArrayVec<[FileExtCallback; LEN]>)
    ensures
        table_rows(r) == Seq::<FileExtCallback>::empty(),
{
    ArrayVec::new()
}

/// `ArrayVec::push`: appends `row`. The table must have room, as the call
/// panics on a full table.
#[verifier::external_body]
fn table_push(table: &mut ArrayVec<[FileExtCallback; LEN]>, row: FileExtCallback)
    requires
        table_rows(*old(table)).len() < LEN,
    ensures
        table_rows(*final(table)) == table_rows(*old(table)).push(row),
{
    table.push(row)
}

/// `ArrayVec::len`: the number of rows.
#[verifier::external_body]
fn table_len(table: &ArrayVec<[FileExtCallback; LEN]>) -> (r: usize)
    ensures
        r == table_rows(*table).len(),
{
    table.len()
}

/// `ArrayVec::as_slice`, read at `i`: the row at that place.
#[verifier::external_body]
fn table_row(table: &ArrayVec<[FileExtCallback; LEN]>, i: usize) -> (r: FileExtCallback)
    requires
        i < table_rows(*table).len(),
    ensures
        r == table_rows(*table)[i as int],
{
    table.as_slice()[i]
}

/// The mapping from extensions to analyzers, built once and then only read.
pub struct Dispatcher {
    table: ArrayVec<[FileExtCallback; LEN]>,
}

impl View for Dispatcher {
    type V = Seq<FileExtCallback>;

    closed spec fn view(&self) -> Seq<FileExtCallback> {
        table_rows(self.table)
    }
}

/// How many rows the first `n` extensions give.
proof fn lemma_rows_len(n: int)
    requires
        0 <= n <= FileExt::all().len(),
    ensures
        rows_upto(n).len() <= n,
        n >= 21 ==> rows_upto(n).len() <= n - 11,
    decreases n,
{
    if n > 0 {
        lemma_rows_len(n - 1);
        if n == 21 {
            lemma_rows_start();
        }
    }
}

/// The first twenty-one extensions give ten rows.
proof fn lemma_rows_start()
    ensures
        rows_upto(21).len() == 10,
{
    assert(rows_upto(0).len() == 0);
    assert(FileExt::all()[0] == FileExt::Invalid);
    assert(rows_upto(1).len() == 0);
    assert(FileExt::all()[1] == FileExt::Flac);
    assert(rows_upto(2).len() == 1);
    assert(FileExt::all()[2] == FileExt::Mp3);
    assert(rows_upto(3).len() == 2);
    assert(FileExt::all()[3] == FileExt::M4a);
    assert(rows_upto(4).len() == 3);
    assert(FileExt::all()[4] == FileExt::Ogg);
    assert(rows_upto(5).len() == 4);
    assert(FileExt::all()[5] == FileExt::Wav);
    assert(rows_upto(6).len() == 5);
    assert(FileExt::all()[6] == FileExt::Mp4);
    assert(rows_upto(7).len() == 6);
    assert(FileExt::all()[7] == FileExt::M4v);
    assert(rows_upto(8).len() == 6);
    assert(FileExt::all()[8] == FileExt::Flv);
    assert(rows_upto(9).len() == 7);
    assert(FileExt::all()[9] == FileExt::Mkv);
    assert(rows_upto(10).len() == 8);
    assert(FileExt::all()[10] == FileExt::Mov);
    assert(rows_upto(11).len() == 9);
    assert(FileExt::all()[11] == FileExt::Webm);
    assert(rows_upto(12).len() == 10);
    assert(FileExt::all()[12] == FileExt::Txt);
    assert(rows_upto(13).len() == 10);
    assert(FileExt::all()[13] == FileExt::Docx);
    assert(rows_upto(14).len() == 10);
    assert(FileExt::all()[14] == FileExt::Md);
    assert(rows_upto(15).len() == 10);
    assert(FileExt::all()[15] == FileExt::Odf);
    assert(rows_upto(16).len() == 10);
    assert(FileExt::all()[16] == FileExt::Gif);
    assert(rows_upto(17).len() == 10);
    assert(FileExt::all()[17] == FileExt::Png);
    assert(rows_upto(18).len() == 10);
    assert(FileExt::all()[18] == FileExt::Jpeg);
    assert(rows_upto(19).len() == 10);
    assert(FileExt::all()[19] == FileExt::Jpg);
    assert(rows_upto(20).len() == 10);
    assert(FileExt::all()[20] == FileExt::Raw);
    assert(rows_upto(21).len() == 10);
}

/// Each row of the table pairs an extension with its analyzer, and each
/// extension that has an analyzer has its row.
pub proof fn lemma_rows(n: int)
    requires
        0 <= n <= FileExt::all().len(),
    ensures
        forall|i: int|
            0 <= i < rows_upto(n).len() ==> analyzer_for((#[trigger] rows_upto(n)[i]).0) == Some(
                rows_upto(n)[i].1,
            ),
        forall|j: int|
            0 <= j < n && analyzer_for(#[trigger] FileExt::all()[j]) is Some ==> exists|i: int|
                0 <= i < rows_upto(n).len() && (#[trigger] rows_upto(n)[i]).0 == FileExt::all()[j],
    decreases n,
{
    if n > 0 {
        lemma_rows(n - 1);
        let prev = rows_upto(n - 1);
        let cur = rows_upto(n);
        let ext = FileExt::all()[n - 1];
        assert forall|j: int|
            0 <= j < n && analyzer_for(#[trigger] FileExt::all()[j]) is Some implies exists|i: int|
            0 <= i < cur.len() && (#[trigger] cur[i]).0 == FileExt::all()[j] by {
            if j < n - 1 {
                let i = choose|i: int|
                    0 <= i < prev.len() && (#[trigger] prev[i]).0 == FileExt::all()[j];
                assert(cur[i].0 == FileExt::all()[j]);
            } else {
                assert(cur[cur.len() - 1].0 == ext);
            }
        }
    }
}

/// The first row for an extension holds the extension's analyzer.
proof fn lemma_first_row(rows: Seq<FileExtCallback>, ext: FileExt, from: int)
    requires
        0 <= from,
        forall|i: int|
            0 <= i < rows.len() ==> analyzer_for((#[trigger] rows[i]).0) == Some(rows[i].1),
    ensures
        first_row_for(rows, ext, from) matches Some(a) ==> analyzer_for(ext) == Some(a),
        first_row_for(rows, ext, from) is None ==> forall|i: int|
            from <= i < rows.len() ==> (#[trigger] rows[i]).0 != ext,
    decreases rows.len() - from,
{
    if from < rows.len() && rows[from].0 != ext {
        lemma_first_row(rows, ext, from + 1);
    }
}

/// Dispatch by the table is dispatch by category: the table leads from an
/// extension to the analyzer of its category, and to none where the
/// extension has no analyzer.
pub proof fn lemma_table_dispatches(ext: FileExt)
    ensures
        first_row_for(ext_table(), ext, 0) == analyzer_for(ext),
{
    let n = FileExt::all().len() as int;
    lemma_rows(n);
    lemma_first_row(ext_table(), ext, 0);
    FileExt::lemma_all_is_complete(ext);
    if analyzer_for(ext) is Some && first_row_for(ext_table(), ext, 0) is None {
        let j = choose|j: int| 0 <= j < FileExt::all().len() && #[trigger] FileExt::all()[j] == ext;
        let i = choose|i: int|
            0 <= i < rows_upto(n).len() && (#[trigger] rows_upto(n)[i]).0 == FileExt::all()[j];
        assert(ext_table()[i].0 == ext);
    }
}

impl Dispatcher {
    /// The table holds the rows of `ext_table`.
    pub closed spec fn wf(&self) -> bool {
        self@ == ext_table()
    }

    /// The table with a row for each extension that has an analyzer.
    pub fn new() -> (r: Self)
        ensures
            r.wf(),
            r@ == ext_table(),
    {
        let mut tied = table_new();
        let all = FileExt::iter();
        let mut i: usize = 0;
        while i < all.len()
            invariant
                i <= all.len(),
                all@ == FileExt::all(),
                table_rows(tied) == rows_upto(i as int),
            decreases all.len() - i,
        {
            let ext = all[i];
            proof {
                lemma_rows_len(i as int);
                FileExt::lemma_all_is_complete(ext);
            }
            if ext.is_audio() {
                table_push(&mut tied, FileExtCallback(ext, Analyzer::Audio(AudioAnalyzer)));
            } else if ext.is_video() {
                table_push(&mut tied, FileExtCallback(ext, Analyzer::Video(VideoAnalyzer)));
            } else if ext.is_dev() {
                table_push(&mut tied, FileExtCallback(ext, Analyzer::Code(CodeAnalyzer)));
            }
            i += 1;
        }
        Dispatcher { table: tied }
    }

    /// The analyzer for the extension `ext`, if it has one.
    pub fn dispatch_ext(&self, ext: FileExt) -> (r: Option<Analyzer>)
        requires
            self.wf(),
        ensures
            r == analyzer_for(ext),
            r == first_row_for(self@, ext, 0),
    {
        proof {
            lemma_table_dispatches(ext);
        }
        let n = table_len(&self.table);
        let mut i: usize = 0;
        while i < n
            invariant
                i <= n,
                n == self@.len(),
                first_row_for(self@, ext, 0) == analyzer_for(ext),
                first_row_for(self@, ext, 0) == first_row_for(self@, ext, i as int),
            decreases n - i,
        {
            let row = table_row(&self.table, i);
            if row.0 == ext {
                return Some(row.1);
            }
            i += 1;
        }
        None
    }

    /// The analyzer for a file whose extension is spelled `ext`. `None` for a
    /// file without an extension, and for an extension that is not known or
    /// has no analyzer.
    pub fn dispatch(&self, ext: Option<&str>) -> (r: Option<Analyzer>)
        requires
            self.wf(),
        ensures
            r == match ext {
                Some(name) => analyzer_for(FileExt::named(name@)),
                None => None,
            },
    {
        match ext {
            Some(name) => self.dispatch_ext(FileExt::from_name(name)),
            None => None,
        }
    }
}

/// The analyzer for a file whose extension is `ext`: that of the extension
/// spelled so, where there is such an extension and it has an analyzer.
pub open spec fn dispatched(ext: Option<Seq<char>>) -> Option<Analyzer> {
    match ext {
        Some(name) => analyzer_for(FileExt::named(name)),
        None => None,
    }
}

/// The analyzer for the file at `file_path`, by the path's extension.
/// `None` for a path without an extension, and for an extension that is not
/// known or has no analyzer. For a path that reads the same on Unix and on
/// Windows the analyzer is that of the extension of the path's last
/// component. For any other path, an analyzer that is returned is that of
/// an extension that stands in the path after a dot; and a path without a
/// dot has no analyzer.
pub fn dispatch_meta_fn(table: &Dispatcher, file_path: &str) -> (r: Option<Analyzer>)
    requires
        table.wf(),
    ensures
        r is Some ==> exists|name: Seq<char>|
            #[trigger] analyzer_for(FileExt::named(name)) == r && crate::prelude::ends_with_ext(
                file_path@,
                name,
            ),
        !file_path@.contains('.') ==> r is None,
        is_portable(file_path@) ==> r == dispatched(extension_in(file_path@)),
        is_plain_name(file_path@) ==> r == dispatched(extension_of(file_path@)),
{
    let ext = get_file_ext(file_path);
    table.dispatch(ext)
}

} // verus!
