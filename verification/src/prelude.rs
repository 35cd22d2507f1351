//! Types and helpers shared by the whole library.

use vstd::prelude::*;

verus! {

/// The kinds of I/O failure that the library tells apart.
#[derive(Clone, Copy, Debug, PartialEq, Eq, Structural)]
pub enum IoKind {
    NotFound,
    PermissionDenied,
    AlreadyExists,
    InvalidInput,
    InvalidData,
    /// Any other kind.
    Other,
}

/// An I/O failure as the caller met it: its kind and its message.
#[derive(Debug)]
pub struct IoFailure {
    pub kind: IoKind,
    pub message: String,
}

impl IoFailure {
    /// A copy of this failure.
    pub fn duplicate(&self) -> (r: Self)
        ensures
            r == *self,
    {
        IoFailure { kind: self.kind, message: self.message.clone() }
    }
}

/// Whether two string slices spell the same text. Calls `str`'s `==` of the
/// standard library, which compares the two texts byte for byte.
#[verifier::external_body]
pub(crate) fn str_eq(a: &str, b: &str) -> (r: bool)
    ensures
        r == (a@ == b@),
{
    a == b
}

/// `part` stands somewhere in `whole`, unbroken.
pub open spec fn is_part_of(part: Seq<char>, whole: Seq<char>) -> bool {
    exists|i: int|
        0 <= i && i + part.len() <= whole.len() && #[trigger] whole.subrange(i, i + part.len())
            == part
}

/// The character of the digit `d`.
pub open spec fn digit(d: nat) -> char {
    if d == 0 {
        '0'
    } else if d == 1 {
        '1'
    } else if d == 2 {
        '2'
    } else if d == 3 {
        '3'
    } else if d == 4 {
        '4'
    } else if d == 5 {
        '5'
    } else if d == 6 {
        '6'
    } else if d == 7 {
        '7'
    } else if d == 8 {
        '8'
    } else {
        '9'
    }
}

/// The number `n` written in decimal digits, without leading zeros.
pub open spec fn decimal(n: nat) -> Seq<char>
    decreases n,
{
    if n < 10 {
        seq![digit(n)]
    } else {
        decimal(n / 10).push(digit(n % 10))
    }
}

/// `ToString` of the standard library for `u64`: the number in decimal
/// digits.
#[verifier::external_body]
pub(crate) fn u64_to_string(n: u64) -> (r: String)
    ensures
        r@ == decimal(n as nat),
{
    n.to_string()
}

/// `whole` starts with `part`.
pub open spec fn is_prefix(part: Seq<char>, whole: Seq<char>) -> bool {
    part.len() <= whole.len() && whole.subrange(0, part.len() as int) == part
}

/// `whole` ends with `part`.
pub open spec fn is_suffix(part: Seq<char>, whole: Seq<char>) -> bool {
    part.len() <= whole.len() && whole.subrange(whole.len() - part.len(), whole.len() as int)
        == part
}

/// `str::starts_with` of the standard library, with a string as the
/// pattern: whether `s` begins with `pattern`.
#[verifier::external_body]
pub(crate) fn starts_with(s: &str, pattern: &str) -> (r: bool)
    ensures
        r == is_prefix(pattern@, s@),
{
    s.starts_with(pattern)
}

/// `str::ends_with` of the standard library, with a string as the pattern:
/// whether `s` ends with `pattern`.
#[verifier::external_body]
pub(crate) fn ends_with(s: &str, pattern: &str) -> (r: bool)
    ensures
        r == is_suffix(pattern@, s@),
{
    s.ends_with(pattern)
}

/// `str::contains` of the standard library, with a string as the pattern:
/// whether `pattern` stands somewhere in `s`.
#[verifier::external_body]
pub(crate) fn contains(s: &str, pattern: &str) -> (r: bool)
    ensures
        r == is_part_of(pattern@, s@),
{
    s.contains(pattern)
}

/// `name` is a path of one component on every platform: it is not empty, it
/// is neither `.` nor `..`, and it holds no separator of any platform (`/`
/// or `\`) and no colon, with which a drive or a scheme would begin.
pub open spec fn is_plain_name(name: Seq<char>) -> bool {
    &&& name.len() > 0
    &&& !is_dot(name)
    &&& !is_dot_dot(name)
    &&& !name.contains('/')
    &&& !name.contains('\\')
    &&& !name.contains(':')
}

/// `name` is `.`, the name of the directory one is in.
pub open spec fn is_dot(name: Seq<char>) -> bool {
    name.len() == 1 && name[0] == '.'
}

/// `name` is `..`, the name of the directory above.
pub open spec fn is_dot_dot(name: Seq<char>) -> bool {
    name.len() == 2 && name[0] == '.' && name[1] == '.'
}

/// `name` is `/`, the root.
pub open spec fn is_root(name: Seq<char>) -> bool {
    name.len() == 1 && name[0] == '/'
}

/// `path` reads the same on Unix and on Windows, where `/` separates the
/// components of a path: `/` is its only separator, as it holds no `\`, and
/// it has no prefix, as it holds no colon and does not begin with two
/// separators.
pub open spec fn is_portable(path: Seq<char>) -> bool {
    &&& !path.contains('\\')
    &&& !path.contains(':')
    &&& !(path.len() >= 2 && path[0] == '/' && path[1] == '/')
}

/// The index of the last `c` in `s`, or -1 where it has none.
pub open spec fn last_of(s: Seq<char>, c: char) -> int
    decreases s.len(),
{
    if s.len() == 0 {
        -1
    } else if s.last() == c {
        s.len() - 1
    } else {
        last_of(s.drop_last(), c)
    }
}

/// The last `c` in `s` is a `c`, and no `c` comes after it.
pub proof fn lemma_last_of(s: Seq<char>, c: char)
    ensures
        -1 <= last_of(s, c) < s.len(),
        last_of(s, c) >= 0 ==> s[last_of(s, c)] == c,
        forall|j: int| last_of(s, c) < j < s.len() ==> s[j] != c,
        last_of(s, c) == -1 <==> !s.contains(c),
    decreases s.len(),
{
    if s.len() > 0 {
        lemma_last_of(s.drop_last(), c);
        if s.last() != c {
            assert forall|j: int| last_of(s, c) < j < s.len() implies s[j] != c by {
                if j < s.len() - 1 {
                    assert(s.drop_last()[j] == s[j]);
                }
            }
            if s.contains(c) {
                let j = choose|j: int| 0 <= j < s.len() && s[j] == c;
                assert(s.drop_last()[j] == c);
            }
            if s.drop_last().contains(c) {
                let j = choose|j: int| 0 <= j < s.drop_last().len() && s.drop_last()[j] == c;
                assert(s[j] == c);
            }
        }
    }
}

/// The index of the last dot in `name`, or -1 where it has none.
pub open spec fn last_dot(name: Seq<char>) -> int {
    last_of(name, '.')
}

/// The extension of a file named `name`: what follows the last dot of the
/// name. A name without a dot has none, and neither has a name whose only
/// dot is its first character.
pub open spec fn extension_of(name: Seq<char>) -> Option<Seq<char>> {
    if last_dot(name) <= 0 {
        None
    } else {
        Some(name.subrange(last_dot(name) + 1, name.len() as int))
    }
}

/// The components of a path whose only separator is `/`, in order. The root
/// is the component `/`. Separators that follow one another count as one,
/// and one at the end counts for nothing. A `.` is a component only where
/// the path begins with it.
pub open spec fn components(path: Seq<char>) -> Seq<Seq<char>>
    decreases path.len(),
    via components_decreases
{
    if path.len() == 0 {
        Seq::empty()
    } else if path.last() == '/' {
        if path.len() == 1 {
            seq![path]
        } else {
            components(path.drop_last())
        }
    } else {
        let cut = last_of(path, '/') + 1;
        let name = path.subrange(cut, path.len() as int);
        if is_dot(name) && cut > 0 {
            components(path.subrange(0, cut))
        } else {
            components(path.subrange(0, cut)).push(name)
        }
    }
}

#[via_fn]
proof fn components_decreases(path: Seq<char>) {
    if path.len() > 0 && path.last() != '/' {
        lemma_last_of(path, '/');
    }
}

/// The name of the file at a path whose only separator is `/`: its last
/// component, unless that is the root, `.` or `..`.
pub open spec fn file_name_of(path: Seq<char>) -> Option<Seq<char>> {
    let parts = components(path);
    if parts.len() == 0 || is_root(parts.last()) || is_dot(parts.last()) || is_dot_dot(
        parts.last(),
    ) {
        None
    } else {
        Some(parts.last())
    }
}

/// The extension of the file at a path whose only separator is `/`: that of
/// its file name, if it has one.
pub open spec fn extension_in(path: Seq<char>) -> Option<Seq<char>> {
    match file_name_of(path) {
        Some(name) => extension_of(name),
        None => None,
    }
}

/// Two paths are surely the same: they are the same text, or both read the
/// same on Unix and on Windows and have the same components.
pub open spec fn surely_same_path(a: Seq<char>, b: Seq<char>) -> bool {
    a == b || (is_portable(a) && is_portable(b) && components(a) == components(b))
}

/// Two paths surely differ: both read the same on Unix and on Windows, and
/// their components differ.
pub open spec fn surely_other_path(a: Seq<char>, b: Seq<char>) -> bool {
    is_portable(a) && is_portable(b) && components(a) != components(b)
}

/// A plain name is a path of one component, itself, and is its own file
/// name.
pub proof fn lemma_plain_name(name: Seq<char>)
    requires
        is_plain_name(name),
    ensures
        is_portable(name),
        components(name) == seq![name],
        file_name_of(name) == Some(name),
        extension_in(name) == extension_of(name),
{
    lemma_last_of(name, '/');
    assert(name.last() != '/') by {
        if name.last() == '/' {
            assert(name[name.len() - 1] == '/');
        }
    }
    assert(name.subrange(0, name.len() as int) =~= name);
    assert(name.subrange(0, 0) =~= Seq::<char>::empty());
    assert(components(name.subrange(0, 0)) =~= Seq::<Seq<char>>::empty());
    assert(components(name) =~= seq![name]);
    assert(!is_root(name)) by {
        if is_root(name) {
            assert(name[0] == '/');
        }
    }
    assert(!(name.len() >= 2 && name[0] == '/' && name[1] == '/'));
}

/// The text of a string slice that may be missing.
pub open spec fn str_text(s: Option<&str>) -> Option<Seq<char>> {
    match s {
        Some(s) => Some(s@),
        None => None,
    }
}

/// The text of a string that may be missing.
pub open spec fn string_text(s: Option<String>) -> Option<Seq<char>> {
    match s {
        Some(s) => Some(s@),
        None => None,
    }
}

/// `ext` has no dot in it and stands in `path` right after a dot.
pub open spec fn ends_with_ext(path: Seq<char>, ext: Seq<char>) -> bool {
    &&& !ext.contains('.')
    &&& is_part_of(seq!['.'] + ext, path)
}

/// `Path::join` of the standard library, on paths given as text: `tail`
/// adjoined to `base`. What is claimed is only that the result ends with a
/// `tail` that is a plain name. Of a `tail` of more components nothing is
/// claimed: the separator between them depends on the platform, and so does
/// what is done to `.` and `..` in it.
#[verifier::external_body]
pub(crate) fn path_join(base: &str, tail: &str) -> (r: String)
    ensures
        is_plain_name(tail@) ==> is_suffix(tail@, r@),
{
    std::path::Path::new(base).join(tail).to_string_lossy().to_string()
}

/// `Path::eq` of the standard library, on paths given as text: whether the
/// two paths have the same components. Two things are claimed. The same text
/// is the same path. And of two paths that read the same on Unix and on Windows,
/// the answer is whether their components, as `components` gives them, are
/// the same. Of any other pair nothing is claimed.
#[verifier::external_body]
pub(crate) fn path_eq(a: &str, b: &str) -> (r: bool)
    ensures
        surely_same_path(a@, b@) ==> r,
        surely_other_path(a@, b@) ==> !r,
{
    std::path::Path::new(a) == std::path::Path::new(b)
}

/// `Path::extension` of the standard library, on a path given as text: the
/// part of the path's file name after its last dot, if the file name has a
/// dot that is not its first character. Two things are claimed. Of every
/// path: the extension has no dot in it and follows a dot in the path. Of a
/// path that reads the same on Unix and on Windows: the extension is that of the
/// path's last component, as `extension_in` gives it. Of any other path no
/// more is claimed, as where its file name begins depends on the platform's
/// separators and prefixes.
#[verifier::external_body]
fn path_extension(path: &str) -> (r: Option<&str>)
    ensures
        r matches Some(ext) ==> ends_with_ext(path@, ext@),
        is_portable(path@) ==> str_text(r) == extension_in(path@),
{
    match std::path::Path::new(path).extension() {
        Some(ext) => ext.to_str(),
        None => None,
    }
}

/// `Path::file_name` of the standard library, on a path given as text: the
/// path's last component, unless that is the root, `.` or `..`. Two things
/// are claimed. Of every path: the name is a part of the path. Of a path
/// that reads the same on Unix and on Windows: the name is the path's last
/// component, as `file_name_of` gives it. Of any other path no more is
/// claimed, as its components depend on the platform's separators and
/// prefixes.
#[verifier::external_body]
fn path_file_name(path: &str) -> (r: Option<String>)
    ensures
        r matches Some(name) ==> is_part_of(name@, path@),
        is_portable(path@) ==> string_text(r) == file_name_of(path@),
{
    match std::path::Path::new(path).file_name() {
        Some(name) => Some(name.to_string_lossy().to_string()),
        None => None,
    }
}

/// The name that a file without a name is given: the empty text.
pub open spec fn name_or_empty(name: Option<Seq<char>>) -> Seq<char> {
    match name {
        Some(name) => name,
        None => Seq::empty(),
    }
}

/// The name of the file at `path`: the path's last component, or the empty
/// text where the path has none, as it has none where it ends in the root,
/// in `.` at its beginning, or in `..`. The name is always a part of the
/// path. Of a path that reads the same on Unix and on Windows the name is that
/// of `file_name_of`.
pub fn get_file_name(path: &str) -> (r: String)
    ensures
        is_part_of(r@, path@),
        is_portable(path@) ==> r@ == name_or_empty(file_name_of(path@)),
{
    match path_file_name(path) {
        Some(name) => name,
        None => {
            let name = String::new();
            assert(path@.subrange(0int, 0int + name@.len()) =~= name@);
            name
        },
    }
}

/// An extension stands after a dot: a path without a dot has none.
pub proof fn lemma_extension_needs_dot(path: Seq<char>, ext: Seq<char>)
    requires
        ends_with_ext(path, ext),
    ensures
        path.contains('.'),
{
    let dotted = seq!['.'] + ext;
    let i = choose|i: int|
        0 <= i && i + dotted.len() <= path.len() && #[trigger] path.subrange(i, i + dotted.len())
            == dotted;
    assert(path.subrange(i, i + dotted.len())[0] == dotted[0]);
    assert(path[i] == '.');
}

/// The extension of the file at `path`, if its name has one: the part of
/// the file name after its last dot, unless that dot is the name's first
/// character. A path without a dot has no extension. Of a path that reads
/// the same on Unix and on Windows the extension is that of `extension_in`, and
/// so, of a plain name, `extension_of` the name. Of any other path the
/// extension is known to stand in the path after a dot and to hold no dot
/// itself.
pub fn get_file_ext(path: &str) -> (r: Option<&str>)
    ensures
        r matches Some(ext) ==> ends_with_ext(path@, ext@),
        !path@.contains('.') ==> r is None,
        is_portable(path@) ==> str_text(r) == extension_in(path@),
        is_plain_name(path@) ==> str_text(r) == extension_of(path@),
{
    let r = path_extension(path);
    proof {
        if let Some(ext) = r {
            lemma_extension_needs_dot(path@, ext@);
        }
        if is_plain_name(path@) {
            lemma_plain_name(path@);
        }
    }
    r
}

} // verus!
