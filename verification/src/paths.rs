//! The paths of the data file and of the file for rejected rows.
//!
//! How a path is taken apart depends on the platform: whether `\` separates
//! names, and whether a path can start with a drive or a server. What is stated
//! here of the standard library's path functions holds on every platform.

use vstd::prelude::*;
use vstd::string::*;

use crate::text;
use crate::text::{characters, text_eq, text_of, Text};
use crate::text_laws;
use crate::text_laws::law_lowercase;

verus! {

// ---------------------------------------------------------------------------
// Paths of any platform
// ---------------------------------------------------------------------------

/// A character that separates the names in a path on some platform.
pub open spec fn separates(c: char) -> bool {
    c == '/' || c == '\\' || c == ':'
}

/// A separator between directories on some platform.
pub open spec fn is_slash(c: char) -> bool {
    c == '/' || c == '\\'
}

/// The part of `path` after the last character that separates names on any
/// platform.
pub open spec fn tail_of(path: Text) -> Text
    decreases path.len(),
{
    if path.len() == 0 || separates(path.last()) {
        Seq::empty()
    } else {
        tail_of(path.drop_last()).push(path.last())
    }
}

/// `path` starts with two separators, which on some platform is the name of a
/// server.
pub open spec fn starts_doubled(path: Text) -> bool {
    path.len() >= 2 && is_slash(path[0]) && is_slash(path[1])
}

/// `path` ends in a name on every platform.
pub open spec fn ends_in_name(path: Text) -> bool {
    let tail = tail_of(path);
    &&& tail.len() > 0
    &&& tail != "."@
    &&& tail != ".."@
}

/// How many characters of a file name stand before its last dot; none where it
/// has no dot.
pub open spec fn dot_in(name: Text) -> int
    decreases name.len(),
{
    if name.len() == 0 {
        0
    } else if name.last() == '.' {
        name.len() - 1
    } else {
        dot_in(name.drop_last())
    }
}

/// The extension of a file name: what stands after its last dot, unless the
/// name has no dot or only one at its start.
pub open spec fn extension_of(name: Text) -> Option<Text> {
    if dot_in(name) > 0 {
        Some(name.skip(dot_in(name) + 1))
    } else {
        None
    }
}

/// A file name without its extension.
pub open spec fn stem_of(name: Text) -> Text {
    if dot_in(name) > 0 {
        name.take(dot_in(name))
    } else {
        name
    }
}

/// `path` ends in a name whose last dot, if there is one, is the last dot of
/// the file name on every platform.
pub open spec fn dot_is_sure(path: Text) -> bool {
    &&& ends_in_name(path)
    &&& extension_of(tail_of(path)) is Some || !path.contains('.')
}

/// At `i` stand a letter and a colon, which at the start of a path are a drive
/// on some platform.
pub open spec fn drive_at(path: Text, i: int) -> bool {
    0 <= i && i + 1 < path.len() && path[i + 1] == ':' && ('a' <= path[i] <= 'z' || 'A' <= path[i]
        <= 'Z')
}

/// `path` starts with what is a drive on some platform.
pub open spec fn starts_with_drive(path: Text) -> bool {
    drive_at(path, 0)
}

/// `path` is nothing but a drive on some platform.
pub open spec fn bare_drive(path: Text) -> bool {
    path.len() == 2 && starts_with_drive(path)
}

/// The part of `path` after the last separator between directories.
pub open spec fn slash_tail(path: Text) -> Text
    decreases path.len(),
{
    if path.len() == 0 || is_slash(path.last()) {
        Seq::empty()
    } else {
        slash_tail(path.drop_last()).push(path.last())
    }
}

/// The end of `path` that lies in its last name on every platform.
pub open spec fn end_of(path: Text) -> Text {
    let tail = slash_tail(path);
    if tail.len() == path.len() && starts_with_drive(path) {
        path.skip(2)
    } else {
        tail
    }
}

/// A directory and a name can start at `i`: there is neither a separator, nor a
/// `.` that stands for the directory before it, nor a drive.
pub open spec fn name_starts(path: Text, i: int) -> bool {
    &&& 0 <= i < path.len()
    &&& !is_slash(path[i])
    &&& !(path[i] == '.' && (i + 1 == path.len() || is_slash(path[i + 1])))
    &&& !drive_at(path, i)
}

/// Behind every separator of `path` starts a name.
pub open spec fn straight(path: Text) -> bool {
    forall|i: int| 0 <= i < path.len() && is_slash(#[trigger] path[i]) ==> name_starts(path, i + 1)
}

/// The last dot of `path` parts a name and an extension on every platform: what
/// stands behind it is all in the last name, and so is the character in front
/// of it.
pub open spec fn has_extension(path: Text) -> bool {
    let cut = dot_in(path);
    &&& 0 < cut < path.len() - 1
    &&& forall|i: int| cut <= i < path.len() ==> !is_slash(#[trigger] path[i])
    &&& !is_slash(path[cut - 1])
    &&& !(cut == 2 && starts_with_drive(path))
}

/// `path` leads straight to a file with an extension.
pub open spec fn regular(path: Text) -> bool {
    has_extension(path) && straight(path) && !starts_doubled(path)
}

// ---------------------------------------------------------------------------
// Paths that all platforms take apart alike
// ---------------------------------------------------------------------------

/// All platforms take `path` apart alike: it holds no `\`, and starts neither
/// with two separators nor with a drive.
pub open spec fn portable(path: Text) -> bool {
    &&& !path.contains('\\')
    &&& !(path.len() >= 2 && path[0] == '/' && path[1] == '/')
    &&& !starts_with_drive(path)
}

/// The part of `path` after the last `/`.
pub open spec fn last_of(path: Text) -> Text
    decreases path.len(),
{
    if path.len() == 0 || path.last() == '/' {
        Seq::empty()
    } else {
        last_of(path.drop_last()).push(path.last())
    }
}

/// The part of `path` up to and with the last `/`.
pub open spec fn head_of(path: Text) -> Text {
    path.take(path.len() - last_of(path).len())
}

/// The file that a portable path names. Separators at its end do not count, nor
/// does a `.` there; a path that ends in `..` names none.
pub open spec fn file_name_of(path: Text) -> Option<Text>
    decreases path.len(),
{
    if path.len() == 0 {
        None
    } else if path.last() == '/' || last_of(path) == "."@ {
        file_name_of(path.drop_last())
    } else if last_of(path) == ".."@ {
        None
    } else {
        Some(last_of(path))
    }
}

/// A portable path ends in the name of the file that it names.
pub open spec fn names_file(path: Text) -> bool {
    let last = last_of(path);
    &&& portable(path)
    &&& last.len() > 0
    &&& last != "."@
    &&& last != ".."@
}

/// A directory written without a separator at its end, without doubled
/// separators, and without a `.` between names.
pub open spec fn plain_directory(directory: Text) -> bool {
    let n = directory.len();
    &&& n > 0
    &&& directory.last() != '/'
    &&& forall|i: int|
        0 <= i < n - 1 && #[trigger] directory[i] == '/' ==> directory[i + 1] != '/' && !(
        directory[i + 1] == '.' && (i + 2 == n || directory[i + 2] == '/'))
}

/// The directory before the separator at the end of `head`.
pub open spec fn directory_of(head: Text) -> Text {
    head.drop_last()
}

// ---------------------------------------------------------------------------
// The path functions of the standard library
// ---------------------------------------------------------------------------

/// `extension` can be the extension of the file that `path` names.
pub open spec fn may_be_extension(path: Text, extension: Option<Text>) -> bool {
    &&& portable(path) ==> extension == (match file_name_of(path) {
        Some(name) => extension_of(name),
        None => None,
    })
    &&& dot_is_sure(path) ==> extension == extension_of(tail_of(path)) || (starts_doubled(path)
        && extension is None)
    &&& !path.contains('.') ==> extension is None
}

/// `Path::extension`: what stands after the last dot of the file name, unless
/// that is its first character. Which characters belong to the file name
/// depends on the platform where `path` holds `\`, or starts with a drive or
/// with two separators. Of such a path it is stated where the end of the path
/// has a dot that is in the file name on every platform, and where there is no
/// dot at all; there may be no file name where the path starts with two
/// separators, and so may be a server and what it shares.
#[verifier::external_body]
fn path_extension(path: &str) -> (r: Option<String>)
    ensures
        may_be_extension(path@, text::option_text(r)),
{
    match std::path::Path::new(path).extension() {
        Some(e) => e.to_str().map(|s| s.to_string()),
        None => None,
    }
}

/// `stem` can be the name, without extension, of the file that `path` names.
pub open spec fn may_be_stem(path: Text, stem: Option<Text>) -> bool {
    &&& portable(path) ==> stem == (match file_name_of(path) {
        Some(name) => Some(stem_of(name)),
        None => None,
    })
    &&& dot_is_sure(path) ==> match stem {
        Some(stem) => tail_of(stem) == stem_of(tail_of(path)),
        None => starts_doubled(path),
    }
}

/// `Path::file_stem`: the file name up to its last dot, or all of it where it
/// has no dot but at its start; none where the path names no file. On a path
/// that all platforms take apart alike it is exact. On any other, the file name
/// can start further to the left on one platform than on another, but where the
/// end of the path is a name it ends in that name; there is no file name only
/// where the path starts with two separators, and so may be a server and what
/// it shares.
#[verifier::external_body]
fn path_file_stem(path: &str) -> (r: Option<String>)
    ensures
        may_be_stem(path@, text::option_text(r)),
{
    match std::path::Path::new(path).file_stem() {
        Some(s) => s.to_str().map(|s| s.to_string()),
        None => None,
    }
}

/// `left` is what is left of `path` without all of its end: it stops in front of
/// a separator, or behind the root or a drive, or there is nothing left.
pub open spec fn is_left(path: Text, left: Text) -> bool {
    let n = left.len() as int;
    &&& left.is_prefix_of(path)
    &&& n + end_of(path).len() <= path.len()
    &&& n == 0 || is_slash(path[n]) || is_slash(left.last()) || bare_drive(left)
}

/// `parent` can be what is left of `path` without its last name.
pub open spec fn may_be_parent(path: Text, parent: Option<Text>) -> bool {
    let head = head_of(path);
    &&& path.len() == 0 || path == "/"@ ==> parent is None
    &&& portable(path) && parent is Some ==> parent->Some_0.is_prefix_of(path)
    &&& end_of(path).len() > 0 && end_of(path) != "."@ && end_of(path) != ".."@ && !starts_doubled(
        path,
    ) ==> parent is Some && is_left(path, parent->Some_0)
    &&& names_file(path) ==> {
        &&& parent is Some
        &&& head.len() == 0 ==> parent->Some_0.len() == 0
        &&& head == "/"@ ==> parent->Some_0 == "/"@
        &&& head.len() > 1 && plain_directory(directory_of(head)) ==> parent->Some_0
            == directory_of(head)
    }
}

/// `Path::parent`: the path without its last name, so nothing for a bare name,
/// and the root for a name right below it; none for the root and for the empty
/// path. Where the last name starts depends on the platform: it is stated that
/// what is left is the start of the path, without the end that lies in the last
/// name everywhere, up to a separator, a root or a drive. Of the paths that all
/// platforms take apart alike and that end in a name, it is exact where there
/// is no doubled separator or `.` to drop before the name.
#[verifier::external_body]
fn path_parent(path: &str) -> (r: Option<String>)
    ensures
        may_be_parent(path@, text::option_text(r)),
{
    match std::path::Path::new(path).parent() {
        Some(p) => p.to_str().map(|s| s.to_string()),
        None => None,
    }
}

/// No separator in `name`.
pub open spec fn one_name(name: Text) -> bool {
    !name.contains('/') && !name.contains('\\')
}

/// `path` is `name` in `directory`, behind a separator where one is missing.
pub open spec fn is_joined(path: Text, directory: Text, name: Text) -> bool {
    if directory.len() == 0 {
        path == name
    } else if directory.last() == '/' {
        path == directory + name
    } else {
        path == directory + seq!['/'] + name || path == directory + seq!['\\'] + name
    }
}

/// `path` can be `name` joined to `directory`.
pub open spec fn may_be_joined(path: Text, directory: Text, name: Text) -> bool {
    &&& tail_of(name).len() > 2 ==> tail_of(path) == tail_of(name)
    &&& one_name(name) && name.len() > 2 ==> name.is_suffix_of(path)
    &&& name.len() > 0 && directory.len() == 0 ==> path == name
    &&& name.len() > 0 && !is_slash(name[0]) && !starts_with_drive(name) && directory.len() > 0
        && directory.last() != '\\' && !bare_drive(directory) && !starts_doubled(directory)
        ==> is_joined(path, directory, name)
}

/// `Path::join`: the name behind the directory, with the platform's separator
/// between them where it is missing. Whatever the directory, and even where a
/// drive in `name` replaces it, the path ends in the name: stated of names of
/// more than two characters, which are not `.` or `..`. It is the name itself
/// where the directory is empty; else it is exact, but for which separator it
/// is, where the name starts with neither a separator nor a drive, and the
/// directory is neither a drive alone, nor ends in `\`, nor starts with two
/// separators.
#[verifier::external_body]
fn path_join(directory: &str, name: &str) -> (r: String)
    ensures
        may_be_joined(r@, directory@, name@),
{
    std::path::Path::new(directory).join(name).to_string_lossy().to_string()
}

// ---------------------------------------------------------------------------
// The data file
// ---------------------------------------------------------------------------

/// How a data file is read.
#[derive(Debug, PartialEq, Eq, Structural, Clone, Copy)]
pub enum DataFileKind {
    Csv,
    Workbook,
}

/// How a data file with the given extension, in lower case, is read.
pub open spec fn kind_of(extension: Text) -> Option<DataFileKind> {
    if extension == "csv"@ {
        Some(DataFileKind::Csv)
    } else if extension == "xls"@ || extension == "xlsx"@ || extension == "xlsm"@ || extension
        == "xlsb"@ || extension == "ods"@ {
        Some(DataFileKind::Workbook)
    } else {
        None
    }
}

/// No data file has such an extension.
pub open spec fn extension_message(extension: Text) -> Text {
    "Unsupported data file extension '"@ + extension
        + "'. Use .csv .xls .xlsx .xlsm .xlsb or .ods"@
}

/// `r` says how a data file with the given extension, in any case, is read.
pub open spec fn is_kind(r: Result<DataFileKind, String>, extension: Text) -> bool {
    let lower = text::lowercase(extension);
    match r {
        Ok(kind) => kind_of(lower) == Some(kind),
        Err(message) => kind_of(lower) is None && message@ == extension_message(lower),
    }
}

/// How a data file with the given extension is read.
pub fn data_file_kind(extension: &str) -> (r: Result<DataFileKind, String>)
    ensures
        is_kind(r, extension@),
{
    let lower = extension.to_lowercase();
    let e = lower.as_str();
    if text_eq(e, "csv") {
        Ok(DataFileKind::Csv)
    } else if text_eq(e, "xls") || text_eq(e, "xlsx") || text_eq(e, "xlsm") || text_eq(e, "xlsb")
        || text_eq(e, "ods") {
        Ok(DataFileKind::Workbook)
    } else {
        let mut message = "Unsupported data file extension '".to_string();
        message.append(e);
        message.append("'. Use .csv .xls .xlsx .xlsm .xlsb or .ods");
        Err(message)
    }
}

/// How the data file at `path` is read, by its extension.
pub fn read_data_file(path: &str) -> (r: Result<DataFileKind, String>)
    ensures
        exists|extension: Option<Text>| #[trigger]
            may_be_extension(path@, extension) && is_kind(
                r,
                match extension {
                    Some(extension) => extension,
                    None => Seq::empty(),
                },
            ),
{
    let extension = path_extension(path);
    proof {
        assert(may_be_extension(path@, text::option_text(extension)));
        reveal_strlit("");
        assert(""@ =~= Seq::<char>::empty());
    }
    match extension {
        Some(extension) => data_file_kind(extension.as_str()),
        None => data_file_kind(""),
    }
}

// ---------------------------------------------------------------------------
// The file for rejected rows
// ---------------------------------------------------------------------------

/// The name of the file for rejected rows, beside a data file whose name
/// without extension is `stem`.
pub open spec fn error_name(stem: Text) -> Text {
    stem + "_ERRORS.csv"@
}

/// The name of the file for rejected rows of the portable path `path`.
pub open spec fn error_name_for(path: Text) -> Text {
    match file_name_of(path) {
        Some(name) => error_name(stem_of(name)),
        None => error_name("output"@),
    }
}

/// The name of the file for rejected rows.
pub fn error_file_name(stem: Option<String>) -> (r: String)
    ensures
        r@ == error_name(
            match stem {
                Some(stem) => stem@,
                None => "output"@,
            },
        ),
{
    let mut name = match stem {
        Some(stem) => stem,
        None => "output".to_string(),
    };
    name.append("_ERRORS.csv");
    name
}

/// `path` is `input` with `_ERRORS.csv` in place of the extension, in which one
/// separator can be the platform's own.
pub open spec fn is_beside(path: Text, input: Text) -> bool {
    let whole = error_name(input.take(dot_in(input)));
    ||| path == whole
    ||| exists|k: int, c: char|
        0 <= k < dot_in(input) && is_slash(input[k]) && is_slash(c) && path
            == #[trigger] whole.update(k, c)
}

/// `path` is a path of the file for the rejected rows of the data file at
/// `input`: it is never the data file itself, its name ends in `_ERRORS.csv`,
/// and in front of that is the path of the data file without its extension.
pub open spec fn is_error_path(path: Text, input: Text) -> bool {
    let head = head_of(input);
    let name = error_name_for(input);
    &&& path != input
    &&& "_ERRORS.csv"@.is_suffix_of(path)
    &&& regular(input) ==> is_beside(path, input)
    &&& dot_is_sure(input) ==> tail_of(path) == error_name(stem_of(tail_of(input))) || (
    starts_doubled(input) && path == error_name("output"@))
    &&& dot_is_sure(input) && !starts_doubled(input) ==> error_name(
        stem_of(tail_of(input)),
    ).is_suffix_of(path)
    &&& portable(input) ==> name.is_suffix_of(path)
    &&& portable(input) && !starts_with_drive(name) ==> exists|directory: Text| #[trigger]
        directory.is_prefix_of(input) && is_joined(path, directory, name)
    &&& names_file(input) && !starts_with_drive(name) ==> {
        &&& head.len() == 0 ==> path == name
        &&& head == "/"@ ==> path == head + name
        &&& head.len() > 1 && plain_directory(directory_of(head)) ==> is_joined(
            path,
            directory_of(head),
            name,
        )
    }
    &&& input.len() == 0 || input == "/"@ ==> path == error_name("output"@)
}

/// Whether `path` ends in a name on every platform.
fn has_name(path: &str) -> (r: bool)
    ensures
        r == ends_in_name(path@),
{
    let chars = characters(path);
    let mut from: usize = chars.len();
    proof {
        assert(path@.take(from as int) =~= path@);
        assert(path@.subrange(from as int, path@.len() as int) =~= Seq::<char>::empty());
        assert(tail_of(path@) + Seq::<char>::empty() =~= tail_of(path@));
    }
    while from > 0 && !(chars[from - 1] == '/' || chars[from - 1] == '\\' || chars[from - 1]
        == ':')
        invariant
            from <= chars@.len(),
            chars@ == path@,
            tail_of(path@) == tail_of(path@.take(from as int)) + path@.subrange(
                from as int,
                path@.len() as int,
            ),
        decreases from,
    {
        proof {
            let before = path@.take(from as int);
            assert(before.drop_last() =~= path@.take(from - 1));
            assert(tail_of(before) + path@.subrange(from as int, path@.len() as int)
                =~= tail_of(path@.take(from - 1)) + path@.subrange(
                from - 1,
                path@.len() as int,
            ));
        }
        from = from - 1;
    }
    let tail = text_of(&chars, from, chars.len());
    assert(tail@ =~= tail_of(path@));
    proof {
        reveal_strlit(".");
        reveal_strlit("..");
    }
    !(tail.as_str().is_empty() || text_eq(tail.as_str(), ".") || text_eq(tail.as_str(), ".."))
}

/// The position of the last dot.
fn last_dot(path: &Vec<char>) -> (r: usize)
    ensures
        r == dot_in(path@),
{
    let mut n: usize = path.len();
    assert(path@.take(n as int) =~= path@);
    while n > 0
        invariant
            n <= path@.len(),
            dot_in(path@) == dot_in(path@.take(n as int)),
        decreases n,
    {
        assert(path@.take(n as int).drop_last() =~= path@.take(n - 1));
        if path[n - 1] == '.' {
            return n - 1;
        }
        n = n - 1;
    }
    0
}

fn slash(c: char) -> (r: bool)
    ensures
        r == is_slash(c),
{
    c == '/' || c == '\\'
}

fn has_drive(path: &Vec<char>, i: usize) -> (r: bool)
    requires
        i <= path@.len(),
    ensures
        r == drive_at(path@, i as int),
{
    path.len() - i >= 2 && path[i + 1] == ':' && ('a' <= path[i] && path[i] <= 'z' || 'A' <= path[i]
        && path[i] <= 'Z')
}

/// Whether a name can start at `i`.
fn can_start(path: &Vec<char>, i: usize) -> (r: bool)
    requires
        i <= path@.len(),
    ensures
        r == name_starts(path@, i as int),
{
    i < path.len() && !slash(path[i]) && !(path[i] == '.' && (i == path.len() - 1 || slash(
        path[i + 1],
    ))) && !has_drive(path, i)
}

/// Whether `path`, whose last dot is at `cut`, leads straight to a file with an
/// extension.
fn is_regular(path: &Vec<char>, cut: usize) -> (r: bool)
    requires
        cut == dot_in(path@),
    ensures
        r == regular(path@),
{
    let n: usize = path.len();
    if n < 2 || cut == 0 || cut >= n - 1 || slash(path[cut - 1]) || (cut == 2 && has_drive(path, 0))
        || (slash(path[0]) && slash(path[1])) {
        return false;
    }
    let mut i: usize = 0;
    while i < n
        invariant
            n == path@.len(),
            i <= n,
            cut == dot_in(path@),
            forall|j: int| 0 <= j < i && is_slash(#[trigger] path@[j]) ==> name_starts(path@, j + 1),
            forall|j: int| cut <= j < i ==> !is_slash(#[trigger] path@[j]),
        decreases n - i,
    {
        if slash(path[i]) && (i >= cut || !can_start(path, i + 1)) {
            return false;
        }
        i = i + 1;
    }
    true
}

/// The path of the file for rejected rows beside a data file with an extension.
/// Where its name starts is the platform's to say, and is asked once, for the
/// directory: the name is what stands behind it.
fn path_beside(input_path: &str, chars: &Vec<char>, cut: usize) -> (r: String)
    requires
        chars@ == input_path@,
        cut == dot_in(input_path@),
        regular(input_path@),
    ensures
        is_error_path(r@, input_path@),
{
    let ghost input = input_path@;
    let parent = match path_parent(input_path) {
        Some(parent) => parent,
        None => String::new(),
    };
    let directory = characters(parent.as_str());
    let k: usize = directory.len();
    proof {
        lemma_end(input);
        assert(is_left(input, parent@));
        assert forall|i: int| 0 <= i < k implies #[trigger] parent@[i] == input[i] by {
            assert(parent@[i] == input.subrange(0, k as int)[i]);
        }
    }
    let behind = k > 0 && slash(chars[k]);
    let at_start = k > 0 && (!behind || (k == 2 && has_drive(&directory, 0)));
    let from: usize = if behind {
        k + 1
    } else {
        k
    };
    let path = if at_start {
        error_file_name(Some(text_of(chars, 0, cut)))
    } else {
        let name = error_file_name(Some(text_of(chars, from, cut)));
        path_join(parent.as_str(), name.as_str())
    };
    proof {
        if at_start {
            assert(chars@.subrange(0, cut as int) =~= input.take(cut as int));
        } else if k == 0 {
            assert(chars@.subrange(0, cut as int) =~= input.take(cut as int));
            lemma_error_name(input.take(cut as int));
        } else {
            lemma_joined(path@, input, parent@);
        }
        lemma_beside(path@, input, parent@);
    }
    path
}

/// The path of the file for rejected rows: beside the data file, under its name
/// with `_ERRORS.csv` in place of the extension. Where platforms take the path
/// of the data file apart differently, and it does not lead straight to a file
/// with an extension, it is stated how the path ends; what stands before that
/// is up to `Path::parent` and `Path::file_stem`.
pub fn error_output_path(input_path: &str) -> (r: String)
    ensures
        is_error_path(r@, input_path@),
{
    let chars = characters(input_path);
    let cut = last_dot(&chars);
    if is_regular(&chars, cut) {
        path_beside(input_path, &chars, cut)
    } else {
        path_elsewhere(input_path)
    }
}

/// The path of the file for rejected rows of any other data file.
fn path_elsewhere(input_path: &str) -> (r: String)
    requires
        !regular(input_path@),
    ensures
        is_error_path(r@, input_path@),
{
    let stem = path_file_stem(input_path);
    // A path that ends in a name and yet names no file is nothing but a server
    // and what it shares: it has no parent.
    let all_server = stem.is_none() && has_name(input_path);
    let ghost found = text::option_text(stem);
    let name = error_file_name(stem);
    let parent = if all_server {
        String::new()
    } else {
        match path_parent(input_path) {
            Some(parent) => parent,
            None => String::new(),
        }
    };
    let path = path_join(parent.as_str(), name.as_str());
    proof {
        let base = match found {
            Some(stem) => stem,
            None => "output"@,
        };
        reveal_strlit("/");
        lemma_output();
        lemma_error_name(base);
        lemma_tail_ends(path@);
        lemma_suffix("_ERRORS.csv"@, tail_of(path@), path@);
        lemma_apart(path@, input_path@, found);
        if portable(input_path@) {
            lemma_portable(input_path@);
            if parent@.len() == 0 {
                assert(parent@ =~= input_path@.take(0));
            }
            assert(parent@.is_prefix_of(input_path@));
            lemma_prefix_portable(input_path@, parent@);
        }
        if input_path@.len() == 0 || input_path@ == "/"@ {
            reveal_with_fuel(file_name_of, 2);
            reveal_with_fuel(tail_of, 2);
            assert(portable(input_path@));
        }
    }
    path
}

/// The end of a path is its tail.
proof fn lemma_tail_ends(path: Text)
    ensures
        tail_of(path).is_suffix_of(path),
        forall|i: int| 0 <= i < tail_of(path).len() ==> !separates(#[trigger] tail_of(path)[i]),
    decreases path.len(),
{
    if path.len() > 0 && !separates(path.last()) {
        let shorter = path.drop_last();
        lemma_tail_ends(shorter);
        let tail = tail_of(path);
        let before = tail_of(shorter);
        let from = path.len() - tail.len();
        assert forall|i: int| 0 <= i < tail.len() implies tail[i] == path[from + i] by {
            if i < before.len() {
                assert(before[i] == shorter.subrange(
                    shorter.len() - before.len(),
                    shorter.len() as int,
                )[i]);
            }
        }
        assert(tail =~= path.subrange(from, path.len() as int));
    } else {
        assert(tail_of(path) =~= path.subrange(path.len() as int, path.len() as int));
    }
}

/// The end of the end is the end.
proof fn lemma_suffix(a: Text, b: Text, c: Text)
    requires
        a.is_suffix_of(b),
        b.is_suffix_of(c),
    ensures
        a.is_suffix_of(c),
{
    let x = b.len() - a.len();
    let y = c.len() - b.len();
    assert forall|i: int| 0 <= i < a.len() implies a[i] == c[y + x + i] by {
        assert(a[i] == b.subrange(x, b.len() as int)[i]);
        assert(b[x + i] == c.subrange(y, c.len() as int)[x + i]);
    }
    assert(a =~= c.subrange(c.len() - a.len(), c.len() as int));
}

/// Text without a separator only makes the tail longer.
proof fn lemma_tail_longer(path: Text, more: Text)
    requires
        forall|i: int| 0 <= i < more.len() ==> !separates(#[trigger] more[i]),
    ensures
        tail_of(path + more) == tail_of(path) + more,
    decreases more.len(),
{
    if more.len() == 0 {
        assert(path + more =~= path);
        assert(tail_of(path) + more =~= tail_of(path));
    } else {
        let shorter = more.drop_last();
        assert forall|i: int| 0 <= i < shorter.len() implies !separates(#[trigger] shorter[i]) by {
            assert(shorter[i] == more[i]);
        }
        lemma_tail_longer(path, shorter);
        assert(!separates(more[more.len() - 1]));
        assert((path + more).drop_last() =~= path + shorter);
        assert((path + more).last() == more.last());
        assert(tail_of(path + more) =~= tail_of(path) + more);
    }
}

/// The last dot of a name.
proof fn lemma_dot(stem: Text, extension: Text)
    requires
        !extension.contains('.'),
    ensures
        dot_in(stem + seq!['.'] + extension) == stem.len(),
    decreases extension.len(),
{
    let name = stem + seq!['.'] + extension;
    if extension.len() == 0 {
        assert(name.last() == '.');
    } else {
        let shorter = extension.drop_last();
        assert forall|c: char| shorter.contains(c) implies extension.contains(c) by {
            let i = choose|i: int| 0 <= i < shorter.len() && shorter[i] == c;
            assert(extension[i] == c);
        }
        assert(extension.contains(extension.last()));
        assert(name.last() == extension.last());
        assert(name.drop_last() =~= stem + seq!['.'] + shorter);
        lemma_dot(stem, shorter);
    }
}

/// The name of a file for rejected rows.
proof fn lemma_error_name(base: Text)
    ensures
        ({
            let tail = tail_of(error_name(base));
            &&& tail == error_name(tail_of(base))
            &&& tail.len() >= 11
            &&& error_name(base).len() >= 11
            &&& "_ERRORS.csv"@.is_suffix_of(tail)
            &&& dot_in(tail) == tail_of(base).len() + 7
            &&& !starts_with_drive(base) ==> !starts_with_drive(error_name(base))
            &&& one_name(base) ==> one_name(error_name(base))
        }),
{
    reveal_strlit("_ERRORS.csv");
    let end = "_ERRORS.csv"@;
    let name = error_name(base);
    lemma_tail_longer(base, end);
    let before = tail_of(base);
    let tail = before + end;
    assert(end =~= tail.subrange(tail.len() - end.len(), tail.len() as int));
    let first = before + end.take(7);
    let csv = end.skip(8);
    assert(tail =~= first + seq!['.'] + csv);
    lemma_dot(first, csv);
    if one_name(base) && !one_name(name) {
        let c = if name.contains('/') {
            '/'
        } else {
            '\\'
        };
        let i = choose|i: int| 0 <= i < name.len() && name[i] == c;
        if i < base.len() {
            assert(base[i] == c);
        } else {
            assert(end[i - base.len()] == c);
        }
    }
}

/// The name of the file where the data file has none.
proof fn lemma_output()
    ensures
        one_name("output"@),
        !starts_with_drive("output"@),
        error_name("output"@).len() > 0,
        !separates(error_name("output"@)[0]),
{
    reveal_strlit("output");
}

/// The path of the file for rejected rows is not that of the data file.
proof fn lemma_apart(path: Text, input: Text, stem: Option<Text>)
    requires
        may_be_stem(input, stem),
        tail_of(path) == tail_of(
            error_name(
                match stem {
                    Some(stem) => stem,
                    None => "output"@,
                },
            ),
        ),
        stem is None && ends_in_name(input) ==> path == error_name("output"@),
    ensures
        path != input,
{
    let base = match stem {
        Some(stem) => stem,
        None => "output"@,
    };
    lemma_error_name(base);
    lemma_output();
    if path == input {
        reveal_strlit(".");
        reveal_strlit("..");
        assert(ends_in_name(input));
        assert(dot_is_sure(input));
        lemma_dot_within(tail_of(input));
        assert(stem_of(tail_of(input)).len() == tail_of(base).len() + 7);
    }
}

/// A part of a portable path is portable.
proof fn lemma_prefix_portable(path: Text, prefix: Text)
    requires
        portable(path),
        prefix.is_prefix_of(path),
    ensures
        portable(prefix),
{
    assert forall|i: int| 0 <= i < prefix.len() implies #[trigger] prefix[i] == path[i] by {
        assert(prefix[i] == path.subrange(0, prefix.len() as int)[i]);
    }
    assert forall|c: char| prefix.contains(c) implies path.contains(c) by {
        let i = choose|i: int| 0 <= i < prefix.len() && prefix[i] == c;
        assert(path[i] == c);
    }
}

/// What stands after the last `/` is a single name.
proof fn lemma_last(path: Text)
    requires
        !path.contains('\\'),
    ensures
        one_name(last_of(path)),
    decreases path.len(),
{
    if path.len() > 0 && path.last() != '/' {
        let shorter = path.drop_last();
        lemma_shorter(path);
        lemma_last(shorter);
        let last = last_of(path);
        let before = last_of(shorter);
        assert(path.contains(path.last()));
        assert forall|c: char| last.contains(c) implies before.contains(c) || c == path.last() by {
            let i = choose|i: int| 0 <= i < last.len() && last[i] == c;
            if i < before.len() {
                assert(before[i] == c);
            }
        }
    }
}

proof fn lemma_shorter(path: Text)
    requires
        !path.contains('\\'),
        path.len() > 0,
    ensures
        !path.drop_last().contains('\\'),
{
    let shorter = path.drop_last();
    if shorter.contains('\\') {
        let i = choose|i: int| 0 <= i < shorter.len() && shorter[i] == '\\';
        assert(path[i] == '\\');
    }
}

/// A portable path names a file by a single name.
proof fn lemma_file_name(path: Text)
    requires
        !path.contains('\\'),
    ensures
        file_name_of(path) matches Some(name) ==> one_name(name) && one_name(stem_of(name)),
    decreases path.len(),
{
    if path.len() > 0 {
        if path.last() == '/' || last_of(path) == "."@ {
            lemma_shorter(path);
            lemma_file_name(path.drop_last());
        } else {
            lemma_last(path);
            let name = last_of(path);
            let stem = stem_of(name);
            lemma_dot_within(name);
            assert forall|c: char| stem.contains(c) implies name.contains(c) by {
                let i = choose|i: int| 0 <= i < stem.len() && stem[i] == c;
                assert(name[i] == c);
            }
        }
    }
}

proof fn lemma_dot_within(name: Text)
    ensures
        0 <= dot_in(name) <= name.len(),
    decreases name.len(),
{
    if name.len() > 0 {
        lemma_dot_within(name.drop_last());
    }
}

/// The name of the file for rejected rows of a portable path.
proof fn lemma_portable(path: Text)
    requires
        portable(path),
    ensures
        one_name(error_name_for(path)),
        error_name_for(path).len() > 2,
        names_file(path) ==> file_name_of(path) == Some(last_of(path)),
{
    lemma_file_name(path);
    lemma_output();
    match file_name_of(path) {
        Some(name) => {
            lemma_error_name(stem_of(name));
        },
        None => {
            lemma_error_name("output"@);
        },
    }
    if names_file(path) && path.last() == '/' {
        assert(last_of(path).len() == 0);
    }
}

/// The end of a path, and where its last dot can be.
proof fn lemma_end(path: Text)
    requires
        has_extension(path),
    ensures
        path.len() - end_of(path).len() < dot_in(path),
        end_of(path).len() > 2,
        end_of(path) != "."@,
        end_of(path) != ".."@,
        forall|i: int| path.len() - end_of(path).len() <= i < path.len() ==> !is_slash(
            #[trigger] path[i],
        ),
        end_of(path).len() == path.len() || is_slash(path[path.len() - end_of(path).len() - 1])
            || (path.len() - end_of(path).len() == 2 && starts_with_drive(path)),
{
    reveal_strlit(".");
    reveal_strlit("..");
    lemma_dot_there(path);
    lemma_slash_tail(path);
    let n = path.len() - slash_tail(path).len();
    if n > 0 {
        assert(is_slash(path[n - 1]));
        assert(n < dot_in(path));
    }
}

proof fn lemma_slash_tail(path: Text)
    ensures
        ({
            let n = slash_tail(path).len();
            &&& n <= path.len()
            &&& forall|i: int| path.len() - n <= i < path.len() ==> !is_slash(#[trigger] path[i])
            &&& n < path.len() ==> is_slash(path[path.len() - n - 1])
        }),
    decreases path.len(),
{
    if path.len() > 0 && !is_slash(path.last()) {
        let shorter = path.drop_last();
        lemma_slash_tail(shorter);
        let n = slash_tail(path).len();
        assert forall|i: int| path.len() - n <= i < path.len() implies !is_slash(
            #[trigger] path[i],
        ) by {
            if i < shorter.len() {
                assert(shorter[i] == path[i]);
            }
        }
        if n < path.len() {
            assert(shorter[path.len() - n - 1] == path[path.len() - n - 1]);
        }
    }
}

/// The last dot is a dot.
proof fn lemma_dot_there(name: Text)
    requires
        dot_in(name) > 0,
    ensures
        dot_in(name) < name.len(),
        name[dot_in(name)] == '.',
    decreases name.len(),
{
    if name.len() > 0 && name.last() != '.' {
        lemma_dot_there(name.drop_last());
    }
}

/// The last dot of the end is the last dot of the whole.
proof fn lemma_dot_behind(head: Text, end: Text)
    requires
        dot_in(end) > 0,
    ensures
        dot_in(head + end) == head.len() + dot_in(end),
    decreases end.len(),
{
    if end.len() > 0 {
        assert((head + end).last() == end.last());
        if end.last() != '.' {
            assert((head + end).drop_last() =~= head + end.drop_last());
            lemma_dot_behind(head, end.drop_last());
        }
    }
}

/// In front of the tail stands a separator.
proof fn lemma_tail_starts(path: Text)
    ensures
        tail_of(path).len() <= path.len(),
        tail_of(path).len() < path.len() ==> separates(path[path.len() - tail_of(path).len() - 1]),
    decreases path.len(),
{
    if path.len() > 0 && !separates(path.last()) {
        lemma_tail_starts(path.drop_last());
    }
}

/// What is joined to the directory in front of a separator.
proof fn lemma_joined(path: Text, input: Text, left: Text)
    requires
        regular(input),
        is_left(input, left),
        left.len() > 0,
        is_slash(input[left.len() as int]),
        !bare_drive(left),
        may_be_joined(
            path,
            left,
            error_name(input.subrange(left.len() as int + 1, dot_in(input))),
        ),
    ensures
        ({
            let whole = error_name(input.take(dot_in(input)));
            let k = left.len() as int;
            path == whole.update(k, '/') || path == whole.update(k, '\\')
        }),
{
    let k = left.len() as int;
    let cut = dot_in(input);
    let name = error_name(input.subrange(k + 1, cut));
    let whole = error_name(input.take(cut));
    lemma_end(input);
    assert forall|i: int| 0 <= i < k implies #[trigger] left[i] == input[i] by {
        assert(left[i] == input.subrange(0, k)[i]);
    }
    reveal_strlit("_ERRORS.csv");
    assert(name_starts(input, k + 1));
    assert(k + 1 < cut);
    assert(name[0] == input[k + 1]);
    assert(!starts_with_drive(name)) by {
        if k + 2 < cut {
            assert(name[1] == input[k + 2]);
        }
    }
    assert(!is_slash(left.last())) by {
        if is_slash(input[k - 1]) {
            assert(name_starts(input, k));
        }
    }
    assert(is_joined(path, left, name));
    assert(whole.update(k, '/') =~= left + seq!['/'] + name);
    assert(whole.update(k, '\\') =~= left + seq!['\\'] + name);
}

/// A path beside the data file is a path of the file for rejected rows.
proof fn lemma_beside(path: Text, input: Text, left: Text)
    requires
        regular(input),
        may_be_parent(input, Some(left)),
        ({
            let whole = error_name(input.take(dot_in(input)));
            let k = left.len() as int;
            if k > 0 && is_slash(input[k]) && !bare_drive(left) {
                path == whole.update(k, '/') || path == whole.update(k, '\\')
            } else {
                path == whole
            }
        }),
    ensures
        is_error_path(path, input),
{
    let cut = dot_in(input);
    let k = left.len() as int;
    let whole = error_name(input.take(cut));
    let end = "_ERRORS.csv"@;
    lemma_end(input);
    lemma_dot_there(input);
    reveal_strlit("_ERRORS.csv");
    assert(path.len() == whole.len());
    assert(is_left(input, left));
    assert(path[cut] == '_');
    assert(path != input);
    assert(end =~= path.subrange(path.len() - end.len(), path.len() as int));
    assert(is_beside(path, input)) by {
        if path != whole {
            let c = path[k];
            assert(path =~= whole.update(k, c));
        }
    }
    if dot_is_sure(input) {
        lemma_beside_tail(path, input);
    }
    if portable(input) {
        lemma_beside_portable(path, input, left);
    }
    reveal_strlit("/");
}

/// A path beside the data file ends in its name.
proof fn lemma_beside_tail(path: Text, input: Text)
    requires
        regular(input),
        is_beside(path, input),
        dot_is_sure(input),
    ensures
        tail_of(path) == error_name(stem_of(tail_of(input))),
        error_name(stem_of(tail_of(input))).is_suffix_of(path),
{
    let cut = dot_in(input);
    let whole = error_name(input.take(cut));
    let tail = tail_of(input);
    let u = input.take(input.len() - tail.len());
    lemma_dot_there(input);
    assert(input.contains('.'));
    lemma_tail_starts(input);
    lemma_tail_ends(input);
    assert(input =~= u + tail);
    lemma_dot_behind(u, tail);
    let stem = stem_of(tail);
    lemma_dot_within(tail);
    assert(input.take(cut) =~= u + stem);
    assert forall|i: int| 0 <= i < stem.len() implies !separates(#[trigger] stem[i]) by {
        assert(stem[i] == tail[i]);
    }
    let v = if path == whole {
        u
    } else {
        let (k, c) = choose|k: int, c: char|
            0 <= k < cut && is_slash(input[k]) && is_slash(c) && path
                == #[trigger] whole.update(k, c);
        if k >= u.len() {
            assert(tail[k - u.len()] == input[k]);
        }
        assert(path =~= error_name(u.update(k, c) + stem));
        u.update(k, c)
    };
    assert(tail_of(v) =~= Seq::<char>::empty());
    assert(path =~= error_name(v + stem));
    lemma_tail_longer(v, stem);
    assert(tail_of(v + stem) =~= stem);
    lemma_error_name(v + stem);
    lemma_tail_ends(path);
}

/// The end of a path behind its last `/`.
proof fn lemma_last_starts(path: Text)
    ensures
        ({
            let n = last_of(path).len();
            &&& n <= path.len()
            &&& last_of(path) == path.skip(path.len() - n)
            &&& forall|i: int| path.len() - n <= i < path.len() ==> #[trigger] path[i] != '/'
            &&& n < path.len() ==> path[path.len() - n - 1] == '/'
        }),
    decreases path.len(),
{
    if path.len() > 0 && path.last() != '/' {
        let shorter = path.drop_last();
        lemma_last_starts(shorter);
        let n = last_of(path).len();
        assert forall|i: int| path.len() - n <= i < path.len() implies #[trigger] path[i]
            != '/' by {
            if i < shorter.len() {
                assert(shorter[i] == path[i]);
            }
        }
        assert(last_of(path) =~= path.skip(path.len() - n));
    } else {
        assert(last_of(path) =~= path.skip(path.len() as int));
    }
}

/// The file that a regular portable path names.
proof fn lemma_regular_portable(input: Text)
    requires
        regular(input),
        portable(input),
    ensures
        ({
            let h = head_of(input).len() as int;
            &&& h < dot_in(input)
            &&& h <= input.len()
            &&& head_of(input) == input.take(h)
            &&& names_file(input)
            &&& error_name_for(input) == error_name(input.subrange(h, dot_in(input)))
            &&& forall|i: int| 0 <= i < input.len() && is_slash(#[trigger] input[i]) ==> i < h
            &&& h > 0 ==> input[h - 1] == '/'
        }),
{
    let cut = dot_in(input);
    let head = head_of(input);
    let h = head.len() as int;
    let last = last_of(input);
    lemma_end(input);
    lemma_dot_there(input);
    lemma_last_starts(input);
    reveal_strlit(".");
    reveal_strlit("..");
    assert forall|i: int| 0 <= i < input.len() implies #[trigger] input[i] != '\\' by {
        assert(input.contains(input[i]));
    }
    if h > 0 {
        assert(is_slash(input[h - 1]));
    }
    assert(h < cut);
    assert(last.len() > 2);
    assert(names_file(input));
    lemma_portable(input);
    assert(input =~= head + last);
    lemma_dot_last(head, last);
    assert(last.take(cut - h) =~= input.subrange(h, cut));
}

/// The directory of a regular portable path.
proof fn lemma_regular_left(input: Text, left: Text)
    requires
        regular(input),
        portable(input),
        may_be_parent(input, Some(left)),
    ensures
        ({
            let h = head_of(input).len() as int;
            let k = left.len() as int;
            &&& left == input.take(k)
            &&& !bare_drive(left)
            &&& h > 1 ==> k == h - 1 && is_slash(input[k]) && left.last() != '/'
            &&& h == 1 ==> k == 1 && !is_slash(input[k]) && head_of(input) == "/"@
            &&& h == 0 ==> k == 0
        }),
{
    let head = head_of(input);
    let h = head.len() as int;
    let k = left.len() as int;
    reveal_strlit("/");
    lemma_regular_portable(input);
    assert(left =~= input.take(k)) by {
        assert(left == input.subrange(0, k));
    }
    assert(!bare_drive(left)) by {
        if k == 2 {
            assert(left[0] == input[0] && left[1] == input[1]);
        }
    }
    if h > 1 {
        lemma_straight_directory(input);
    } else if h == 1 {
        assert(head =~= "/"@);
        assert(is_slash(input[0]));
        assert(name_starts(input, 1));
    }
}

/// A path beside a data file at a portable path.
proof fn lemma_beside_portable(path: Text, input: Text, left: Text)
    requires
        regular(input),
        portable(input),
        may_be_parent(input, Some(left)),
        ({
            let whole = error_name(input.take(dot_in(input)));
            let k = left.len() as int;
            if k > 0 && is_slash(input[k]) && !bare_drive(left) {
                path == whole.update(k, '/') || path == whole.update(k, '\\')
            } else {
                path == whole
            }
        }),
    ensures
        error_name_for(input).is_suffix_of(path),
        left.is_prefix_of(input),
        is_joined(path, left, error_name_for(input)),
        head_of(input).len() == 0 ==> path == error_name_for(input),
        head_of(input) == "/"@ ==> path == head_of(input) + error_name_for(input),
        head_of(input).len() > 1 ==> left == directory_of(head_of(input)),
{
    let cut = dot_in(input);
    let k = left.len() as int;
    let whole = error_name(input.take(cut));
    let h = head_of(input).len() as int;
    let name = error_name(input.subrange(h, cut));
    lemma_regular_portable(input);
    lemma_regular_left(input, left);
    reveal_strlit("/");
    if h > 1 {
        assert(whole.update(k, '/') =~= left + seq!['/'] + name);
        assert(whole.update(k, '\\') =~= left + seq!['\\'] + name);
        assert(left =~= directory_of(head_of(input)));
    } else if h == 1 {
        assert(whole =~= left + name);
    } else {
        assert(whole =~= name);
    }
    assert(name =~= path.subrange(path.len() - name.len(), path.len() as int));
}

/// The last dot of a path is that of its last name.
proof fn lemma_dot_last(head: Text, last: Text)
    requires
        head.len() < dot_in(head + last),
    ensures
        dot_in(last) == dot_in(head + last) - head.len(),
    decreases last.len(),
{
    if last.len() == 0 {
        lemma_dot_within(head);
        assert(head + last =~= head);
    } else {
        assert((head + last).last() == last.last());
        if last.last() != '.' {
            assert((head + last).drop_last() =~= head + last.drop_last());
            lemma_dot_last(head, last.drop_last());
        }
    }
}

/// The directory of a straight path is written plainly.
proof fn lemma_straight_directory(path: Text)
    requires
        straight(path),
        head_of(path).len() > 1,
    ensures
        plain_directory(directory_of(head_of(path))),
{
    lemma_last_starts(path);
    let head = head_of(path);
    let directory = directory_of(head);
    let n = directory.len() as int;
    assert(path[n] == '/');
    assert(directory.last() != '/') by {
        if path[n - 1] == '/' {
            assert(name_starts(path, n));
        }
    }
    assert forall|i: int| 0 <= i < n - 1 && #[trigger] directory[i] == '/' implies directory[i + 1]
        != '/' && !(directory[i + 1] == '.' && (i + 2 == n || directory[i + 2] == '/')) by {
        assert(is_slash(path[i]));
        assert(name_starts(path, i + 1));
        assert(directory[i + 1] == path[i + 1]);
        if i + 2 < n {
            assert(directory[i + 2] == path[i + 2]);
        }
    }
}

// ---------------------------------------------------------------------------
// Laws
// ---------------------------------------------------------------------------

/// The rejected rows of `<name>.csv`, in whatever directory of whatever
/// platform, go to `<name>_ERRORS.csv`; and `<name>.csv` is read as CSV data.
/// (A directory that starts with two separators may be a server.)
pub proof fn law_errors_beside_data(directory: Text, name: Text, path: Text)
    requires
        directory.len() == 0 || separates(directory.last()),
        !starts_doubled(directory),
        name.len() > 0,
        forall|i: int| 0 <= i < name.len() ==> !separates(#[trigger] name[i]),
        is_error_path(path, directory + (name + ".csv"@)),
    ensures
        tail_of(path) == name + "_ERRORS.csv"@,
        forall|extension: Option<Text>| #[trigger]
            may_be_extension(directory + (name + ".csv"@), extension) ==> extension == Some(
                "csv"@,
            ),
        kind_of(text::lowercase("csv"@)) == Some(DataFileKind::Csv),
{
    let file = name + ".csv"@;
    let input = directory + file;
    reveal_strlit(".csv");
    reveal_strlit("csv");
    reveal_strlit(".");
    reveal_strlit("..");
    assert forall|i: int| 0 <= i < file.len() implies !separates(#[trigger] file[i]) by {
        if i < name.len() {
            assert(file[i] == name[i]);
        } else {
            assert(file[i] == ".csv"@[i - name.len()]);
        }
    }
    lemma_tail_longer(directory, file);
    assert(tail_of(directory) =~= Seq::<char>::empty());
    assert(tail_of(input) =~= file);
    assert(file =~= name + seq!['.'] + "csv"@);
    lemma_dot(name, "csv"@);
    assert(file.take(name.len() as int) =~= name);
    assert(file.skip(name.len() as int + 1) =~= "csv"@);
    assert(!starts_doubled(input)) by {
        if directory.len() >= 2 {
            assert(input[0] == directory[0] && input[1] == directory[1]);
        } else if directory.len() == 1 {
            assert(input[1] == file[0]);
        } else {
            assert(input[0] == file[0]);
        }
    }
    assert(text::lowercase("csv"@) =~= "csv"@);
}

/// The extension of a bare file name does not matter: the rejected rows of
/// `<name>.<extension>` go to `<name>_ERRORS.csv`. (A name that is nothing but a
/// letter and a colon may be a drive.)
pub proof fn law_errors_by_name(name: Text, extension: Text, path: Text)
    requires
        name.len() > 0,
        one_name(name),
        !name.contains('.'),
        extension.len() > 0,
        one_name(extension),
        !extension.contains('.'),
        !bare_drive(name),
        is_error_path(path, name + seq!['.'] + extension),
    ensures
        path == name + "_ERRORS.csv"@,
{
    let input = name + seq!['.'] + extension;
    lemma_dot(name, extension);
    assert(input.take(name.len() as int) =~= name);
    assert forall|i: int| 0 <= i < input.len() implies !is_slash(#[trigger] input[i]) by {
        if i < name.len() {
            assert(name.contains(name[i]));
        } else if i > name.len() {
            assert(extension.contains(extension[i - name.len() - 1]));
        }
    }
    assert(regular(input));
}

/// An extension stands behind the last dot of a name that does not start there.
pub proof fn law_extension(stem: Text, extension: Text)
    requires
        !extension.contains('.'),
    ensures
        stem.len() > 0 ==> extension_of(stem + seq!['.'] + extension) == Some(extension) && stem_of(
            stem + seq!['.'] + extension,
        ) == stem,
        extension_of(extension) is None,
        stem_of(extension) == extension,
        extension_of(seq!['.'] + extension) is None,
        stem_of(seq!['.'] + extension) == seq!['.'] + extension,
{
    let name = stem + seq!['.'] + extension;
    lemma_dot(stem, extension);
    assert(name.take(stem.len() as int) =~= stem);
    assert(name.skip(stem.len() as int + 1) =~= extension);
    lemma_dot(Seq::empty(), extension);
    assert(Seq::<char>::empty() + seq!['.'] + extension =~= seq!['.'] + extension);
    lemma_no_dot(extension);
}

proof fn lemma_no_dot(name: Text)
    requires
        !name.contains('.'),
    ensures
        dot_in(name) == 0,
    decreases name.len(),
{
    if name.len() > 0 {
        assert(name.contains(name.last()));
        assert forall|c: char| #[trigger] name.drop_last().contains(c) implies name.contains(c) by {
            let i = choose|i: int| 0 <= i < name.len() - 1 && name.drop_last()[i] == c;
            assert(name[i] == c);
        }
        lemma_no_dot(name.drop_last());
    }
}

/// The name at the end of a path is what stands behind the last separator.
pub proof fn law_tail(directory: Text, name: Text)
    requires
        directory.len() == 0 || separates(directory.last()),
        forall|i: int| 0 <= i < name.len() ==> !separates(#[trigger] name[i]),
    ensures
        tail_of(directory + name) == name,
{
    lemma_tail_longer(directory, name);
    assert(tail_of(directory) =~= Seq::<char>::empty());
    assert(tail_of(directory + name) =~= name);
}

/// Data files are CSV files and five kinds of workbooks, by an extension in
/// capitals or not; of any other extension is said that it is none of these.
pub proof fn law_kinds(extension: Text, message: String)
    requires
        forall|i: int| 0 <= i < extension.len() ==> #[trigger] extension[i] <= '\u{7f}',
    ensures
        is_kind(Ok(DataFileKind::Csv), extension) <==> text_laws::spells(extension, "csv"@),
        is_kind(Ok(DataFileKind::Workbook), extension) <==> {
            ||| text_laws::spells(extension, "xls"@)
            ||| text_laws::spells(extension, "xlsx"@)
            ||| text_laws::spells(extension, "xlsm"@)
            ||| text_laws::spells(extension, "xlsb"@)
            ||| text_laws::spells(extension, "ods"@)
        },
        is_kind(Err(message), extension) <==> {
            &&& !is_kind(Ok(DataFileKind::Csv), extension)
            &&& !is_kind(Ok(DataFileKind::Workbook), extension)
            &&& message@ == "Unsupported data file extension '"@ + text::lowercase(extension)
                + "'. Use .csv .xls .xlsx .xlsm .xlsb or .ods"@
        },
{
    reveal_strlit("csv");
    reveal_strlit("xls");
    reveal_strlit("xlsx");
    reveal_strlit("xlsm");
    reveal_strlit("xlsb");
    reveal_strlit("ods");
    assert("csv"@[0] == 'c' && "xls"@[0] == 'x' && "xlsx"@[0] == 'x' && "xlsm"@[0] == 'x'
        && "xlsb"@[0] == 'x' && "ods"@[0] == 'o');
    law_lowercase(extension, "csv"@);
    law_lowercase(extension, "xls"@);
    law_lowercase(extension, "xlsx"@);
    law_lowercase(extension, "xlsm"@);
    law_lowercase(extension, "xlsb"@);
    law_lowercase(extension, "ods"@);
}

/// The rejected rows of a path that names no file go to `output_ERRORS.csv`, and
/// the file for rejected rows is never the data file.
pub proof fn law_errors_of_no_file(input: Text, path: Text)
    requires
        is_error_path(path, input),
    ensures
        path != input,
        input.len() == 0 || input == seq!['/'] ==> path == "output_ERRORS.csv"@,
{
    reveal_strlit("/");
    reveal_strlit("output");
    reveal_strlit("_ERRORS.csv");
    reveal_strlit("output_ERRORS.csv");
    assert("/"@ =~= seq!['/']);
    assert("output_ERRORS.csv"@ =~= "output"@ + "_ERRORS.csv"@);
}

/// The rejected rows of `<name>.<extension>` in a directory go to
/// `<name>_ERRORS.csv` in the same directory, one of whose separators, or the
/// one behind it, may be written as the platform writes it.
pub proof fn law_errors_in_directory(
    directory: Text,
    separator: char,
    name: Text,
    extension: Text,
    path: Text,
)
    requires
        directory.len() > 0,
        !directory.contains('.'),
        !directory.contains(':'),
        forall|i: int|
            0 <= i < directory.len() && is_slash(#[trigger] directory[i]) ==> i + 1
                < directory.len() && !is_slash(directory[i + 1]),
        is_slash(separator),
        name.len() > 0,
        one_name(name),
        !name.contains('.'),
        !name.contains(':'),
        extension.len() > 0,
        one_name(extension),
        !extension.contains('.'),
        is_error_path(path, directory + seq![separator] + name + seq!['.'] + extension),
    ensures
        path.len() == directory.len() + 1 + name.len() + 11,
        path.skip(directory.len() as int + 1) == name + "_ERRORS.csv"@,
        is_slash(path[directory.len() as int]),
        forall|i: int|
            0 <= i < directory.len() ==> #[trigger] path[i] == directory[i] || (is_slash(path[i])
                && is_slash(directory[i])),
{
    let left = directory + seq![separator] + name;
    let input = left + seq!['.'] + extension;
    let d = directory.len() as int;
    let n = left.len() as int;
    lemma_dot(left, extension);
    reveal_strlit("_ERRORS.csv");
    assert forall|i: int| 0 <= i < n implies #[trigger] input[i] != '.' && input[i] != ':' by {
        if i < d {
            assert(directory.contains(directory[i]));
        } else if i > d {
            assert(name.contains(name[i - d - 1]));
        }
    }
    assert forall|i: int| d < i < input.len() implies !is_slash(#[trigger] input[i]) by {
        if i < n {
            assert(name.contains(name[i - d - 1]));
        } else if i > n {
            assert(extension.contains(extension[i - n - 1]));
        }
    }
    assert forall|i: int| 0 <= i < input.len() && is_slash(#[trigger] input[i]) implies name_starts(
        input,
        i + 1,
    ) by {
        if i < d {
            assert(is_slash(directory[i]));
            assert(input[i + 1] == directory[i + 1]);
        } else {
            assert(i == d);
            assert(!is_slash(input[d + 1]));
        }
        assert(input[i + 1] != '.');
    }
    assert(input[n - 1] == name.last());
    assert(has_extension(input));
    assert(!starts_doubled(input)) by {
        if is_slash(input[0]) {
            assert(name_starts(input, 1));
        }
    }
    assert(regular(input));
    let whole = error_name(input.take(dot_in(input)));
    assert(input.take(n) =~= left);
    assert(whole.skip(d + 1) =~= name + "_ERRORS.csv"@);
    if path != whole {
        let (k, c) = choose|k: int, c: char|
            0 <= k < dot_in(input) && is_slash(input[k]) && is_slash(c) && path
                == #[trigger] whole.update(k, c);
        assert(k <= d);
        assert(path.skip(d + 1) =~= whole.skip(d + 1));
    }
}

} // verus!
