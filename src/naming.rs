//! What a path's name says: its final segment, extension and stem; whether it
//! names a source file of the allowlist; what kind of input it is; and the name
//! of the combined document made from it.
use vstd::prelude::*;
use vstd::string::StringExecFns;
use vstd::string::StrSliceExecFns;
use crate::text::{find_last, last_index_of, lemma_last_index_bounds, same_chars};

verus! {

/// `s` without the `/` characters that end it.
pub open spec fn trim_slashes(s: Seq<char>) -> Seq<char>
    decreases s.len(),
{
    if s.len() > 0 && s.last() == '/' {
        trim_slashes(s.drop_last())
    } else {
        s
    }
}

/// The final segment of a path: what follows its last `/` once trailing
/// slashes are dropped.
pub open spec fn file_name_of(p: Seq<char>) -> Seq<char> {
    let t = trim_slashes(p);
    t.subrange(last_index_of(t, '/') + 1, t.len() as int)
}

/// Whether a final segment names something: it is neither empty, `.` nor `..`.
pub open spec fn is_named(n: Seq<char>) -> bool {
    !(n.len() == 0 || n == seq!['.'] || n == seq!['.', '.'])
}

/// The text after the last `.` of the final segment, where that dot is not the
/// segment's first character.
pub open spec fn extension_of(p: Seq<char>) -> Option<Seq<char>> {
    let n = file_name_of(p);
    let d = last_index_of(n, '.');
    if is_named(n) && d > 0 {
        Some(n.subrange(d + 1, n.len() as int))
    } else {
        None
    }
}

/// The final segment without its extension; none for an empty segment, `.` or
/// `..`.
pub open spec fn stem_of(p: Seq<char>) -> Option<Seq<char>> {
    let n = file_name_of(p);
    let d = last_index_of(n, '.');
    if !is_named(n) {
        None
    } else if d > 0 {
        Some(n.subrange(0, d))
    } else {
        Some(n)
    }
}

proof fn lemma_trim_is_prefix(s: Seq<char>)
    ensures
        trim_slashes(s).len() <= s.len(),
        trim_slashes(s) == s.subrange(0, trim_slashes(s).len() as int),
    decreases s.len(),
{
    if s.len() > 0 && s.last() == '/' {
        lemma_trim_is_prefix(s.drop_last());
        assert(s.drop_last().subrange(0, trim_slashes(s).len() as int) == s.subrange(
            0,
            trim_slashes(s).len() as int,
        ));
    } else {
        assert(s.subrange(0, s.len() as int) == s);
    }
}

/// The final segment of `path`.
pub fn file_name(path: &str) -> (r: String)
    ensures
        r@ == file_name_of(path@),
{
    let n = path.unicode_len();
    let mut i: usize = n;
    assert(path@.subrange(0, n as int) == path@);
    while i > 0 && path.get_char(i - 1) == '/'
        invariant
            n == path@.len(),
            i <= n,
            trim_slashes(path@) == trim_slashes(path@.subrange(0, i as int)),
        decreases i,
    {
        assert(path@.subrange(0, i as int).drop_last() == path@.subrange(0, i - 1));
        i = i - 1;
    }
    let trimmed = path.substring_char(0, i);
    assert(trimmed@ == trim_slashes(path@));
    proof {
        lemma_last_index_bounds(trimmed@, '/');
    }
    let start = match find_last(trimmed, '/') {
        Some(j) => j + 1,
        None => 0,
    };
    String::from_str(trimmed.substring_char(start, i))
}

fn names_something(s: &str) -> (r: bool)
    ensures
        r == is_named(s@),
{
    proof {
        reveal_strlit(".");
        reveal_strlit("..");
    }
    assert("."@ =~= seq!['.']);
    assert(".."@ =~= seq!['.', '.']);
    let empty = s.unicode_len() == 0;
    let dot = same_chars(s, ".");
    let dots = same_chars(s, "..");
    !(empty || dot || dots)
}

/// The extension of `path`, as its characters stand.
pub fn extension(path: &str) -> (r: Option<String>)
    ensures
        match r {
            Some(e) => extension_of(path@) == Some(e@),
            None => extension_of(path@).is_none(),
        },
{
    let name = file_name(path);
    let s = name.as_str();
    let n = s.unicode_len();
    proof {
        lemma_last_index_bounds(name@, '.');
    }
    if !names_something(s) {
        return None;
    }
    match find_last(s, '.') {
        Some(d) => {
            if d > 0 {
                Some(String::from_str(s.substring_char(d + 1, n)))
            } else {
                None
            }
        },
        None => None,
    }
}

/// The stem of `path`: its final segment without the extension.
pub fn file_stem(path: &str) -> (r: Option<String>)
    ensures
        match r {
            Some(e) => stem_of(path@) == Some(e@),
            None => stem_of(path@).is_none(),
        },
{
    let name = file_name(path);
    let s = name.as_str();
    proof {
        lemma_last_index_bounds(name@, '.');
    }
    if !names_something(s) {
        return None;
    }
    match find_last(s, '.') {
        Some(d) => {
            if d > 0 {
                Some(String::from_str(s.substring_char(0, d)))
            } else {
                Some(name)
            }
        },
        None => Some(name),
    }
}

/// What `str::to_lowercase` makes of a string.
pub uninterp spec fn lower_of(s: Seq<char>) -> Seq<char>;

/// Relies on `str::to_lowercase`: the lowercase form depends on the characters
/// alone.
#[verifier::external_body]
fn lowercase(s: &str) -> (r: String)
    ensures
        r@ == lower_of(s@),
{
    s.to_lowercase()
}

/// The views of a list of string slices.
pub open spec fn views(items: Seq<&str>) -> Seq<Seq<char>> {
    items.map_values(|x: &str| x@)
}

/// Whether the lowercase extension of `p` is one of `allowed`.
pub open spec fn has_listed_extension(p: Seq<char>, allowed: Seq<Seq<char>>) -> bool {
    match extension_of(p) {
        Some(e) => allowed.contains(lower_of(e)),
        None => false,
    }
}

/// The extensions, in lowercase, of the files taken into the document.
pub open spec fn allowlist() -> Seq<Seq<char>> {
    seq![
        "rs"@, "py"@, "java"@, "c"@, "cpp"@, "h"@, "js"@, "ts"@, "go"@, "rb"@,
        "swift"@, "kt"@, "php"@, "cs"@, "def"@, "dlg"@, "rc"@, "cur"@, "ico"@,
    ]
}

/// Whether a name's extension puts it on the allowlist.
pub open spec fn qualifies(name: Seq<char>) -> bool {
    has_listed_extension(name, allowlist())
}

/// The extensions, in lowercase, of the files taken into the document.
pub fn allowed_extensions() -> (r: Vec<&'static str>)
    ensures
        views(r@) == allowlist(),
{
    let r = vec![
        "rs", "py", "java", "c", "cpp", "h", "js", "ts", "go", "rb", "swift", "kt", "php", "cs",
        "def", "dlg", "rc", "cur", "ico",
    ];
    assert(views(r@) =~= allowlist());
    r
}

/// Whether `lowered`, an extension already in lowercase, is one of `allowed`.
pub fn is_listed(lowered: &str, allowed: &[&str]) -> (r: bool)
    ensures
        r == views(allowed@).contains(lowered@),
{
    let mut i: usize = 0;
    while i < allowed.len()
        invariant
            i <= allowed@.len(),
            forall|k: int| 0 <= k < i ==> allowed@[k]@ != lowered@,
        decreases allowed@.len() - i,
    {
        if same_chars(lowered, allowed[i]) {
            assert(views(allowed@)[i as int] == lowered@);
            return true;
        }
        i = i + 1;
    }
    assert forall|k: int| 0 <= k < views(allowed@).len() implies views(allowed@)[k] != lowered@ by {
        assert(views(allowed@)[k] == allowed@[k]@);
    }
    false
}

/// Whether the extension of `path`, in lowercase, is one of `allowed`.
pub fn is_source_file(path: &str, allowed: &[&str]) -> (r: bool)
    ensures
        r == has_listed_extension(path@, views(allowed@)),
{
    match extension(path) {
        Some(e) => {
            let lowered = lowercase(e.as_str());
            is_listed(lowered.as_str(), allowed)
        },
        None => false,
    }
}

/// Whether an extension is judged on its lowercase form alone: two names whose
/// extensions have the same lowercase form are both listed or both not.
pub proof fn lemma_extension_case_ignored(a: Seq<char>, b: Seq<char>, allowed: Seq<Seq<char>>)
    requires
        extension_of(a).is_some(),
        extension_of(b).is_some(),
        lower_of(extension_of(a).unwrap()) == lower_of(extension_of(b).unwrap()),
    ensures
        has_listed_extension(a, allowed) == has_listed_extension(b, allowed),
        qualifies(a) == qualifies(b),
{
}

/// The kind of input a run reads.
#[derive(Debug, PartialEq, Eq, Structural, Clone, Copy)]
pub enum InputKind {
    /// A directory, walked recursively.
    Directory,
    /// A ZIP archive, read member by member.
    Archive,
}

/// Why an input path cannot be read.
#[derive(Debug, PartialEq, Eq, Structural, Clone, Copy)]
pub enum InputError {
    /// Nothing exists at the path.
    Missing,
    /// A file that is not a ZIP archive.
    Unsupported,
    /// Something that is neither a directory nor a file.
    NotFileOrDirectory,
}

/// Whether the lowercase extension of `p` is `zip`.
pub open spec fn is_archive_name(p: Seq<char>) -> bool {
    match extension_of(p) {
        Some(e) => lower_of(e) == "zip"@,
        None => false,
    }
}

/// Whether `lowered`, an extension already in lowercase, is that of a ZIP
/// archive.
pub fn is_zip_extension(lowered: &str) -> (r: bool)
    ensures
        r == (lowered@ == "zip"@),
{
    same_chars(lowered, "zip")
}

/// Decides from what the file system says of `path` how it is to be read.
pub fn classify_input(path: &str, exists: bool, is_dir: bool, is_file: bool) -> (r: Result<
    InputKind,
    InputError,
>)
    ensures
        !exists ==> r == Err::<InputKind, InputError>(InputError::Missing),
        exists && is_dir ==> r == Ok::<InputKind, InputError>(InputKind::Directory),
        exists && !is_dir && is_file && is_archive_name(path@) ==> r == Ok::<
            InputKind,
            InputError,
        >(InputKind::Archive),
        exists && !is_dir && is_file && !is_archive_name(path@) ==> r == Err::<
            InputKind,
            InputError,
        >(InputError::Unsupported),
        exists && !is_dir && !is_file ==> r == Err::<InputKind, InputError>(
            InputError::NotFileOrDirectory,
        ),
{
    if !exists {
        Err(InputError::Missing)
    } else if is_dir {
        Ok(InputKind::Directory)
    } else if is_file {
        let zip = match extension(path) {
            Some(e) => {
                let lowered = lowercase(e.as_str());
                is_zip_extension(lowered.as_str())
            },
            None => false,
        };
        if zip {
            Ok(InputKind::Archive)
        } else {
            Err(InputError::Unsupported)
        }
    } else {
        Err(InputError::NotFileOrDirectory)
    }
}

/// The name the document is given after its input: the stem of the path, or
/// `input` where it has none.
pub open spec fn base_name_of(p: Seq<char>) -> Seq<char> {
    match stem_of(p) {
        Some(s) => s,
        None => "input"@,
    }
}

/// The name of the combined document: the time stamp of the run, the base
/// name of the input, and `-COMBINED.TXT`.
pub fn output_file_name(stamp: &str, input: &str) -> (r: String)
    ensures
        r@ == stamp@ + "-"@ + base_name_of(input@) + "-COMBINED.TXT"@,
{
    let mut r = String::from_str(stamp);
    r.append("-");
    match file_stem(input) {
        Some(s) => r.append(s.as_str()),
        None => r.append("input"),
    }
    r.append("-COMBINED.TXT");
    r
}

} // verus!
