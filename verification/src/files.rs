//! Checks on uploaded files and on stored paths.
use vstd::prelude::*;

use crate::error::{is_bad, AppError};
use crate::text::{
    ascii_lower_seq, chars_of, contains, contains_exec, eq_chars, lower_chars, push_all, push_str,
    string_of, trim, trim_chars,
};

verus! {

/// The largest file accepted: 20 MiB.
pub const MAX_SOURCE_BYTES: usize = 20971520;

/// The last component of a path (`Path::file_name`), if any.
pub uninterp spec fn path_file_name_of(name: Seq<char>) -> Option<Seq<char>>;

/// Whether a path is absolute (`Path::is_absolute`). The answer is fixed for
/// one build, but it differs between targets: on Windows a path needs a drive
/// or a UNC prefix, on Unix a leading `/` is enough.
pub uninterp spec fn path_is_absolute_of(name: Seq<char>) -> bool;

/// Where the last `.` of `f` stands, if it has one.
pub open spec fn last_dot(f: Seq<char>) -> Option<int>
    decreases f.len(),
{
    if f.len() == 0 {
        None
    } else if f.last() == '.' {
        Some(f.len() - 1)
    } else {
        last_dot(f.drop_last())
    }
}

/// The extension of a file name, as `Path::extension` documents it: nothing
/// where the name has no `.`, or its only `.` begins it; otherwise what follows
/// the last `.`.
pub open spec fn name_extension(f: Seq<char>) -> Option<Seq<char>> {
    match last_dot(f) {
        Some(i) => if i > 0 {
            Some(f.skip(i + 1))
        } else {
            None
        },
        None => None,
    }
}

/// Wraps `Path::extension` on a path given as text: nothing where the path has
/// no file name (`Path::file_name`), else the file name's `name_extension`.
#[verifier::external_body]
pub(crate) fn path_extension(name: &str) -> (r: Option<String>)
    ensures
        path_file_name_of(name@) is None ==> r is None,
        path_file_name_of(name@) matches Some(f) ==> (match name_extension(f) {
            Some(x) => r matches Some(e) && e@ == x,
            None => r is None,
        }),
{
    std::path::Path::new(name).extension().and_then(|e| e.to_str()).map(|e| e.to_string())
}

/// Wraps `Path::file_name` on a path given as text; the result is named only.
#[verifier::external_body]
pub(crate) fn path_file_name(name: &str) -> (r: Option<String>)
    ensures
        r matches Some(e) ==> path_file_name_of(name@) == Some(e@),
        r is None ==> path_file_name_of(name@) is None,
{
    std::path::Path::new(name).file_name().and_then(|e| e.to_str()).map(|e| e.to_string())
}

/// Wraps `Path::is_absolute` on a path given as text; the result is named only.
#[verifier::external_body]
pub(crate) fn path_is_absolute(name: &str) -> (b: bool)
    ensures
        b == path_is_absolute_of(name@),
{
    std::path::Path::new(name).is_absolute()
}

/// The lower-cased extension of a file name, or nothing.
pub open spec fn extension_spec(filename: Seq<char>) -> Seq<char> {
    match path_file_name_of(filename) {
        Some(f) => match name_extension(f) {
            Some(e) => ascii_lower_seq(e),
            None => Seq::empty(),
        },
        None => Seq::empty(),
    }
}

pub fn extension_of(filename: &str) -> (e: String)
    ensures
        e@ == extension_spec(filename@),
{
    match path_extension(filename) {
        Some(ext) => string_of(&lower_chars(&chars_of(ext.as_str()))),
        None => String::new(),
    }
}

/// An extension that is never accepted (programs and scripts).
pub open spec fn blocked_ext(e: Seq<char>) -> bool {
    e == "exe"@ || e == "bat"@ || e == "cmd"@ || e == "com"@ || e == "dll"@ || e == "msi"@ || e
        == "scr"@ || e == "ps1"@ || e == "vbs"@
}

pub fn is_blocked_ext(e: &Vec<char>) -> (b: bool)
    ensures
        b == blocked_ext(e@),
{
    eq_chars(e, &chars_of("exe")) || eq_chars(e, &chars_of("bat")) || eq_chars(
        e,
        &chars_of("cmd"),
    ) || eq_chars(e, &chars_of("com")) || eq_chars(e, &chars_of("dll")) || eq_chars(
        e,
        &chars_of("msi"),
    ) || eq_chars(e, &chars_of("scr")) || eq_chars(e, &chars_of("ps1")) || eq_chars(
        e,
        &chars_of("vbs"),
    )
}

/// Checks an uploaded file: at most 20 MiB and not a program or script. Gives
/// the file's extension, lower-cased.
pub fn check(filename: &str, bytes: &[u8]) -> (r: Result<String, AppError>)
    ensures
        bytes@.len() > MAX_SOURCE_BYTES ==> r is Err && is_bad(r->Err_0, "файл больше 20 МБ"@),
        bytes@.len() <= MAX_SOURCE_BYTES && blocked_ext(extension_spec(filename@)) ==> r is Err
            && is_bad(r->Err_0, "этот тип файла нельзя импортировать"@),
        bytes@.len() <= MAX_SOURCE_BYTES && !blocked_ext(extension_spec(filename@)) ==> (r matches Ok(
            e,
        ) && e@ == extension_spec(filename@)),
{
    if bytes.len() > MAX_SOURCE_BYTES {
        return Err(AppError::bad("файл больше 20 МБ"));
    }
    let ext = extension_of(filename);
    if is_blocked_ext(&chars_of(ext.as_str())) {
        return Err(AppError::bad("этот тип файла нельзя импортировать"));
    }
    Ok(ext)
}

/// A stored relative path that may be opened: not empty, not absolute, no `..`.
pub open spec fn safe_rel_spec(rel: Seq<char>) -> bool {
    rel.len() > 0 && !path_is_absolute_of(rel) && !contains(rel, ".."@)
}

pub fn safe_rel(rel: &str) -> (b: bool)
    ensures
        b == safe_rel_spec(rel@),
{
    let v = chars_of(rel);
    v.len() > 0 && !path_is_absolute(rel) && !contains_exec(&v, &chars_of(".."))
}

/// The name a file is shown by: the last component of its path, or `file`, cut
/// to 180 characters.
pub open spec fn display_name_spec(filename: Seq<char>) -> Seq<char> {
    let n = match path_file_name_of(filename) {
        Some(n) => n,
        None => "file"@,
    };
    if n.len() <= 180 {
        n
    } else {
        n.take(180)
    }
}

pub fn display_name(filename: &str) -> (s: String)
    ensures
        s@ == display_name_spec(filename@),
{
    let n = match path_file_name(filename) {
        Some(n) => chars_of(n.as_str()),
        None => chars_of("file"),
    };
    if n.len() <= 180 {
        string_of(&n)
    } else {
        let mut cut: Vec<char> = Vec::new();
        crate::text::push_range(&mut cut, &n, 0, 180);
        assert(cut@ =~= n@.take(180));
        string_of(&cut)
    }
}


/// The name a file is kept under on disk: `original`, with the extension where
/// there is one.
pub open spec fn disk_name_spec(ext: Seq<char>) -> Seq<char> {
    if ext.len() == 0 {
        "original"@
    } else {
        "original."@ + ext
    }
}

/// The media type recorded for a file: as given, trimmed, or
/// `application/octet-stream` where none is given.
pub open spec fn mime_spec(mime: Seq<char>) -> Seq<char> {
    if trim(mime).len() == 0 {
        "application/octet-stream"@
    } else {
        trim(mime)
    }
}

/// Where and how an accepted upload is kept: its path under the data
/// directory, the name it is shown by and its media type.
#[derive(Debug, Clone)]
pub struct SavePlan {
    pub rel: String,
    pub display: String,
    pub mime: String,
}

/// Accepts an upload for the record `id` kept under `folder` (see [`check`]),
/// and says where and how it is kept: `folder/id/original.ext`.
pub fn save_plan(folder: &str, id: &str, filename: &str, mime: &str, bytes: &[u8]) -> (r: Result<
    SavePlan,
    AppError,
>)
    ensures
        bytes@.len() > MAX_SOURCE_BYTES ==> (r matches Err(e) && is_bad(e, "файл больше 20 МБ"@)),
        bytes@.len() <= MAX_SOURCE_BYTES && blocked_ext(extension_spec(filename@)) ==> (r matches Err(
            e,
        ) && is_bad(e, "этот тип файла нельзя импортировать"@)),
        bytes@.len() <= MAX_SOURCE_BYTES && !blocked_ext(extension_spec(filename@)) ==> (r matches Ok(
            p,
        ) && p.rel@ == folder@ + "/"@ + id@ + "/"@ + disk_name_spec(extension_spec(filename@))
            && p.display@ == display_name_spec(filename@) && p.mime@ == mime_spec(mime@)),
{
    let ext = match check(filename, bytes) {
        Ok(e) => chars_of(e.as_str()),
        Err(e) => {
            return Err(e);
        },
    };
    let mut rel: Vec<char> = chars_of(folder);
    push_str(&mut rel, "/");
    push_all(&mut rel, &chars_of(id));
    push_str(&mut rel, "/");
    push_str(&mut rel, "original");
    if ext.len() > 0 {
        push_str(&mut rel, ".");
        push_all(&mut rel, &ext);
    }
    proof {
        reveal_strlit("original.");
        reveal_strlit("original");
        reveal_strlit(".");
        assert("original"@ + "."@ =~= "original."@);
    }
    assert(rel@ =~= folder@ + "/"@ + id@ + "/"@ + disk_name_spec(extension_spec(filename@)));
    let m = trim_chars(&chars_of(mime));
    let mime_out = if m.len() == 0 {
        "application/octet-stream".to_owned()
    } else {
        string_of(&m)
    };
    Ok(SavePlan { rel: string_of(&rel), display: display_name(filename), mime: mime_out })
}

} // verus!
