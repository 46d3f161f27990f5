//! Sending a document to Word for printing: the script Word is driven by, and
//! what its failures are reported as.
use vstd::prelude::*;

use crate::error::{is_bad, AppError};
use crate::text::{
    ascii_lower_seq, chars_of, contains, contains_exec, lower_chars, push_all, push_str, replace,
    replace_exec, trim, trim_chars, utf8_lossy,
};

verus! {

/// Printing through Word where Word cannot be driven: refused, with a hint to
/// print the preview instead. Where it can (on Windows), the caller drives Word
/// with [`word_print_script`].
pub fn print_docx(path: &str) -> (r: Result<(), AppError>)
    ensures
        r matches Err(e) && is_bad(e, "отправка в Word есть только на Windows. Распечатайте предпросмотр"@),
{
    Err(AppError::bad("отправка в Word есть только на Windows. Распечатайте предпросмотр"))
}

/// The start of the PowerShell script that prints a document through Word.
pub open spec fn script_head() -> Seq<char> {
    "\n$ErrorActionPreference = 'Stop'\n$word = $null\n$doc = $null\ntry {\n  $word = New-Object -ComObject Word.Application\n  $word.Visible = $false\n  $word.DisplayAlerts = 0\n  $doc = $word.Documents.Open('"@
}

/// The end of the PowerShell script that prints a document through Word.
pub open spec fn script_tail() -> Seq<char> {
    "', $false, $true)\n  $doc.PrintOut($false)\n  $n = 0\n  while ($word.BackgroundPrintingStatus -gt 0 -and $n -lt 80) {\n    Start-Sleep -Milliseconds 250\n    $n++\n  }\n} catch {\n  throw\n} finally {\n  if ($doc -ne $null) { $doc.Close($false) | Out-Null }\n  if ($word -ne $null) { $word.Quit() | Out-Null }\n}\n"@
}

/// The PowerShell script that opens `path` read-only in a hidden Word, prints
/// it, waits up to 20 s for the printing to finish and closes Word; the path is
/// quoted for PowerShell, each `'` doubled.
pub fn word_print_script(path: &str) -> (s: Vec<char>)
    ensures
        s@ == script_head() + replace(path@, "'"@, "''"@) + script_tail(),
{
    let q: Vec<char> = vec!['\''];
    let qq: Vec<char> = vec!['\'', '\''];
    proof {
        reveal_strlit("'");
        reveal_strlit("''");
    }
    assert(q@ =~= "'"@);
    assert(qq@ =~= "''"@);
    let mut s: Vec<char> = chars_of("\n$ErrorActionPreference = 'Stop'\n$word = $null\n$doc = $null\ntry {\n  $word = New-Object -ComObject Word.Application\n  $word.Visible = $false\n  $word.DisplayAlerts = 0\n  $doc = $word.Documents.Open('");
    push_all(&mut s, &replace_exec(&chars_of(path), &q, &qq));
    push_str(&mut s, "', $false, $true)\n  $doc.PrintOut($false)\n  $n = 0\n  while ($word.BackgroundPrintingStatus -gt 0 -and $n -lt 80) {\n    Start-Sleep -Milliseconds 250\n    $n++\n  }\n} catch {\n  throw\n} finally {\n  if ($doc -ne $null) { $doc.Close($false) | Out-Null }\n  if ($word -ne $null) { $word.Quit() | Out-Null }\n}\n");
    s
}

/// What a failed print is reported as, from what Word's script wrote to its
/// error stream (`stderr`, read as UTF-8 with bad sequences replaced, and
/// trimmed): Word missing where it mentions the class error `80040154` or `com`
/// in any case; otherwise that Word refused, with its words where it wrote any.
pub open spec fn print_error_text(err: Seq<char>) -> Seq<char> {
    if contains(err, "80040154"@) || contains(ascii_lower_seq(err), "com"@) {
        "Word не установлен. Скачайте файл и печатайте из Word, либо распечатайте предпросмотр"@
    } else if err.len() == 0 {
        "Word не принял печать"@
    } else {
        "Word: "@ + err
    }
}

/// The error a failed print is reported with; `stderr` is what the script wrote.
pub fn word_print_error(stderr: &[u8]) -> (e: AppError)
    ensures
        is_bad(e, print_error_text(trim(crate::text::lossy_utf8(stderr@)))),
{
    let text = utf8_lossy(stderr);
    let err = trim_chars(&chars_of(text.as_str()));
    if contains_exec(&err, &chars_of("80040154")) || contains_exec(&lower_chars(&err), &chars_of("com")) {
        return AppError::bad("Word не установлен. Скачайте файл и печатайте из Word, либо распечатайте предпросмотр");
    }
    if err.len() == 0 {
        return AppError::bad("Word не принял печать");
    }
    AppError::bad_prefixed("Word: ", &err)
}

} // verus!
