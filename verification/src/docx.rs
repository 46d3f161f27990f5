//! `.docx` packages: reading their text, rewriting their paragraphs, building new ones.
use vstd::prelude::*;

use crate::archive::{
    zip_bytes_of, zip_count_result, zip_entry_at, zip_entry_count, zip_entry_result,
    zip_entry_text, zip_finish, zip_start_file, zip_text_result, zip_write_all, zip_writer_new,
    zip_written, entry_size_limit, zip_entry_open, EntryView, ZipEntry,
};
use crate::error::{is_bad, is_internal, AppError};
use crate::model::{value_text, value_text_spec, FieldValue};
use crate::marks::marks_spec;
use crate::paragraphs::{
    fill_text, map_paragraphs, map_paragraphs_spec, normalize_fold, reps_view, should_rewrite,
    should_rewrite_spec, text_map, xml_escape, xml_escape_spec, XmlRewrite,
};
use crate::text::{
    chars_of, ends_with, find_from, find_from_exec, lemma_find_from_bounds, lossy_utf8, push_all,
    push_range, push_str, string_of, utf8_bytes, utf8_lossy,
};
use crate::xmlread::{is_last, name_is, name_is_exec, xml_events_of, xml_next, xml_reader, xml_rest, XmlEvent};

verus! {

// ---------------------------------------------------------------------------
// Reading and writing whole archives
// ---------------------------------------------------------------------------
/// The entries of the archive from index `i` on, directories (names ending in
/// `/`) left out; the first error met ends the reading.
pub open spec fn read_from(bytes: Seq<u8>, n: usize, i: int) -> Result<Seq<EntryView>, Seq<char>>
    decreases n - i,
{
    if i < 0 || i >= n {
        Ok(Seq::empty())
    } else {
        match zip_entry_result(bytes, i as usize) {
            Err(m) => Err(m),
            Ok(e) => match read_from(bytes, n, i + 1) {
                Err(m) => Err(m),
                Ok(rest) => Ok(
                    if ends_with(e.0, seq!['/']) {
                        rest
                    } else {
                        seq![e] + rest
                    },
                ),
            },
        }
    }
}

/// The files of the archive `bytes`, in order, or the first error met.
pub open spec fn archive_files(bytes: Seq<u8>) -> Result<Seq<EntryView>, Seq<char>> {
    match zip_count_result(bytes) {
        Err(m) => Err(m),
        Ok(n) => read_from(bytes, n, 0),
    }
}

/// `prefix` put before the entries of `r`.
pub open spec fn prepend(prefix: Seq<EntryView>, r: Result<Seq<EntryView>, Seq<char>>) -> Result<
    Seq<EntryView>,
    Seq<char>,
> {
    match r {
        Err(m) => Err(m),
        Ok(rest) => Ok(prefix + rest),
    }
}

pub open spec fn entries_view(v: Seq<ZipEntry>) -> Seq<EntryView> {
    v.map_values(|e: ZipEntry| e@)
}

/// The files of an archive, directories left out.
pub fn read_entries(bytes: &[u8]) -> (r: Result<Vec<ZipEntry>, AppError>)
    ensures
        archive_files(bytes@) is Err ==> r is Err && is_internal(
            r->Err_0,
            archive_files(bytes@)->Err_0,
        ),
        archive_files(bytes@) is Ok ==> (r matches Ok(v) && entries_view(v@) == archive_files(
            bytes@,
        )->Ok_0),
{
    let n = match zip_entry_count(bytes) {
        Err(m) => {
            return Err(AppError::Internal(m));
        },
        Ok(n) => n,
    };
    let mut out: Vec<ZipEntry> = Vec::new();
    let mut i: usize = 0;
    assert(entries_view(out@) + Seq::empty() =~= Seq::<EntryView>::empty());
    while i < n
        invariant
            i <= n,
            zip_count_result(bytes@) == Ok::<usize, Seq<char>>(n),
            archive_files(bytes@) == prepend(entries_view(out@), read_from(bytes@, n, i as int)),
        decreases n - i,
    {
        let ghost before = entries_view(out@);
        match zip_entry_at(bytes, i) {
            Err(m) => {
                return Err(AppError::Internal(m));
            },
            Ok(e) => {
                let name = chars_of(e.name.as_str());
                let is_dir = name.len() > 0 && name[name.len() - 1] == '/';
                assert(is_dir == ends_with(e.name@, seq!['/'])) by {
                    let nv = e.name@;
                    if nv.len() > 0 {
                        let last = nv.subrange(nv.len() - 1, nv.len() as int);
                        assert(last =~= seq![nv[nv.len() - 1]]);
                        if last == seq!['/'] {
                            assert(last[0] == '/');
                        }
                        if nv[nv.len() - 1] == '/' {
                            assert(last =~= seq!['/']);
                        }
                    }
                }
                if !is_dir {
                    out.push(e);
                    assert(entries_view(out@) =~= before.push(e@));
                }
                proof {
                    match read_from(bytes@, n, i + 1) {
                        Err(m) => {},
                        Ok(rest) => {
                            if !is_dir {
                                assert(before + (seq![e@] + rest) =~= entries_view(out@) + rest);
                            }
                        },
                    }
                }
            },
        }
        i = i + 1;
    }
    assert(entries_view(out@) + Seq::empty() =~= entries_view(out@));
    Ok(out)
}

/// No entry is a directory (its name ends in `/`).
pub open spec fn no_dirs(es: Seq<EntryView>) -> bool {
    forall|k: int| 0 <= k < es.len() ==> !ends_with(#[trigger] es[k].0, seq!['/'])
}

/// Reading entries that are all known, none a directory, gives them back.
proof fn lemma_read_from_known(bytes: Seq<u8>, es: Seq<EntryView>, i: int)
    requires
        0 <= i <= es.len(),
        es.len() <= usize::MAX,
        no_dirs(es),
        forall|k: int| 0 <= k < es.len() ==> (#[trigger] zip_entry_result(bytes, k as usize) matches Ok(
            e,
        ) && e == es[k]),
    ensures
        read_from(bytes, es.len() as usize, i) == Ok::<Seq<EntryView>, Seq<char>>(es.skip(i)),
    decreases es.len() - i,
{
    if i < es.len() {
        lemma_read_from_known(bytes, es, i + 1);
        assert(zip_entry_result(bytes, i as usize) matches Ok(e) && e == es[i]);
        assert(!ends_with(es[i].0, seq!['/']));
        assert(seq![es[i]] + es.skip(i + 1) =~= es.skip(i));
    } else {
        assert(es.skip(i) =~= Seq::<EntryView>::empty());
    }
}

/// What `read_from` gives holds no directory.
proof fn lemma_read_from_no_dirs(bytes: Seq<u8>, n: usize, i: int)
    ensures
        read_from(bytes, n, i) matches Ok(es) ==> no_dirs(es),
    decreases n - i,
{
    if 0 <= i < n {
        lemma_read_from_no_dirs(bytes, n, i + 1);
        if let Ok(e) = zip_entry_result(bytes, i as usize) {
            if let Ok(rest) = read_from(bytes, n, i + 1) {
                if !ends_with(e.0, seq!['/']) {
                    assert forall|k: int| 0 <= k < (seq![e] + rest).len() implies !ends_with(
                        #[trigger] (seq![e] + rest)[k].0,
                        seq!['/'],
                    ) by {
                        if k > 0 {
                            assert((seq![e] + rest)[k] == rest[k - 1]);
                        }
                    }
                }
            }
        }
    }
}

/// The files of an archive are no directories.
pub proof fn lemma_archive_files_no_dirs(bytes: Seq<u8>)
    ensures
        archive_files(bytes) matches Ok(es) ==> no_dirs(es),
{
    if let Ok(n) = zip_count_result(bytes) {
        lemma_read_from_no_dirs(bytes, n, 0);
    }
}

/// An entry name that the format's 16-bit length field can hold: at most
/// 65535 bytes in UTF-8.
pub open spec fn name_fits(name: Seq<char>) -> bool {
    vstd::utf8::encode_utf8(name).len() <= 65535
}

/// Entries that the archive writer takes: each stored (0) or deflated (8),
/// with a name that fits and contents within `entry_size_limit`, and no name
/// used twice.
pub open spec fn writable(es: Seq<EntryView>) -> bool {
    &&& forall|k: int| 0 <= k < es.len() ==> (#[trigger] es[k]).1 == 0 || es[k].1 == 8
    &&& forall|k: int| 0 <= k < es.len() ==> name_fits(#[trigger] es[k].0)
    &&& forall|k: int| 0 <= k < es.len() ==> (#[trigger] es[k]).2.len() <= entry_size_limit()
    &&& forall|j: int, k: int| 0 <= j < k < es.len() ==> #[trigger] es[j].0 != #[trigger] es[k].0
}

/// An archive holding `entries`, in order; read back, it gives them again
/// (where none is a directory). It is written whenever the entries are
/// `writable`; a name too long for the format is refused.
pub fn write_entries(entries: &Vec<ZipEntry>) -> (r: Result<Vec<u8>, AppError>)
    ensures
        r matches Ok(b) ==> b@ == zip_bytes_of(entries_view(entries@)),
        r matches Ok(b) ==> (no_dirs(entries_view(entries@)) ==> (archive_files(b@) matches Ok(es)
            && es == entries_view(entries@))),
        r matches Err(e) ==> e is Internal,
        writable(entries_view(entries@)) ==> r is Ok,
        r matches Ok(b) ==> (forall|k: int|
            0 <= k < entries@.len() && vstd::utf8::valid_utf8(#[trigger] entries_view(entries@)[k].2)
                ==> (zip_text_result(b@, entries_view(entries@)[k].0) matches Ok(Some(t)) && t
                == vstd::utf8::decode_utf8(entries_view(entries@)[k].2))),
        (exists|k: int|
            0 <= k < entries@.len() && !name_fits(#[trigger] entries_view(entries@)[k].0))
            ==> r is Err,
{
    let ghost ev = entries_view(entries@);
    let mut w = zip_writer_new();
    let mut i: usize = 0;
    while i < entries.len()
        invariant
            i <= entries.len(),
            ev == entries_view(entries@),
            zip_written(w) == ev.take(i as int),
            forall|k: int| 0 <= k < i ==> name_fits(#[trigger] ev[k].0),
        decreases entries.len() - i,
    {
        let e = &entries[i];
        assert(ev[i as int] == e@);
        let name_len = e.name.as_str().as_bytes().len();
        assert(name_len == vstd::utf8::encode_utf8(e.name@).len());
        assert(writable(ev) ==> name_fits(ev[i as int].0));
        if name_len > 65535 {
            return Err(AppError::Internal("entry name longer than 65535 bytes".to_string()));
        }
        proof {
            if writable(ev) {
                assert forall|k: int| 0 <= k < zip_written(w).len() implies #[trigger] zip_written(
                    w,
                )[k].0 != e.name@ by {
                    assert(zip_written(w)[k] == ev[k]);
                    assert(ev[k].0 != ev[i as int].0);
                }
                if i > 0 {
                    assert(zip_written(w).last() == ev[i - 1]);
                }
            }
        }
        match zip_start_file(&mut w, e.name.as_str(), e.method) {
            Err(m) => {
                return Err(AppError::Internal(m));
            },
            Ok(()) => {},
        }
        match zip_write_all(&mut w, e.data.as_slice()) {
            Err(m) => {
                return Err(AppError::Internal(m));
            },
            Ok(()) => {},
        }
        assert(Seq::<u8>::empty() + e.data@ =~= e.data@);
        assert(zip_written(w) =~= ev.take(i + 1));
        i = i + 1;
    }
    assert(ev.take(i as int) =~= ev);
    proof {
        if writable(ev) && ev.len() > 0 {
            assert(zip_written(w).last() == ev[ev.len() - 1]);
        }
    }
    match zip_finish(w) {
        Err(m) => Err(AppError::Internal(m)),
        Ok(b) => {
            proof {
                if no_dirs(ev) {
                    assert(zip_count_result(b@) matches Ok(n) && n == ev.len());
                    lemma_read_from_known(b@, ev, 0);
                    assert(ev.skip(0) =~= ev);
                }
            }
            Ok(b)
        },
    }
}

// ---------------------------------------------------------------------------
// Rewriting the text of a package
// ---------------------------------------------------------------------------
/// An entry after rewriting: the XML parts under `word/` get each paragraph's
/// text `t` changed to `f(t)`; every other entry is kept.
pub open spec fn rewrite_entry(e: EntryView, f: spec_fn(Seq<char>) -> Seq<char>) -> EntryView {
    if should_rewrite_spec(e.0) {
        (e.0, e.1, vstd::utf8::encode_utf8(map_paragraphs_spec(lossy_utf8(e.2), f)))
    } else {
        e
    }
}

/// The archive `bytes` with every file rewritten by `rewrite_entry`.
pub fn rewrite_zip(bytes: &[u8], mode: &XmlRewrite) -> (r: Result<Vec<u8>, AppError>)
    ensures
        archive_files(bytes@) is Err ==> r is Err && is_internal(
            r->Err_0,
            archive_files(bytes@)->Err_0,
        ),
        r matches Ok(out) ==> archive_files(bytes@) is Ok && out@ == zip_bytes_of(
            archive_files(bytes@)->Ok_0.map_values(|e: EntryView| rewrite_entry(e, text_map(*mode))),
        ),
        r matches Ok(out) ==> (archive_files(out@) matches Ok(es) && es == archive_files(
            bytes@,
        )->Ok_0.map_values(|e: EntryView| rewrite_entry(e, text_map(*mode)))),
        r matches Err(e) ==> e is Internal,
        archive_files(bytes@) matches Ok(fs) && writable(
            fs.map_values(|e: EntryView| rewrite_entry(e, text_map(*mode))),
        ) ==> r is Ok,
{
    let entries = read_entries(bytes)?;
    let ghost files = archive_files(bytes@)->Ok_0;
    let mut out: Vec<ZipEntry> = Vec::new();
    let mut i: usize = 0;
    while i < entries.len()
        invariant
            i <= entries.len(),
            entries_view(entries@) == files,
            entries_view(out@) == files.take(i as int).map_values(
                |e: EntryView| rewrite_entry(e, text_map(*mode)),
            ),
        decreases entries.len() - i,
    {
        let e = &entries[i];
        let data = if should_rewrite(e.name.as_str()) {
            let xml = utf8_lossy(e.data.as_slice());
            let rewritten = map_paragraphs(&chars_of(xml.as_str()), mode);
            utf8_bytes(&string_of(&rewritten))
        } else {
            vstd::slice::slice_to_vec(e.data.as_slice())
        };
        let ghost before = entries_view(out@);
        let ne = ZipEntry { name: e.name.clone(), method: e.method, data };
        assert(files[i as int] == e@);
        assert(ne@ == rewrite_entry(files[i as int], text_map(*mode)));
        out.push(ne);
        assert(entries_view(out@) =~= before.push(ne@));
        assert(entries_view(out@) =~= files.take(i + 1).map_values(
            |e: EntryView| rewrite_entry(e, text_map(*mode)),
        ));
        i = i + 1;
    }
    assert(files.take(i as int) =~= files);
    proof {
        lemma_archive_files_no_dirs(bytes@);
        let mapped = files.map_values(|e: EntryView| rewrite_entry(e, text_map(*mode)));
        assert forall|k: int| 0 <= k < mapped.len() implies !ends_with(#[trigger] mapped[k].0, seq!['/']) by {
            assert(mapped[k].0 == files[k].0);
        }
    }
    write_entries(&out)
}

/// The values given for a fill, as `(key, text)`.
pub open spec fn value_texts(values: Seq<(String, FieldValue)>) -> Seq<(Seq<char>, Seq<char>)> {
    values.map_values(|p: (String, FieldValue)| (p.0@, value_text_spec(p.1)))
}

/// Fills a `.docx`: in each paragraph of its XML parts, every `{{key}}` is
/// replaced by the text of the value given for `key` (pair by pair, in order),
/// also where Word split the placeholder over several runs.
pub fn fill_docx(bytes: &[u8], values: &Vec<(String, FieldValue)>) -> (r: Result<
    Vec<u8>,
    AppError,
>)
    ensures
        archive_files(bytes@) is Err ==> r is Err && is_internal(
            r->Err_0,
            archive_files(bytes@)->Err_0,
        ),
        r matches Ok(out) ==> archive_files(bytes@) is Ok && out@ == zip_bytes_of(
            archive_files(bytes@)->Ok_0.map_values(
                |e: EntryView|
                    rewrite_entry(e, |t: Seq<char>| fill_text(t, value_texts(values@))),
            ),
        ),
        r matches Ok(out) ==> (archive_files(out@) matches Ok(es) && es == archive_files(
            bytes@,
        )->Ok_0.map_values(
            |e: EntryView| rewrite_entry(e, |t: Seq<char>| fill_text(t, value_texts(values@))),
        )),
        r matches Err(e) ==> e is Internal,
        archive_files(bytes@) matches Ok(fs) && writable(
            fs.map_values(
                |e: EntryView| rewrite_entry(e, |t: Seq<char>| fill_text(t, value_texts(values@))),
            ),
        ) ==> r is Ok,
{
    let mut reps: Vec<(String, String)> = Vec::new();
    let mut i: usize = 0;
    while i < values.len()
        invariant
            i <= values.len(),
            reps_view(reps@) == value_texts(values@).take(i as int),
        decreases values.len() - i,
    {
        let ghost before = reps_view(reps@);
        let pair = (values[i].0.clone(), value_text(&values[i].1));
        assert((pair.0@, pair.1@) == value_texts(values@)[i as int]);
        reps.push(pair);
        assert(reps_view(reps@) =~= before.push((pair.0@, pair.1@)));
        assert(reps_view(reps@) =~= value_texts(values@).take(i + 1));
        i = i + 1;
    }
    assert(value_texts(values@).take(i as int) =~= value_texts(values@));
    let mode = XmlRewrite::Fill(reps);
    assert(text_map(mode) =~= (|t: Seq<char>| fill_text(t, value_texts(values@))));
    rewrite_zip(bytes, &mode)
}

/// Rewrites every placeholder of a `.docx` to `{{key}}` with its own key, so
/// that a later fill finds it.
pub fn normalize_docx(bytes: &[u8]) -> (r: Result<Vec<u8>, AppError>)
    ensures
        archive_files(bytes@) is Err ==> r is Err && is_internal(
            r->Err_0,
            archive_files(bytes@)->Err_0,
        ),
        r matches Ok(out) ==> archive_files(bytes@) is Ok && out@ == zip_bytes_of(
            archive_files(bytes@)->Ok_0.map_values(
                |e: EntryView|
                    rewrite_entry(e, |t: Seq<char>| normalize_fold(t, marks_spec(t))),
            ),
        ),
        r matches Ok(out) ==> (archive_files(out@) matches Ok(es) && es == archive_files(
            bytes@,
        )->Ok_0.map_values(
            |e: EntryView| rewrite_entry(e, |t: Seq<char>| normalize_fold(t, marks_spec(t))),
        )),
        r matches Err(e) ==> e is Internal,
        archive_files(bytes@) matches Ok(fs) && writable(
            fs.map_values(
                |e: EntryView| rewrite_entry(e, |t: Seq<char>| normalize_fold(t, marks_spec(t))),
            ),
        ) ==> r is Ok,
{
    assert(text_map(XmlRewrite::Normalize) =~= (|t: Seq<char>| normalize_fold(t, marks_spec(t))));
    rewrite_zip(bytes, &XmlRewrite::Normalize)
}

// ---------------------------------------------------------------------------
// New packages
// ---------------------------------------------------------------------------
/// The package's content types part.
pub open spec fn content_types_xml() -> Seq<char> {
    "<?xml version=\"1.0\" encoding=\"UTF-8\" standalone=\"yes\"?><Types xmlns=\"http://schemas.openxmlformats.org/package/2006/content-types\"><Default Extension=\"rels\" ContentType=\"application/vnd.openxmlformats-package.relationships+xml\"/><Default Extension=\"xml\" ContentType=\"application/xml\"/><Override PartName=\"/word/document.xml\" ContentType=\"application/vnd.openxmlformats-officedocument.wordprocessingml.document.main+xml\"/></Types>"@
}

/// The package's relationships part.
pub open spec fn package_rels_xml() -> Seq<char> {
    "<?xml version=\"1.0\" encoding=\"UTF-8\" standalone=\"yes\"?><Relationships xmlns=\"http://schemas.openxmlformats.org/package/2006/relationships\"><Relationship Id=\"rId1\" Type=\"http://schemas.openxmlformats.org/officeDocument/2006/relationships/officeDocument\" Target=\"word/document.xml\"/></Relationships>"@
}

/// The number of the Deflate compression method.
pub open spec fn deflated() -> u16 {
    8
}

/// The three entries of a minimal package whose main part is `document`.
pub open spec fn package_entries(document: Seq<char>) -> Seq<EntryView> {
    seq![
        ("[Content_Types].xml"@, deflated(), vstd::utf8::encode_utf8(content_types_xml())),
        ("_rels/.rels"@, deflated(), vstd::utf8::encode_utf8(package_rels_xml())),
        ("word/document.xml"@, deflated(), vstd::utf8::encode_utf8(document)),
    ]
}

fn text_entry(name: &str, text: &String) -> (e: ZipEntry)
    ensures
        e@ == (name@, deflated(), vstd::utf8::encode_utf8(text@)),
{
    ZipEntry { name: name.to_owned(), method: 8, data: utf8_bytes(text) }
}

/// UTF-8 takes at most four bytes a character.
pub proof fn lemma_encode_utf8_len(s: Seq<char>)
    ensures
        vstd::utf8::encode_utf8(s).len() <= 4 * s.len(),
    decreases s.len(),
{
    if s.len() > 0 {
        lemma_encode_utf8_len(s.drop_first());
        assert(vstd::utf8::encode_scalar(s[0] as u32).len() <= 4);
    }
}

/// A main part small enough for the archive writer.
pub open spec fn package_fits(document: Seq<char>) -> bool {
    vstd::utf8::encode_utf8(document).len() <= entry_size_limit()
}

/// A minimal `.docx` whose main part is `document`, every part deflated; it
/// is written whenever the main part fits.
pub fn docx_package(document: &Vec<char>) -> (r: Result<Vec<u8>, AppError>)
    ensures
        r matches Ok(b) ==> b@ == zip_bytes_of(package_entries(document@)),
        r matches Ok(b) ==> (archive_files(b@) matches Ok(es) && es == package_entries(document@)),
        r matches Ok(b) ==> (zip_text_result(b@, "word/document.xml"@) matches Ok(Some(t)) && t
            == document@),
        r matches Err(e) ==> e is Internal,
        package_fits(document@) ==> r is Ok,
{
    let types = "<?xml version=\"1.0\" encoding=\"UTF-8\" standalone=\"yes\"?><Types xmlns=\"http://schemas.openxmlformats.org/package/2006/content-types\"><Default Extension=\"rels\" ContentType=\"application/vnd.openxmlformats-package.relationships+xml\"/><Default Extension=\"xml\" ContentType=\"application/xml\"/><Override PartName=\"/word/document.xml\" ContentType=\"application/vnd.openxmlformats-officedocument.wordprocessingml.document.main+xml\"/></Types>".to_owned();
    let rels = "<?xml version=\"1.0\" encoding=\"UTF-8\" standalone=\"yes\"?><Relationships xmlns=\"http://schemas.openxmlformats.org/package/2006/relationships\"><Relationship Id=\"rId1\" Type=\"http://schemas.openxmlformats.org/officeDocument/2006/relationships/officeDocument\" Target=\"word/document.xml\"/></Relationships>".to_owned();
    let mut entries: Vec<ZipEntry> = Vec::new();
    entries.push(text_entry("[Content_Types].xml", &types));
    entries.push(text_entry("_rels/.rels", &rels));
    entries.push(text_entry("word/document.xml", &string_of(document)));
    assert(entries_view(entries@) =~= package_entries(document@));
    proof {
        reveal_strlit("[Content_Types].xml");
        reveal_strlit("_rels/.rels");
        reveal_strlit("word/document.xml");
        reveal_strlit("<?xml version=\"1.0\" encoding=\"UTF-8\" standalone=\"yes\"?><Types xmlns=\"http://schemas.openxmlformats.org/package/2006/content-types\"><Default Extension=\"rels\" ContentType=\"application/vnd.openxmlformats-package.relationships+xml\"/><Default Extension=\"xml\" ContentType=\"application/xml\"/><Override PartName=\"/word/document.xml\" ContentType=\"application/vnd.openxmlformats-officedocument.wordprocessingml.document.main+xml\"/></Types>");
        reveal_strlit("<?xml version=\"1.0\" encoding=\"UTF-8\" standalone=\"yes\"?><Relationships xmlns=\"http://schemas.openxmlformats.org/package/2006/relationships\"><Relationship Id=\"rId1\" Type=\"http://schemas.openxmlformats.org/officeDocument/2006/relationships/officeDocument\" Target=\"word/document.xml\"/></Relationships>");
        let es = package_entries(document@);
        assert forall|k: int| 0 <= k < es.len() implies !ends_with(#[trigger] es[k].0, seq!['/']) by {
            let n = es[k].0;
            assert(n.subrange(n.len() - 1, n.len() as int)[0] == n[n.len() - 1]);
        }
        vstd::utf8::encode_utf8_valid_utf8(document@);
        vstd::utf8::encode_utf8_decode_utf8(document@);
        assert(es[2].0 == "word/document.xml"@);
        if package_fits(document@) {
            lemma_encode_utf8_len(content_types_xml());
            lemma_encode_utf8_len(package_rels_xml());
            lemma_encode_utf8_len(es[0].0);
            lemma_encode_utf8_len(es[1].0);
            lemma_encode_utf8_len(es[2].0);
            assert(es[0].0[0] != es[1].0[0] && es[0].0[0] != es[2].0[0] && es[1].0[0] != es[2].0[0]);
            assert(writable(es));
        }
    }
    write_entries(&entries)
}

/// The lines of `s`, split at each `\n` (`str::split('\n')`).
pub open spec fn split_lines(s: Seq<char>) -> Seq<Seq<char>>
    decreases s.len(),
{
    match find_from(s, seq!['\n'], 0) {
        Some(i) => if 0 <= i < s.len() {
            seq![s.take(i)] + split_lines(s.skip(i + 1))
        } else {
            seq![s]
        },
        None => seq![s],
    }
}

/// Each line as a paragraph of one run, its text escaped.
pub open spec fn text_paragraphs(lines: Seq<Seq<char>>) -> Seq<char>
    decreases lines.len(),
{
    if lines.len() == 0 {
        Seq::empty()
    } else {
        "<w:p><w:r><w:t xml:space=\"preserve\">"@ + xml_escape_spec(lines[0]) + "</w:t></w:r></w:p>"@
            + text_paragraphs(lines.drop_first())
    }
}

/// The main part of a `.docx` made from plain text: one paragraph per line.
pub open spec fn text_document(text: Seq<char>) -> Seq<char> {
    let paras = text_paragraphs(split_lines(text));
    let body = if paras.len() == 0 {
        "<w:p/>"@
    } else {
        paras
    };
    "<?xml version=\"1.0\" encoding=\"UTF-8\" standalone=\"yes\"?><w:document xmlns:w=\"http://schemas.openxmlformats.org/wordprocessingml/2006/main\"><w:body>"@
        + body + "</w:body></w:document>"@
}

/// A `.docx` holding `text`, one paragraph per line.
pub fn docx_from_text(text: &str) -> (r: Result<Vec<u8>, AppError>)
    ensures
        r matches Ok(b) ==> b@ == zip_bytes_of(package_entries(text_document(text@))),
        r matches Ok(b) ==> (archive_files(b@) matches Ok(es) && es == package_entries(
            text_document(text@),
        )),
        r matches Ok(b) ==> (zip_text_result(b@, "word/document.xml"@) matches Ok(Some(d)) && d
            == text_document(text@)),
        r matches Err(e) ==> e is Internal,
        package_fits(text_document(text@)) ==> r is Ok,
{
    let t = chars_of(text);
    let nl: Vec<char> = vec!['\n'];
    assert(nl@ =~= seq!['\n']);
    let mut paras: Vec<char> = Vec::new();
    let mut pos: usize = 0;
    assert(t@.skip(0) =~= t@);
    loop
        invariant_except_break
            nl@ == seq!['\n'],
            pos <= t.len(),
            text_paragraphs(split_lines(t@)) == paras@ + text_paragraphs(
                split_lines(t@.skip(pos as int)),
            ),
        ensures
            paras@ == text_paragraphs(split_lines(t@)),
        decreases t.len() - pos,
    {
        let ghost rest = t@.skip(pos as int);
        let found = find_from_exec(&t, &nl, pos);
        proof {
            lemma_find_from_bounds(t@, nl@, pos as int);
            lemma_find_from_bounds(rest, nl@, 0);
        }
        let end = match found {
            Some(e) => e,
            None => t.len(),
        };
        proof {
            match find_from(rest, seq!['\n'], 0) {
                Some(k) => {
                    assert(rest.subrange(k, k + 1) =~= t@.subrange(pos + k, pos + k + 1));
                    if found is None {
                        assert(crate::text::matches_at(t@, pos + k, nl@));
                    } else {
                        let e = found->0;
                        assert(rest.subrange(e - pos, e - pos + 1) =~= t@.subrange(
                            e as int,
                            e + 1,
                        ));
                        assert(crate::text::matches_at(rest, e - pos, nl@));
                        if k < e - pos {
                            assert(crate::text::matches_at(t@, pos + k, nl@));
                        }
                    }
                },
                None => {
                    if found is Some {
                        let e = found->0;
                        assert(rest.subrange(e - pos, e - pos + 1) =~= t@.subrange(
                            e as int,
                            e + 1,
                        ));
                        assert(crate::text::matches_at(rest, e - pos, nl@));
                    }
                },
            }
        }
        let mut line: Vec<char> = Vec::new();
        push_range(&mut line, &t, pos, end);
        let ghost before = paras@;
        push_str(&mut paras, "<w:p><w:r><w:t xml:space=\"preserve\">");
        let esc_line = xml_escape(&line);
        push_all(&mut paras, &esc_line);
        push_str(&mut paras, "</w:t></w:r></w:p>");
        let ghost piece = "<w:p><w:r><w:t xml:space=\"preserve\">"@ + xml_escape_spec(line@)
            + "</w:t></w:r></w:p>"@;
        assert(paras@ =~= before + piece);
        match found {
            None => {
                assert(line@ =~= rest);
                assert(split_lines(rest) == seq![rest]);
                assert(seq![rest].drop_first() =~= Seq::<Seq<char>>::empty());
                assert(text_paragraphs(Seq::<Seq<char>>::empty()) == Seq::<char>::empty());
                assert(text_paragraphs(seq![rest]) =~= piece);
                assert(paras@ == text_paragraphs(split_lines(t@)));
                break;
            },
            Some(e) => {
                assert(line@ =~= rest.take(e - pos));
                assert(rest.skip(e - pos + 1) =~= t@.skip(e + 1));
                let ghost sl = split_lines(rest);
                assert(sl == seq![rest.take(e - pos)] + split_lines(t@.skip(e + 1)));
                assert(sl[0] == line@);
                assert(sl.drop_first() =~= split_lines(t@.skip(e + 1)));
                pos = e + 1;
            },
        }
    }
    let mut document: Vec<char> = chars_of(
        "<?xml version=\"1.0\" encoding=\"UTF-8\" standalone=\"yes\"?><w:document xmlns:w=\"http://schemas.openxmlformats.org/wordprocessingml/2006/main\"><w:body>",
    );
    if paras.len() == 0 {
        push_str(&mut document, "<w:p/>");
    } else {
        push_all(&mut document, &paras);
    }
    push_str(&mut document, "</w:body></w:document>");
    assert(document@ =~= text_document(text@));
    docx_package(&document)
}

// ---------------------------------------------------------------------------
// The plain text of a package
// ---------------------------------------------------------------------------
/// What a start or empty tag does to the text being gathered: a paragraph
/// starts a new line (but the first), a tab and a break give `\t` and `\n`, and
/// a text element opens.
pub open spec fn text_tag_step(name: Seq<u8>, out: Seq<char>, in_t: bool, first_p: bool) -> (
    Seq<char>,
    bool,
    bool,
) {
    if name_is(name, "p"@) {
        (
            if !first_p {
                out.push('\n')
            } else {
                out
            },
            in_t,
            false,
        )
    } else if name_is(name, "tab"@) {
        (out.push('\t'), in_t, first_p)
    } else if name_is(name, "br"@) || name_is(name, "cr"@) {
        (out.push('\n'), in_t, first_p)
    } else if name_is(name, "t"@) {
        (out, true, first_p)
    } else {
        (out, in_t, first_p)
    }
}

/// The text gathered from the events `evs`: text inside text elements, with
/// paragraphs, tabs and breaks as above; reading stops at the end or an error.
pub open spec fn doc_text_fold(evs: Seq<XmlEvent>, out: Seq<char>, in_t: bool, first_p: bool) -> Seq<
    char,
>
    decreases evs.len(),
{
    if evs.len() == 0 {
        out
    } else {
        match evs[0] {
            XmlEvent::Start(t) => {
                let st = text_tag_step(t.name@, out, in_t, first_p);
                doc_text_fold(evs.drop_first(), st.0, st.1, st.2)
            },
            XmlEvent::Empty(t) => {
                let st = text_tag_step(t.name@, out, in_t, first_p);
                doc_text_fold(evs.drop_first(), st.0, st.1, st.2)
            },
            XmlEvent::End(n) => doc_text_fold(
                evs.drop_first(),
                out,
                if name_is(n@, "t"@) {
                    false
                } else {
                    in_t
                },
                first_p,
            ),
            XmlEvent::Text(u) => doc_text_fold(
                evs.drop_first(),
                if in_t && u is Some {
                    out + u->0@
                } else {
                    out
                },
                in_t,
                first_p,
            ),
            XmlEvent::Eof => out,
            XmlEvent::Other => doc_text_fold(evs.drop_first(), out, in_t, first_p),
        }
    }
}

/// The plain text of a document's main part.
pub open spec fn document_text_spec(xml: Seq<char>) -> Seq<char> {
    doc_text_fold(xml_events_of(xml), Seq::empty(), false, true)
}

pub fn text_from_document_xml(xml: &str) -> (out: Vec<char>)
    ensures
        out@ == document_text_spec(xml@),
{
    let mut reader = xml_reader(xml);
    let mut out: Vec<char> = Vec::new();
    let mut in_t = false;
    let mut first_p = true;
    loop
        invariant
            xml_rest(reader).len() > 0,
            is_last(xml_rest(reader).last()),
            forall|i: int|
                0 <= i < xml_rest(reader).len() - 1 ==> !is_last(#[trigger] xml_rest(reader)[i]),
            document_text_spec(xml@) == doc_text_fold(xml_rest(reader), out@, in_t, first_p),
        decreases xml_rest(reader).len(),
    {
        let ghost rest = xml_rest(reader);
        let ev = xml_next(&mut reader);
        proof {
            if rest.len() > 1 {
                assert(!is_last(rest[0]));
                assert(xml_rest(reader).last() == rest.last());
                assert forall|i: int| 0 <= i < xml_rest(reader).len() - 1 implies !is_last(
                    #[trigger] xml_rest(reader)[i],
                ) by {
                    assert(xml_rest(reader)[i] == rest[i + 1]);
                }
            }
        }
        match ev {
            XmlEvent::Start(t) => {
                tag_step_exec(&t.name, &mut out, &mut in_t, &mut first_p);
            },
            XmlEvent::Empty(t) => {
                tag_step_exec(&t.name, &mut out, &mut in_t, &mut first_p);
            },
            XmlEvent::End(n) => {
                if name_is_exec(&n, "t") {
                    in_t = false;
                }
            },
            XmlEvent::Text(u) => {
                if in_t {
                    if let Some(s) = u {
                        push_str(&mut out, s.as_str());
                    }
                }
            },
            XmlEvent::Eof => {
                return out;
            },
            XmlEvent::Other => {},
        }
        assert(rest.len() > 1);
    }
}

fn tag_step_exec(name: &Vec<u8>, out: &mut Vec<char>, in_t: &mut bool, first_p: &mut bool)
    ensures
        (final(out)@, *final(in_t), *final(first_p)) == text_tag_step(
            name@,
            old(out)@,
            *old(in_t),
            *old(first_p),
        ),
{
    if name_is_exec(name, "p") {
        if !*first_p {
            out.push('\n');
        }
        *first_p = false;
    } else if name_is_exec(name, "tab") {
        out.push('\t');
    } else if name_is_exec(name, "br") || name_is_exec(name, "cr") {
        out.push('\n');
    } else if name_is_exec(name, "t") {
        *in_t = true;
    }
}

/// The plain text of a `.docx`: `Err` with the archive's error where it cannot
/// be read, a bad request where it has no `word/document.xml`.
pub fn docx_text(bytes: &[u8]) -> (r: Result<String, AppError>)
    ensures
        zip_text_result(bytes@, "word/document.xml"@) is Err ==> r is Err && is_internal(
            r->Err_0,
            zip_text_result(bytes@, "word/document.xml"@)->Err_0,
        ),
        zip_text_result(bytes@, "word/document.xml"@) matches Ok(None) ==> r is Err && is_bad(
            r->Err_0,
            "в файле нет word/document.xml — это не обычный .docx"@,
        ),
        zip_text_result(bytes@, "word/document.xml"@) matches Ok(Some(xml)) ==> (r matches Ok(t)
            && t@ == document_text_spec(xml)),
{
    match zip_entry_text(bytes, "word/document.xml") {
        Err(m) => Err(AppError::Internal(m)),
        Ok(None) => Err(AppError::bad("в файле нет word/document.xml — это не обычный .docx")),
        Ok(Some(xml)) => Ok(string_of(&text_from_document_xml(xml.as_str()))),
    }
}

} // verus!
