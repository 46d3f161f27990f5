//! ZIP archives (a `.docx` is one), read and written through the `zip` crate.
use vstd::prelude::*;

use std::io::Cursor;
use zip::ZipWriter;

verus! {

/// A `zip::ZipWriter` over an in-memory buffer. Verus refuses a declaration of
/// `ZipWriter` (its `Write + Seek` bound), so the writer is held here, hidden.
#[verifier::external_body]
pub struct ArchiveWriter {
    inner: ZipWriter<Cursor<Vec<u8>>>,
}

/// One file of an archive: its name, the number of its compression method, and
/// its contents.
pub struct ZipEntry {
    pub name: String,
    pub method: u16,
    pub data: Vec<u8>,
}

/// An entry as plain values.
pub type EntryView = (Seq<char>, u16, Seq<u8>);

impl View for ZipEntry {
    type V = EntryView;

    open spec fn view(&self) -> EntryView {
        (self.name@, self.method, self.data@)
    }
}

/// What opening `bytes` as an archive gives: its number of entries, or the error
/// text.
pub uninterp spec fn zip_count_result(bytes: Seq<u8>) -> Result<usize, Seq<char>>;

/// What reading entry `i` of the archive `bytes` gives.
pub uninterp spec fn zip_entry_result(bytes: Seq<u8>, i: usize) -> Result<EntryView, Seq<char>>;

/// What reading the entry called `name` of the archive `bytes` as UTF-8 text
/// gives: `Ok(None)` where the entry cannot be had by that name (the archive has
/// none, or opening it fails).
pub uninterp spec fn zip_text_result(bytes: Seq<u8>, name: Seq<char>) -> Result<
    Option<Seq<char>>,
    Seq<char>,
>;

/// Entries started and written so far on a writer, in order, each with the
/// bytes written to it.
pub uninterp spec fn zip_written(w: ArchiveWriter) -> Seq<EntryView>;

/// Whether a writer has an entry open: one started and not yet finished, to
/// which `Write` adds bytes.
pub uninterp spec fn zip_entry_open(w: ArchiveWriter) -> bool;

/// The largest entry, in bytes, for which the writer's success is stated here:
/// the writer refuses an entry of more than `u32::MAX` bytes, before or after
/// compression, unless it was started as a large file, and Deflate never doubles
/// its input.
pub open spec fn entry_size_limit() -> nat {
    0x7FFF_FFFF
}

/// The archive bytes that a writer produces for the given entries. The crate is
/// built without its `time` feature, so no clock goes into them: they are a
/// function of the entries.
pub uninterp spec fn zip_bytes_of(entries: Seq<EntryView>) -> Seq<u8>;

/// Opens `bytes` with `zip::ZipArchive::new` and gives its number of entries
/// (`ZipArchive::len`), or the error's text. The result is only named.
#[verifier::external_body]
pub(crate) fn zip_entry_count(bytes: &[u8]) -> (r: Result<usize, String>)
    ensures
        r is Ok <==> zip_count_result(bytes@) is Ok,
        r matches Ok(n) ==> zip_count_result(bytes@)->Ok_0 == n,
        r matches Err(m) ==> zip_count_result(bytes@)->Err_0 == m@,
{
    match zip::ZipArchive::new(Cursor::new(bytes)) {
        Ok(archive) => Ok(archive.len()),
        Err(e) => Err(e.to_string()),
    }
}

/// Reads entry `i` of the archive `bytes` (`ZipArchive::by_index`, then the
/// entry's name, compression method and contents). The result is only named.
#[verifier::external_body]
#[allow(deprecated)]
pub(crate) fn zip_entry_at(bytes: &[u8], i: usize) -> (r: Result<ZipEntry, String>)
    ensures
        r is Ok <==> zip_entry_result(bytes@, i) is Ok,
        r matches Ok(e) ==> zip_entry_result(bytes@, i)->Ok_0 == e@,
        r matches Err(m) ==> zip_entry_result(bytes@, i)->Err_0 == m@,
{
    let mut archive = zip::ZipArchive::new(Cursor::new(bytes)).map_err(|e| e.to_string())?;
    let mut file = archive.by_index(i).map_err(|e| e.to_string())?;
    let name = file.name().to_string();
    let method = file.compression().to_u16();
    let mut data = Vec::new();
    std::io::Read::read_to_end(&mut file, &mut data).map_err(|e| e.to_string())?;
    Ok(ZipEntry { name, method, data })
}

/// Reads the entry called `name` of the archive `bytes` as UTF-8 text
/// (`ZipArchive::by_name`, then `read_to_string`); `Ok(None)` where `by_name`
/// fails. The result is only named.
#[verifier::external_body]
pub(crate) fn zip_entry_text(bytes: &[u8], name: &str) -> (r: Result<Option<String>, String>)
    ensures
        r is Ok <==> zip_text_result(bytes@, name@) is Ok,
        r matches Ok(Some(t)) ==> zip_text_result(bytes@, name@)->Ok_0 == Some(t@),
        r matches Ok(None) ==> zip_text_result(bytes@, name@)->Ok_0 is None,
        r matches Err(m) ==> zip_text_result(bytes@, name@)->Err_0 == m@,
{
    let mut archive = zip::ZipArchive::new(Cursor::new(bytes)).map_err(|e| e.to_string())?;
    let Ok(mut file) = archive.by_name(name) else { return Ok(None) };
    let mut text = String::new();
    std::io::Read::read_to_string(&mut file, &mut text).map_err(|e| e.to_string())?;
    Ok(Some(text))
}

/// A new `zip::ZipWriter` over an empty in-memory buffer; nothing is written yet.
#[verifier::external_body]
pub(crate) fn zip_writer_new() -> (w: ArchiveWriter)
    ensures
        zip_written(w) == Seq::<EntryView>::empty(),
        !zip_entry_open(w),
{
    ArchiveWriter { inner: ZipWriter::new(Cursor::new(Vec::new())) }
}

/// `ZipWriter::start_file` with the given compression method and otherwise
/// default options. The entry being written, if any, is finished first. On
/// success a new, empty entry called `name` is open. It succeeds where the
/// method is Stored (0) or Deflated (8), no entry of the writer has that name
/// (the writer refuses a duplicate), and the entry before it is small enough to
/// finish. A name of more than 65535 bytes makes the crate panic (its length
/// field is a `u16`), so it is left out.
#[verifier::external_body]
#[allow(deprecated)]
pub(crate) fn zip_start_file(w: &mut ArchiveWriter, name: &str, method: u16) -> (r: Result<
    (),
    String,
>)
    requires
        name.len() <= 65535,
    ensures
        r is Ok ==> zip_written(*final(w)) == zip_written(*old(w)).push(
            (name@, method, Seq::<u8>::empty()),
        ),
        r is Ok ==> zip_entry_open(*final(w)),
        (method == 0 || method == 8) && (forall|k: int|
            0 <= k < zip_written(*old(w)).len() ==> #[trigger] zip_written(*old(w))[k].0 != name@)
            && (zip_written(*old(w)).len() > 0 ==> zip_written(*old(w)).last().2.len()
            <= entry_size_limit()) ==> r is Ok,
{
    let opts = zip::write::SimpleFileOptions::default().compression_method(
        zip::CompressionMethod::from_u16(method),
    );
    w.inner.start_file(name, opts).map_err(|e| e.to_string())
}

/// `Write::write_all` on the writer: on success `data` is added to the last
/// entry started. The writer's `write` fails where no entry is open, and
/// `write_all` makes no call for empty `data`. It succeeds where an entry is
/// open and that entry stays within `entry_size_limit`.
#[verifier::external_body]
pub(crate) fn zip_write_all(w: &mut ArchiveWriter, data: &[u8]) -> (r: Result<(), String>)
    requires
        zip_written(*old(w)).len() > 0,
    ensures
        r is Ok ==> zip_written(*final(w)) == zip_written(*old(w)).update(
            zip_written(*old(w)).len() - 1,
            (
                zip_written(*old(w)).last().0,
                zip_written(*old(w)).last().1,
                zip_written(*old(w)).last().2 + data@,
            ),
        ),
        r is Ok ==> zip_entry_open(*final(w)) == zip_entry_open(*old(w)),
        zip_entry_open(*old(w)) && zip_written(*old(w)).last().2.len() + data@.len()
            <= entry_size_limit() ==> r is Ok,
{
    std::io::Write::write_all(&mut w.inner, data).map_err(|e| e.to_string())
}

/// `ZipWriter::finish`: the bytes of the archive holding the entries written.
/// What the crate's reader gives back of them, as its documentation shows a
/// written archive read back: as many entries, each with the name, compression
/// method and contents it was written with; and an entry whose contents are
/// UTF-8, read by its name as text (`by_name`, `read_to_string`), gives those
/// contents, the writer having refused a name used twice. (A write with a
/// method the writer cannot use, or a name used twice, fails before this point.) Writing into
/// memory, it fails only where the last entry cannot be finished, which
/// `entry_size_limit` rules out.
#[verifier::external_body]
pub(crate) fn zip_finish(w: ArchiveWriter) -> (r: Result<Vec<u8>, String>)
    ensures
        (zip_written(w).len() > 0 ==> zip_written(w).last().2.len() <= entry_size_limit())
            ==> r is Ok,
        r matches Ok(b) ==> b@ == zip_bytes_of(zip_written(w)),
        r matches Ok(b) ==> (zip_count_result(b@) matches Ok(n) && n == zip_written(w).len()),
        r matches Ok(b) ==> (forall|i: int|
            0 <= i < zip_written(w).len() ==> (#[trigger] zip_entry_result(b@, i as usize) matches Ok(
                e,
            ) && e == zip_written(w)[i])),
        r matches Ok(b) ==> (forall|i: int|
            0 <= i < zip_written(w).len() && vstd::utf8::valid_utf8(#[trigger] zip_written(w)[i].2)
                ==> (zip_text_result(b@, zip_written(w)[i].0) matches Ok(Some(t)) && t
                == vstd::utf8::decode_utf8(zip_written(w)[i].2))),
{
    match w.inner.finish() {
        Ok(cursor) => Ok(cursor.into_inner()),
        Err(e) => Err(e.to_string()),
    }
}

} // verus!
