//! Writing and reading ZIP archives in memory: the calls into the `zip` crate, with
//! what the library relies on of each.
use vstd::prelude::*;
use vstd::utf8::decode_utf8;
use vstd::utf8::valid_utf8;
use std::io::Cursor;
use std::io::Read;
use std::io::Write;
use zip::ZipArchive;
use zip::ZipWriter;

verus! {

#[verifier::external_type_specification]
#[verifier::external_body]
#[verifier::reject_recursive_types(T)]
pub struct ExCursor<T>(Cursor<T>);

/// An archive being written into memory. (Verus does not take a declaration of
/// `ZipWriter`, whose parameter is bounded by std's `Write + Seek`; the writer is held
/// here instead, hidden from Verus.)
#[verifier::external_body]
pub struct ArchiveWriter {
    inner: ZipWriter<Cursor<Vec<u8>>>,
}

#[verifier::external_type_specification]
#[verifier::external_body]
#[verifier::reject_recursive_types(R)]
pub struct ExZipArchive<R>(ZipArchive<R>);

/// The entries written so far to an in-memory archive, in order: the name given to
/// `start_file` and the bytes written after it.
pub uninterp spec fn zip_entries(w: ArchiveWriter) -> Seq<(Seq<char>, Seq<u8>)>;

/// Whether an entry has been started and can take bytes (the writer's file is open).
pub uninterp spec fn zip_file_open(w: ArchiveWriter) -> bool;

/// The largest entry data the writer takes without its large-file option, with margin:
/// an entry fails when its data, or its deflated data, passes 4 GiB (`u32::MAX`
/// bytes, the writer's large-file threshold), and deflate adds well under a
/// sixteenth to data it cannot compress.
pub open spec fn zip_entry_limit() -> nat {
    0xF000_0000
}

/// Every entry's data is within [`zip_entry_limit`].
pub open spec fn entries_within_limit(es: Seq<(Seq<char>, Seq<u8>)>) -> bool {
    forall|i: int| 0 <= i < es.len() ==> #[trigger] es[i].1.len() <= zip_entry_limit()
}

/// The bytes of a finished archive holding the given entries, each stored with the
/// default file options (deflate, fixed 1980-01-01 timestamp: the crate is built
/// without its `time` feature).
pub uninterp spec fn zip_archive_bytes(entries: Seq<(Seq<char>, Seq<u8>)>) -> Seq<u8>;

/// Whether `ZipArchive::new` accepts the bytes as an archive, or the text of the error.
pub uninterp spec fn zip_open_result(bytes: Seq<u8>) -> Result<(), Seq<char>>;

/// The bytes an opened archive was read from.
pub uninterp spec fn zip_archive_source(a: ZipArchive<Cursor<Vec<u8>>>) -> Seq<u8>;

/// Looking up an entry of the archive `bytes` by name (`ZipArchive::by_name`) and
/// reading it as text (`Read::read_to_string`): the error text when the lookup fails;
/// otherwise the text read and the error text when reading stopped on an error.
pub uninterp spec fn zip_entry_read(bytes: Seq<u8>, name: Seq<char>) -> Result<(Seq<char>, Option<Seq<char>>), Seq<char>>;

/// Reading an entry gave `text` and stopped on no error.
pub open spec fn read_without_error(text: Seq<char>) -> Result<(Seq<char>, Option<Seq<char>>), Seq<char>> {
    Ok((text, None))
}

/// No two entries have the same name.
pub open spec fn entry_names_distinct(es: Seq<(Seq<char>, Seq<u8>)>) -> bool {
    forall|i: int, j: int| 0 <= i < j < es.len() ==> es[i].0 != es[j].0
}

/// `ZipWriter::new` over an empty in-memory buffer: no entries yet, none open.
#[verifier::external_body]
pub(crate) fn zip_writer_new() -> (w: ArchiveWriter)
    ensures
        zip_entries(w) == Seq::<(Seq<char>, Seq<u8>)>::empty(),
        !zip_file_open(w),
{
    ArchiveWriter { inner: ZipWriter::new(Cursor::new(Vec::new())) }
}

/// `ZipWriter::start_file` with default options: on success a new, empty and open
/// entry with that name follows the earlier ones, none of which had that name (the
/// writer refuses a duplicate name); the error's text otherwise. It succeeds on a new
/// name while every entry written so far is within [`zip_entry_limit`]: the in-memory
/// buffer never fails, the default options are valid, and finishing the previous entry
/// fails only when its deflated data passes the large-file threshold (offsets past it
/// get a ZIP64 field instead). (A name of more than 65535 bytes makes it panic; at most
/// 16383 characters keep a name below that.)
#[verifier::external_body]
pub(crate) fn zip_start_file(w: &mut ArchiveWriter, name: &str) -> (r: Result<(), String>)
    requires
        name@.len() < 16384,
    ensures
        r is Ok ==> zip_entries(*final(w)) == zip_entries(*old(w)).push((name@, Seq::<u8>::empty())),
        r is Ok ==> forall|i: int| 0 <= i < zip_entries(*old(w)).len() ==> #[trigger] zip_entries(*old(w))[i].0 != name@,
        r is Ok ==> zip_file_open(*final(w)),
        (forall|i: int| 0 <= i < zip_entries(*old(w)).len() ==> #[trigger] zip_entries(*old(w))[i].0 != name@)
            && entries_within_limit(zip_entries(*old(w))) ==> r is Ok,
{
    let options: zip::write::FileOptions<()> = zip::write::FileOptions::default();
    w.inner.start_file(name, options).map_err(|e| e.to_string())
}

/// `Write::write_all` on the archive: on success the bytes are appended to the entry
/// last started, which stays open; the error's text otherwise. It fails only when no
/// entry is open or the open entry's data passes the large-file threshold, so it
/// succeeds on an open entry while that entry's data stays within
/// [`zip_entry_limit`].
#[verifier::external_body]
pub(crate) fn zip_write_all(w: &mut ArchiveWriter, data: &[u8]) -> (r: Result<(), String>)
    ensures
        r is Ok ==> zip_file_open(*final(w)),
        zip_file_open(*old(w)) && zip_entries(*old(w)).len() > 0 && zip_entries(*old(w)).last().1.len()
            + data@.len() <= zip_entry_limit() ==> r is Ok,
        r is Ok ==> {
            let old_entries = zip_entries(*old(w));
            &&& old_entries.len() > 0
            &&& zip_entries(*final(w)) == old_entries.update(
                old_entries.len() - 1,
                (old_entries.last().0, old_entries.last().1 + data@),
            )
        },
{
    w.inner.write_all(data).map_err(|e| e.to_string())
}

/// `ZipWriter::finish`: the archive bytes for the entries written, or the error's text;
/// with every entry within [`zip_entry_limit`] it succeeds (finishing the last entry
/// fails only when its deflated data passes the large-file threshold, and writing the
/// central directory into memory does not fail).
/// Read back, the archive opens; an entry that was written (under a name no other
/// entry has) and holds UTF-8 reads as its text without error; a name that no entry
/// has is not found.
#[verifier::external_body]
pub(crate) fn zip_finish(w: ArchiveWriter) -> (r: Result<Vec<u8>, String>)
    ensures
        entries_within_limit(zip_entries(w)) ==> r is Ok,
        r is Ok ==> r.unwrap()@ == zip_archive_bytes(zip_entries(w)),
        r is Ok ==> zip_open_result(r.unwrap()@) is Ok,
        r is Ok && entry_names_distinct(zip_entries(w)) ==> forall|i: int|
            0 <= i < zip_entries(w).len() && valid_utf8(zip_entries(w)[i].1) ==> #[trigger] zip_entry_read(
                r.unwrap()@,
                zip_entries(w)[i].0,
            ) == read_without_error(decode_utf8(zip_entries(w)[i].1)),
        r is Ok ==> forall|name: Seq<char>|
            (forall|i: int| 0 <= i < zip_entries(w).len() ==> zip_entries(w)[i].0 != name) ==> (
            #[trigger] zip_entry_read(r.unwrap()@, name) is Err),
{
    w.inner.finish().map(|c| c.into_inner()).map_err(|e| e.to_string())
}

/// `ZipArchive::new` over the bytes: as [`zip_open_result`] says.
#[verifier::external_body]
pub(crate) fn zip_open(bytes: Vec<u8>) -> (r: Result<ZipArchive<Cursor<Vec<u8>>>, String>)
    ensures
        match r {
            Ok(a) => zip_open_result(bytes@) is Ok && zip_archive_source(a) == bytes@,
            Err(m) => zip_open_result(bytes@) == Err::<(), Seq<char>>(m@),
        },
{
    ZipArchive::new(Cursor::new(bytes)).map_err(|e| e.to_string())
}

/// `ZipArchive::by_name` then `Read::read_to_string`: as [`zip_entry_read`] says;
/// the archive keeps its source.
#[verifier::external_body]
pub(crate) fn zip_read_entry(a: &mut ZipArchive<Cursor<Vec<u8>>>, name: &str) -> (r: Result<(String, Option<String>), String>)
    ensures
        zip_archive_source(*final(a)) == zip_archive_source(*old(a)),
        match r {
            Ok((text, err)) => zip_entry_read(zip_archive_source(*old(a)), name@) == Ok::<(Seq<char>, Option<Seq<char>>), Seq<char>>((text@, match err { Some(e) => Some(e@), None => None })),
            Err(m) => zip_entry_read(zip_archive_source(*old(a)), name@) == Err::<(Seq<char>, Option<Seq<char>>), Seq<char>>(m@),
        },
{
    let mut file = a.by_name(name).map_err(|e| e.to_string())?;
    let mut text = String::new();
    let err = file.read_to_string(&mut text).err().map(|e| e.to_string());
    Ok((text, err))
}

} // verus!
