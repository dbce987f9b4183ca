//! The archive writer and the text encoder that bundles are made with. Both
//! come from outside crates; this module says what the library relies on.

use vstd::prelude::*;

verus! {

/// A date and time: year, month, day, hour, minute, second.
pub type Stamp = (u16, u8, u8, u8, u8, u8);

/// One entry of an archive: its name, whether it is a directory, its
/// permission bits, its bytes, and the date it carries.
pub type Entry = (Seq<char>, bool, u32, Seq<u8>, Stamp);

/// The dates that an archive can carry.
pub open spec fn valid_stamp(stamp: Stamp) -> bool {
    &&& 1980 <= stamp.0 <= 2107
    &&& 1 <= stamp.1 <= 12
    &&& 1 <= stamp.2 <= 31
    &&& stamp.3 <= 23
    &&& stamp.4 <= 59
    &&& stamp.5 <= 60
}

/// A `zip::ZipWriter` that writes to memory. Its entries are what
/// contracts speak of.
#[verifier::external_body]
pub struct ArchiveWriter {
    inner: zip::ZipWriter<std::io::Cursor<Vec<u8>>>,
}

#[verifier::external_type_specification]
#[verifier::external_body]
pub struct ExZipError(zip::result::ZipError);

/// The entries written to an archive writer so far, in order.
pub uninterp spec fn archive_entries(w: ArchiveWriter) -> Seq<Entry>;

/// Whether an archive writer still takes entries: it has not been finished
/// and nothing written to it has failed.
pub uninterp spec fn archive_open(w: ArchiveWriter) -> bool;

/// The bytes of the finished archive that holds `entries`, each stored
/// without compression.
pub uninterp spec fn zip_image(entries: Seq<Entry>) -> Seq<u8>;

/// The text that standard, padded base64 gives for `bytes`.
pub uninterp spec fn base64_text(bytes: Seq<u8>) -> Seq<char>;

/// The name under which a directory is entered: with a slash at its end,
/// unless it ends in a slash or backslash already.
pub open spec fn directory_name(name: Seq<char>) -> Seq<char> {
    if name.len() > 0 && (name.last() == '/' || name.last() == '\\') {
        name
    } else {
        name + "/"@
    }
}

/// The most bytes that one entry holds.
pub open spec fn entry_limit() -> nat {
    0xFFFF_FFFF
}

/// The last entry is a file with room for `more` bytes.
pub open spec fn takes(entries: Seq<Entry>, more: nat) -> bool {
    entries.len() > 0 && !entries.last().1 && entries.last().3.len() + more <= entry_limit()
}

/// The entries after `data` has been written: the bytes go to the end of
/// the last entry. Writing nothing changes nothing.
pub open spec fn appended(entries: Seq<Entry>, data: Seq<u8>) -> Seq<Entry> {
    if data.len() == 0 || entries.len() == 0 {
        entries
    } else {
        let last = entries.last();
        entries.update(entries.len() - 1, (last.0, last.1, last.2, last.3 + data, last.4))
    }
}

/// `zip::ZipWriter::new` over an empty in-memory cursor: an open writer
/// with no entry.
#[verifier::external_body]
pub(crate) fn archive_new() -> (w: ArchiveWriter)
    ensures
        archive_entries(w) == Seq::<Entry>::empty(),
        archive_open(w),
{
    ArchiveWriter { inner: zip::ZipWriter::new(std::io::Cursor::new(Vec::new())) }
}

/// `ZipWriter::start_file` with stored compression, the date `stamp` (made
/// by `DateTime::from_date_and_time`, which takes every valid date) and the
/// permission bits `mode` (the writer keeps the lowest nine bits, so no
/// others are taken): on success the writer has one more entry, an empty
/// file called `name`. An open writer succeeds and stays open: the
/// writer works on memory, where no write fails.
#[verifier::external_body]
pub(crate) fn archive_start_file(
    w: &mut ArchiveWriter,
    name: &str,
    mode: u32,
    stamp: Stamp,
) -> (r: Result<(), zip::result::ZipError>)
    requires
        valid_stamp(stamp),
        mode <= 0o777,
    ensures
        archive_open(*old(w)) ==> r is Ok && archive_open(*final(w)),
        r is Ok ==> archive_entries(*final(w)) == archive_entries(*old(w)).push(
            (name@, false, mode, Seq::<u8>::empty(), stamp),
        ),
{
    let (year, month, day, hour, minute, second) = stamp;
    let date = zip::DateTime::from_date_and_time(year, month, day, hour, minute, second);
    let options = zip::write::FileOptions::default().compression_method(
        zip::CompressionMethod::Stored,
    ).last_modified_time(date.unwrap_or_default()).unix_permissions(mode);
    w.inner.start_file(name, options)
}

/// `ZipWriter::add_directory` with the date `stamp` and the permission bits
/// `mode`: on success the writer has one more entry, a directory called
/// `name` with a slash at its end. An open writer succeeds and stays open.
#[verifier::external_body]
pub(crate) fn archive_add_directory(
    w: &mut ArchiveWriter,
    name: &str,
    mode: u32,
    stamp: Stamp,
) -> (r: Result<(), zip::result::ZipError>)
    requires
        valid_stamp(stamp),
        mode <= 0o777,
    ensures
        archive_open(*old(w)) ==> r is Ok && archive_open(*final(w)),
        r is Ok ==> archive_entries(*final(w)) == archive_entries(*old(w)).push(
            (directory_name(name@), true, mode, Seq::<u8>::empty(), stamp),
        ),
{
    let (year, month, day, hour, minute, second) = stamp;
    let date = zip::DateTime::from_date_and_time(year, month, day, hour, minute, second);
    let options = zip::write::FileOptions::default().compression_method(
        zip::CompressionMethod::Stored,
    ).last_modified_time(date.unwrap_or_default()).unix_permissions(mode);
    w.inner.add_directory(name, options)
}

/// `Write::write_all` on the writer: on success `data` stands at the end of
/// the entry that was started last. An open writer whose last entry is a
/// file with room for `data` succeeds and stays open; the writer refuses a
/// write without a file to take it, and one that brings a file over the
/// limit.
#[verifier::external_body]
pub(crate) fn archive_write(w: &mut ArchiveWriter, data: &[u8]) -> (r: Result<
    (),
    zip::result::ZipError,
>)
    ensures
        archive_open(*old(w)) && takes(archive_entries(*old(w)), data@.len()) ==> r is Ok
            && archive_open(*final(w)),
        r is Ok ==> archive_entries(*final(w)) == appended(archive_entries(*old(w)), data@),
{
    std::io::Write::write_all(&mut w.inner, data).map_err(zip::result::ZipError::Io)
}

/// `ZipWriter::finish`: on success the bytes of the archive, which depend
/// on the entries alone. An open writer succeeds.
#[verifier::external_body]
pub(crate) fn archive_finish(w: &mut ArchiveWriter) -> (r: Result<
    Vec<u8>,
    zip::result::ZipError,
>)
    ensures
        archive_open(*old(w)) ==> r is Ok,
        r matches Ok(bytes) ==> bytes@ == zip_image(archive_entries(*old(w))),
{
    w.inner.finish().map(|cursor| cursor.into_inner())
}

/// Whether the base64 text of `len` bytes has a length that fits `usize`.
pub open spec fn encodable(len: nat) -> bool {
    (len + 2) / 3 * 4 <= usize::MAX
}

/// `Engine::encode` of `base64::engine::general_purpose::STANDARD`: the
/// padded standard encoding, four characters for every three bytes begun.
/// The call does not return where that length does not fit `usize`, so
/// such input is left out.
#[verifier::external_body]
pub(crate) fn base64_encode(bytes: &[u8]) -> (r: String)
    requires
        encodable(bytes@.len()),
    ensures
        r@ == base64_text(bytes@),
        r@.len() == (bytes@.len() + 2) / 3 * 4,
{
    base64::Engine::encode(&base64::engine::general_purpose::STANDARD, bytes)
}

} // verus!
