//! The trusted boundary to the `zip` crate.
//!
//! The archive unpacker works on an archive held in memory as plain bytes.
//! The `zip` crate parses the container and decompresses each entry; what it
//! hands back is named by the two uninterpreted functions below, so that the
//! verified code around it can state exactly how the extracted tree relates
//! to the archive's entry table.

use vstd::prelude::*;
use std::io::Cursor;
use zip::read::ZipArchive;
use zip::result::ZipError;

verus! {

/// One record read out of an archive: its decoded name (a relative path
/// with forward-slash separators, per archive convention), whether it
/// denotes a directory, its decompressed content, and the stored name bytes
/// the name was decoded from.
pub struct ArchiveEntry {
    pub name: String,
    pub is_dir: bool,
    pub data: Vec<u8>,
    pub raw_name: Vec<u8>,
}

impl View for ArchiveEntry {
    type V = (Seq<char>, bool, Seq<u8>, Seq<u8>);

    open spec fn view(&self) -> (Seq<char>, bool, Seq<u8>, Seq<u8>) {
        (self.name@, self.is_dir, self.data@, self.raw_name@)
    }
}

/// The per-record views of a sequence of archive entries.
pub open spec fn entry_views(es: Seq<ArchiveEntry>) -> Seq<(Seq<char>, bool, Seq<u8>, Seq<u8>)> {
    es.map_values(|e: ArchiveEntry| e@)
}

#[verifier::external_type_specification]
#[verifier::external_body]
#[verifier::reject_recursive_types(T)]
pub struct ExCursor<T>(Cursor<T>);

#[verifier::external_type_specification]
#[verifier::external_body]
#[verifier::reject_recursive_types(R)]
pub struct ExZipArchive<R>(ZipArchive<R>);

#[verifier::external_type_specification]
#[verifier::external_body]
pub struct ExZipError(ZipError);

/// The entry table the archive parsed from `bytes` hands out: for each
/// entry, in hand-out order, its decoded name, whether it denotes a
/// directory, its decompressed content, and its stored name bytes.  (A
/// record whose stored name bytes repeat an earlier record's supersedes it,
/// so the stored names in this table are pairwise distinct; two distinct
/// stored names can still decode to the same string.)  The table is a
/// function of the bytes alone.
pub uninterp spec fn entries_of(bytes: Seq<u8>) -> Seq<(Seq<char>, bool, Seq<u8>, Seq<u8>)>;

/// The entries an opened archive hands out, in hand-out order.
pub uninterp spec fn archive_contents(a: ZipArchive<Cursor<Vec<u8>>>) -> Seq<
    (Seq<char>, bool, Seq<u8>, Seq<u8>),
>;

/// The bytes an opened archive reads from: its cursor holds the whole
/// container buffer, whatever position reading has seeked it to.
pub uninterp spec fn archive_bytes(a: ZipArchive<Cursor<Vec<u8>>>) -> Seq<u8>;

/// Whether `bytes` parse as a zip container: the end-of-central-directory
/// record and the central directory are found and well-formed.  Parsing an
/// in-memory buffer is deterministic, a function of the bytes alone.
pub uninterp spec fn zip_parses(bytes: Seq<u8>) -> bool;

/// Whether entry `i` of the container parsed from `bytes` reads back in
/// full: its local header is found, its content decompresses, and the
/// checksum matches.  Reading an in-memory buffer is deterministic, a
/// function of the bytes and the index alone.
pub uninterp spec fn entry_reads(bytes: Seq<u8>, i: int) -> bool;

/// Relies on `zip::read::ZipArchive::new`: parses the end-of-central-directory
/// record and the central directory of the container held in the byte
/// buffer, succeeding exactly when they are well-formed; the entry table it
/// produces is a function of those bytes alone.  Its index is keyed by the
/// stored name bytes, so those are pairwise distinct in the table.
#[verifier::external_body]
pub(crate) fn zip_open(bytes: &Vec<u8>) -> (r: Result<ZipArchive<Cursor<Vec<u8>>>, ZipError>)
    ensures
        r is Ok <==> zip_parses(bytes@),
        r matches Ok(a) ==> archive_contents(a) == entries_of(bytes@) && archive_bytes(a)
            == bytes@,
        r is Ok ==> (forall|i: int, j: int|
            0 <= i < j < entries_of(bytes@).len() ==> (#[trigger] entries_of(bytes@)[i]).3 != (
            #[trigger] entries_of(bytes@)[j]).3),
{
    ZipArchive::new(Cursor::new(bytes.clone()))
}

/// Relies on `zip::read::ZipArchive::len`: the number of records in the
/// archive's central directory.
#[verifier::external_body]
pub(crate) fn zip_len(a: &ZipArchive<Cursor<Vec<u8>>>) -> (n: usize)
    ensures
        n == archive_contents(*a).len(),
{
    a.len()
}

/// Relies on `zip::read::ZipArchive::by_index` together with
/// `zip::read::ZipFile::name`, `zip::read::ZipFile::name_raw`,
/// `zip::read::ZipFile::is_dir` and the `std::io::Read` implementation of
/// `ZipFile`: hands out the indexed record's decoded name, directory flag,
/// decompressed content and stored name bytes, succeeding exactly when that
/// entry reads back in full from the buffer.  Reading only seeks the
/// underlying cursor, so the entry table and the buffer are unchanged.  The
/// record borrows the archive and cannot outlive this call, so the one
/// wrapper converts it to owned plain values.
#[verifier::external_body]
pub(crate) fn zip_entry(a: &mut ZipArchive<Cursor<Vec<u8>>>, i: usize) -> (r: Result<
    ArchiveEntry,
    ZipError,
>)
    requires
        i < archive_contents(*old(a)).len(),
    ensures
        archive_contents(*final(a)) == archive_contents(*old(a)),
        archive_bytes(*final(a)) == archive_bytes(*old(a)),
        r is Ok <==> entry_reads(archive_bytes(*old(a)), i as int),
        r matches Ok(e) ==> e@ == archive_contents(*old(a))[i as int],
{
    match a.by_index(i) {
        Ok(mut f) => {
            let name = f.name().to_string();
            let raw_name = f.name_raw().to_vec();
            let is_dir = f.is_dir();
            let mut data = Vec::new();
            match std::io::Read::read_to_end(&mut f, &mut data) {
                Ok(_) => Ok(ArchiveEntry { name, is_dir, data, raw_name }),
                Err(e) => Err(ZipError::Io(e)),
            }
        },
        Err(e) => Err(e),
    }
}

} // verus!
