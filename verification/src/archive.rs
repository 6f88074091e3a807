//! The archive adapter: resolves a source document (plain bytes or a
//! single-entry zip) to its document bytes, and packs filtered output
//! back into the requested container form.
//!
//! The zip crate does the real parsing and writing; the scan for the
//! inner document entry — first match by ascending index — is verified
//! here against the archive's modelled name list.

use vstd::prelude::*;
use crate::errors::CleanError;
use crate::input::InputFileType;
use crate::input::ext_fb2;
use crate::paths::spec_has_suffix_ci;
use std::io::Cursor;
use std::io::Read;
use std::io::Write;
use zip::ZipArchive;
use zip::ZipWriter;
use zip::write::SimpleFileOptions;

verus! {

/// Declares the zip crate's archive reader; opaque to the verifier,
/// modelled through `zip_names` and `zip_data`.
#[verifier::external_type_specification]
#[verifier::external_body]
#[verifier::reject_recursive_types(R)]
pub struct ExZipArchive<R>(ZipArchive<R>);

/// The entry names of an opened archive, in ascending index order.
pub uninterp spec fn zip_names(a: ZipArchive<Cursor<Vec<u8>>>) -> Seq<Seq<u8>>;

/// The uncompressed entry contents of an opened archive, indexed as
/// `zip_names`.
pub uninterp spec fn zip_data(a: ZipArchive<Cursor<Vec<u8>>>) -> Seq<Seq<u8>>;

/// The entry names a well-formed archive byte string holds, in
/// ascending index order.
pub uninterp spec fn zip_names_of(bytes: Seq<u8>) -> Seq<Seq<u8>>;

/// The uncompressed entry contents of a well-formed archive byte
/// string, indexed as `zip_names_of`.
pub uninterp spec fn zip_data_of(bytes: Seq<u8>) -> Seq<Seq<u8>>;

/// The byte string of a fresh single-entry archive holding `content`
/// under `name`.  Well defined because the writer is configured with
/// fixed options and a fixed timestamp, so the output depends on the
/// arguments alone.
pub uninterp spec fn zip_single_of(name: Seq<u8>, content: Seq<u8>) -> Seq<u8>;

/// Whether a byte string is a fully valid archive: it parses, and
/// every entry can be opened and read to its end.  On such input the
/// adapter owes a result.
pub uninterp spec fn zip_ok(bytes: Seq<u8>) -> bool;

/// Whether every entry of an opened archive can be opened and read to
/// its end.
pub uninterp spec fn zip_wf(a: ZipArchive<Cursor<Vec<u8>>>) -> bool;

/// Whether the writer accepts this entry name and content (the one
/// failure an in-memory write can hit is a name beyond the format's
/// limits); a function of the arguments alone.
pub uninterp spec fn zip_write_ok(name: Seq<u8>, content: Seq<u8>) -> bool;

/// Relies on zip::ZipArchive::new over an in-memory cursor: on success
/// the archive's entries (one name and one content each) are those the
/// byte string holds; a fully valid archive always opens.
#[verifier::external_body]
fn open_archive(bytes: Vec<u8>) -> (r: Result<ZipArchive<Cursor<Vec<u8>>>, String>)
    ensures
        r matches Ok(a) ==> zip_names(a) == zip_names_of(bytes@) && zip_data(a) == zip_data_of(
            bytes@,
        ) && zip_names(a).len() == zip_data(a).len() && zip_wf(a) == zip_ok(bytes@),
        zip_ok(bytes@) ==> r is Ok,
{
    ZipArchive::new(Cursor::new(bytes)).map_err(|e| format!("{}", e))
}

/// Relies on zip::ZipArchive::len: the number of entries.
#[verifier::external_body]
fn entry_count(a: &ZipArchive<Cursor<Vec<u8>>>) -> (r: usize)
    ensures
        r == zip_names(*a).len(),
{
    a.len()
}

/// Relies on zip::ZipArchive::name_for_index, which looks an entry's
/// name up in the archive's metadata and answers for every index below
/// the entry count.
#[verifier::external_body]
fn entry_name(a: &ZipArchive<Cursor<Vec<u8>>>, i: usize) -> (r: Vec<u8>)
    requires
        i < zip_names(*a).len(),
    ensures
        r@ == zip_names(*a)[i as int],
{
    a.name_for_index(i).expect("index below the entry count").as_bytes().to_vec()
}

/// Relies on zip::ZipArchive::by_index and std's Read::read_to_end: on
/// success the bytes are the entry's uncompressed contents, and in a
/// fully valid archive every entry below the count reads.  Reading
/// seeks inside the archive but leaves its entry table untouched.
#[verifier::external_body]
fn read_entry(a: &mut ZipArchive<Cursor<Vec<u8>>>, i: usize) -> (r: Result<Vec<u8>, String>)
    ensures
        zip_names(*final(a)) == zip_names(*old(a)),
        zip_data(*final(a)) == zip_data(*old(a)),
        zip_wf(*final(a)) == zip_wf(*old(a)),
        r matches Ok(d) ==> i < zip_data(*old(a)).len() && d@ == zip_data(*old(a))[i as int],
        zip_wf(*old(a)) && i < zip_names(*old(a)).len() ==> r is Ok,
{
    let mut file = match a.by_index(i) {
        Ok(f) => f,
        Err(e) => return Err(format!("{}", e)),
    };
    let mut data: Vec<u8> = Vec::new();
    match file.read_to_end(&mut data) {
        Ok(_) => Ok(data),
        Err(e) => Err(format!("{}", e)),
    }
}

/// Relies on zip::ZipWriter (new, start_file, Write::write_all,
/// finish) over an in-memory cursor: builds a fresh archive with the
/// one entry `name` holding `content` (a non-UTF-8 name is written in
/// its lossy UTF-8 form), under fixed default options and the writer's
/// fixed fallback timestamp, so the bytes depend on the arguments
/// alone, and whether the writer accepts them does too.
#[verifier::external_body]
fn write_zip_single(name: Vec<u8>, content: Vec<u8>) -> (r: Result<Vec<u8>, String>)
    ensures
        r matches Ok(out) ==> out@ == zip_single_of(name@, content@),
        r is Ok <==> zip_write_ok(name@, content@),
{
    let mut w = ZipWriter::new(Cursor::new(Vec::new()));
    let entry = String::from_utf8_lossy(&name).into_owned();
    if let Err(e) = w.start_file(entry, SimpleFileOptions::default()) {
        return Err(format!("{}", e));
    }
    if let Err(e) = w.write_all(&content) {
        return Err(format!("{}", e));
    }
    match w.finish() {
        Ok(cursor) => Ok(cursor.into_inner()),
        Err(e) => Err(format!("{}", e)),
    }
}

/// An entry name that denotes the inner plain document: it ends,
/// ASCII case-insensitively, with the plain extension.
pub open spec fn is_fb2_entry(name: Seq<u8>) -> bool {
    spec_has_suffix_ci(name, ext_fb2())
}

/// Some entry of `names` denotes the inner plain document.
pub open spec fn has_fb2_entry(names: Seq<Seq<u8>>) -> bool {
    exists|i: int| 0 <= i < names.len() && is_fb2_entry(#[trigger] names[i])
}

/// Scans the entries in ascending index order for the first whose name
/// denotes the plain document.
fn find_fb2_entry(a: &ZipArchive<Cursor<Vec<u8>>>) -> (r: Option<usize>)
    ensures
        r matches Some(i) ==> i < zip_names(*a).len() && is_fb2_entry(zip_names(*a)[i as int]) && (
        forall|j: int| 0 <= j < i ==> !is_fb2_entry(#[trigger] zip_names(*a)[j])),
        r is None ==> !has_fb2_entry(zip_names(*a)),
{
    let n = entry_count(a);
    let fb2: Vec<u8> = vec![46u8, 102u8, 98u8, 50u8];
    proof {
        assert(fb2@ =~= ext_fb2());
    }
    let mut i: usize = 0;
    while i < n
        invariant
            n == zip_names(*a).len(),
            0 <= i <= n,
            fb2@ == ext_fb2(),
            forall|j: int| 0 <= j < i ==> !is_fb2_entry(#[trigger] zip_names(*a)[j]),
        decreases n - i,
    {
        let name = entry_name(a, i);
        if crate::paths::has_suffix_ci(name.as_slice(), fb2.as_slice()) {
            return Some(i);
        }
        i += 1;
    }
    None
}

/// Resolves a source's document bytes.  A plain source is its own
/// document.  For an archived source the entries are scanned in
/// ascending index order and the first whose name ends (ASCII
/// case-insensitively) in the plain extension is read; an archive
/// without such an entry is rejected as missing its inner document,
/// an error that names the archive's path.  A fully valid archive
/// with a matching entry always resolves.
pub fn extract_document(bytes: Vec<u8>, ty: InputFileType, src_path: &[u8]) -> (r: Result<
    Vec<u8>,
    CleanError,
>)
    ensures
        ty is Fb2 ==> (r matches Ok(d) && d@ == bytes@),
        ty is Fb2Zip ==> (r matches Ok(d) ==> exists|i: int|
            0 <= i < zip_names_of(bytes@).len() && is_fb2_entry(
                #[trigger] zip_names_of(bytes@)[i],
            ) && (forall|j: int| 0 <= j < i ==> !is_fb2_entry(#[trigger] zip_names_of(bytes@)[j]))
                && d@ == zip_data_of(bytes@)[i]),
        ty is Fb2Zip && !has_fb2_entry(zip_names_of(bytes@)) ==> r is Err,
        ty is Fb2Zip && has_fb2_entry(zip_names_of(bytes@)) ==> !(r matches Err(e)
            && e is MissingEntry),
        ty is Fb2Zip && zip_ok(bytes@) && has_fb2_entry(zip_names_of(bytes@)) ==> r is Ok,
        r matches Err(e) ==> (e is Archive || e is MissingEntry),
        r matches Err(CleanError::MissingEntry(p)) ==> p@ == src_path@,
    {
    match ty {
        InputFileType::Fb2 => Ok(bytes),
        InputFileType::Fb2Zip => {
            let ghost all_names = zip_names_of(bytes@);
            let mut archive = match open_archive(bytes) {
                Ok(a) => a,
                Err(e) => {
                    return Err(CleanError::Archive(e));
                },
            };
            let idx = match find_fb2_entry(&archive) {
                Some(i) => i,
                None => {
                    return Err(CleanError::MissingEntry(crate::paths::copy_bytes(src_path)));
                },
            };
            match read_entry(&mut archive, idx) {
                Ok(d) => {
                    proof {
                        let i = idx as int;
                        assert(0 <= i < all_names.len() && is_fb2_entry(all_names[i]) && (
                        forall|j: int| 0 <= j < i ==> !is_fb2_entry(#[trigger] all_names[j]))
                            && d@ == zip_data_of(bytes@)[i]);
                    }
                    Ok(d)
                },
                Err(e) => Err(CleanError::Archive(e)),
            }
        },
    }
}

/// Packs a filtered document into the resolved container form: plain
/// bytes stay as they are; the archived form becomes a fresh
/// single-entry archive whose entry is named `entry_name`.  Whenever
/// the writer accepts the name and content, the archive is owed.
pub fn pack_document(content: Vec<u8>, ty: InputFileType, entry_name: Vec<u8>) -> (r: Result<
    Vec<u8>,
    CleanError,
>)
    ensures
        ty is Fb2 ==> (r matches Ok(d) && d@ == content@),
        ty is Fb2Zip ==> (r matches Ok(d) ==> d@ == zip_single_of(entry_name@, content@)),
        ty is Fb2Zip && zip_write_ok(entry_name@, content@) ==> r is Ok,
        r matches Err(e) ==> e is Archive,
{
    match ty {
        InputFileType::Fb2 => Ok(content),
        InputFileType::Fb2Zip => {
            match write_zip_single(entry_name, content) {
                Ok(out) => Ok(out),
                Err(e) => Err(CleanError::Archive(e)),
            }
        },
    }
}

} // verus!
