//! Package archives: what an archive lists, and what has to be written to
//! lay one out under a directory.

use vstd::prelude::*;
use vstd::string::*;

verus! {

/// `zip::ZipArchive`, an opened archive over a reader. Nothing inside it is
/// seen here; what is said of it is said by the functions below.
#[verifier::external_type_specification]
#[verifier::external_body]
#[verifier::reject_recursive_types(R)]
pub struct ExZipArchive<R>(zip::ZipArchive<R>);

/// `std::io::Cursor`, the reader over bytes in memory that an archive is
/// opened on.
#[verifier::external_type_specification]
#[verifier::external_body]
#[verifier::reject_recursive_types(T)]
pub struct ExCursor<T>(std::io::Cursor<T>);

/// The bytes that an opened archive reads from.
pub uninterp spec fn archive_source(archive: zip::ZipArchive<std::io::Cursor<Vec<u8>>>) -> Seq<u8>;

/// Whether `bytes` can be opened as an archive.
pub uninterp spec fn is_archive(bytes: Seq<u8>) -> bool;

/// Number of entries that the archive in `bytes` lists.
pub uninterp spec fn entry_count(bytes: Seq<u8>) -> nat;

/// Name of the entry at `index` of the archive in `bytes`, where that entry
/// can be opened.
pub uninterp spec fn entry_name_of(bytes: Seq<u8>, index: int) -> Option<Seq<char>>;

/// Bytes that the entry at `index` of the archive in `bytes` unpacks to, where
/// that entry can be opened and read to its end.
pub uninterp spec fn entry_data_of(bytes: Seq<u8>, index: int) -> Option<Seq<u8>>;

/// Whether an entry's name is a path that stays under the directory it is
/// joined to: no NUL in it, not absolute, and never stepping above its start.
pub uninterp spec fn is_enclosed(name: Seq<char>) -> bool;

/// Calls `zip::ZipArchive::new` on a cursor over `bytes`: the archive, where
/// the bytes can be opened as one; it reads from those bytes.
#[verifier::external_body]
pub(crate) fn open_archive(bytes: Vec<u8>) -> (r: Option<zip::ZipArchive<std::io::Cursor<Vec<u8>>>>)
    ensures
        r is Some == is_archive(bytes@),
        match r {
            Some(archive) => archive_source(archive) == bytes@,
            None => true,
        },
{
    zip::ZipArchive::new(std::io::Cursor::new(bytes)).ok()
}

/// Calls `zip::ZipArchive::len`: the number of entries listed.
#[verifier::external_body]
pub(crate) fn archive_len(archive: &zip::ZipArchive<std::io::Cursor<Vec<u8>>>) -> (n: usize)
    ensures
        n == entry_count(archive_source(*archive)),
{
    archive.len()
}

/// Calls `zip::ZipArchive::by_index_decrypt` with an empty password and then
/// `zip::read::ZipFile::name`: the name of the entry, where the entry can be
/// opened, which only an entry that the archive lists can. The archive reads
/// from the same bytes afterwards.
#[verifier::external_body]
pub(crate) fn entry_name(archive: &mut zip::ZipArchive<std::io::Cursor<Vec<u8>>>, index: usize) -> (r:
    Option<String>)
    ensures
        archive_source(*final(archive)) == archive_source(*old(archive)),
        match r {
            Some(name) => index < entry_count(archive_source(*old(archive))) && entry_name_of(
                archive_source(*old(archive)),
                index as int,
            ) == Some(name@),
            None => entry_name_of(archive_source(*old(archive)), index as int) is None,
        },
{
    let opened = archive.by_index_decrypt(index, b"").ok().and_then(|entry| entry.ok());
    opened.map(|entry| entry.name().to_string())
}

/// Calls `zip::ZipArchive::by_index_decrypt` with an empty password and then
/// `zip::read::ZipFile::enclosed_name`: the entry's name again, where the
/// entry can be opened and its name is a path that stays under the directory
/// it is joined to. The archive reads from the same bytes afterwards.
#[verifier::external_body]
pub(crate) fn entry_enclosed_name(archive: &mut zip::ZipArchive<std::io::Cursor<Vec<u8>>>, index: usize) -> (r:
    Option<String>)
    ensures
        archive_source(*final(archive)) == archive_source(*old(archive)),
        match r {
            Some(path) => entry_name_of(archive_source(*old(archive)), index as int) == Some(
                path@,
            ) && is_enclosed(path@),
            None => match entry_name_of(archive_source(*old(archive)), index as int) {
                Some(name) => !is_enclosed(name),
                None => true,
            },
        },
{
    let opened = archive.by_index_decrypt(index, b"").ok().and_then(|entry| entry.ok());
    opened.and_then(|entry| entry.enclosed_name().and_then(|p| p.to_str()).map(|s| s.to_string()))
}

/// Calls `zip::ZipArchive::by_index_decrypt` with an empty password and then
/// `std::io::Read::read_to_end` on the entry: the bytes that the entry
/// unpacks to, where it can be opened and read to its end. The archive reads
/// from the same bytes afterwards.
#[verifier::external_body]
pub(crate) fn entry_data(archive: &mut zip::ZipArchive<std::io::Cursor<Vec<u8>>>, index: usize) -> (r: Option<
    Vec<u8>,
>)
    ensures
        archive_source(*final(archive)) == archive_source(*old(archive)),
        match r {
            Some(data) => entry_data_of(archive_source(*old(archive)), index as int) == Some(
                data@,
            ),
            None => entry_data_of(archive_source(*old(archive)), index as int) is None,
        },
{
    let mut entry = archive.by_index_decrypt(index, b"").ok().and_then(|entry| entry.ok())?;
    let mut data = Vec::new();
    std::io::Read::read_to_end(&mut entry, &mut data).ok().map(|_| data)
}

/// Why an archive could not be listed or laid out.
#[derive(Clone, Copy, Debug, PartialEq, Eq, Structural)]
pub enum ArchiveError {
    /// The bytes cannot be opened as an archive.
    NotAnArchive,
    /// The archive lists no entry.
    Empty,
    /// The entry at this index cannot be opened or read.
    UnreadableEntry(usize),
    /// The name of the first entry is no path that stays under the directory
    /// it is joined to.
    UnsafeRoot,
}

/// Whether a name is that of a directory entry: it ends in a slash or a
/// backslash.
pub open spec fn names_directory(name: Seq<char>) -> bool {
    name.len() > 0 && (name.last() == '/' || name.last() == '\\')
}

/// Whether a name ends in a slash.
pub open spec fn ends_in_slash(name: Seq<char>) -> bool {
    name.len() > 0 && name.last() == '/'
}

/// Whether `name` is that of a directory entry.
pub fn is_dir_name(name: &str) -> (r: bool)
    ensures
        r == names_directory(name@),
{
    let n: usize = name.unicode_len();
    if n == 0 {
        return false;
    }
    let last: char = name.get_char(n - 1);
    last == '/' || last == '\\'
}

/// Whether `name` ends in a slash.
pub fn has_trailing_slash(name: &str) -> (r: bool)
    ensures
        r == ends_in_slash(name@),
{
    let n: usize = name.unicode_len();
    if n == 0 {
        return false;
    }
    name.get_char(n - 1) == '/'
}

/// Whether the name of every entry before `upto` can be read.
pub open spec fn names_readable(bytes: Seq<u8>, upto: int) -> bool {
    forall|i: int| 0 <= i < upto ==> (#[trigger] entry_name_of(bytes, i)) is Some
}

/// The entries of an archive, each with its name and whether it is a
/// directory; or the reason why they cannot be had.
pub fn list_files(archive: Vec<u8>) -> (r: Result<Vec<(String, bool)>, ArchiveError>)
    ensures
        match r {
            Ok(files) => {
                &&& is_archive(archive@)
                &&& files@.len() == entry_count(archive@)
                &&& forall|i: int|
                    0 <= i < files@.len() ==> entry_name_of(archive@, i) == Some(
                        (#[trigger] files@[i]).0@,
                    ) && files@[i].1 == names_directory(files@[i].0@)
            },
            Err(ArchiveError::NotAnArchive) => !is_archive(archive@),
            Err(ArchiveError::UnreadableEntry(at)) => {
                &&& is_archive(archive@)
                &&& at < entry_count(archive@)
                &&& names_readable(archive@, at as int)
                &&& entry_name_of(archive@, at as int) is None
            },
            Err(_) => false,
        },
{
    let ghost bytes = archive@;
    let mut opened = match open_archive(archive) {
        Some(opened) => opened,
        None => {
            return Err(ArchiveError::NotAnArchive);
        },
    };
    let count: usize = archive_len(&opened);
    let mut files: Vec<(String, bool)> = Vec::new();
    let mut i: usize = 0;
    while i < count
        invariant
            i <= count,
            bytes == archive@,
            count == entry_count(bytes),
            is_archive(bytes),
            archive_source(opened) == bytes,
            names_readable(bytes, i as int),
            files@.len() == i,
            forall|j: int|
                0 <= j < i ==> entry_name_of(bytes, j) == Some((#[trigger] files@[j]).0@)
                    && files@[j].1 == names_directory(files@[j].0@),
        decreases count - i,
    {
        match entry_name(&mut opened, i) {
            None => {
                return Err(ArchiveError::UnreadableEntry(i));
            },
            Some(name) => {
                let dir = is_dir_name(name.as_str());
                files.push((name, dir));
            },
        }
        i = i + 1;
    }
    Ok(files)
}

} // verus!
