//! Reading zip archives, as the `zip` crate does.
//!
//! What an archive holds is a function of its bytes alone; the three names below stand for it.
use std::io::Read;
use vstd::prelude::*;

verus! {

/// An entry of an archive.
#[derive(Debug, PartialEq, Eq)]
pub struct ZipEntry {
    pub name: String,
    pub is_dir: bool,
    /// The permissions to give to the file, if the archive tells.
    pub unix_mode: Option<u32>,
}

/// How many entries an archive has; `None` if it is not an archive.
pub uninterp spec fn archive_len(data: Seq<u8>) -> Option<usize>;

/// The name and the permissions of an entry; `None` if it cannot be opened.
pub uninterp spec fn archive_entry(data: Seq<u8>, index: usize) -> Option<
    (Seq<char>, Option<u32>),
>;

/// The contents of an entry, unpacked; `None` if they cannot be.
pub uninterp spec fn archive_contents(data: Seq<u8>, index: usize) -> Option<Seq<u8>>;

/// Whether a name is that of a directory: it ends in a slash of either kind.
pub open spec fn names_directory(name: Seq<char>) -> bool {
    name.len() > 0 && (name.last() == '/' || name.last() == '\\')
}

/// `zip::ZipArchive::new` and `len`: reads the central directory and counts its entries.
#[verifier::external_body]
pub(crate) fn zip_len(data: &[u8]) -> (len: Option<usize>)
    ensures
        len == archive_len(data@),
{
    zip::ZipArchive::new(std::io::Cursor::new(data)).ok().map(|archive| archive.len())
}

/// `zip::ZipArchive::by_index`: opens an entry. What comes back is its `name` and `unix_mode`,
/// and `is_dir`, which goes by the last character of the name.
#[verifier::external_body]
pub(crate) fn zip_entry(data: &[u8], index: usize) -> (entry: Option<ZipEntry>)
    ensures
        match entry {
            Some(entry) => {
                &&& archive_entry(data@, index) == Some((entry.name@, entry.unix_mode))
                &&& entry.is_dir == names_directory(entry.name@)
            },
            None => archive_entry(data@, index) is None,
        },
{
    let mut archive = zip::ZipArchive::new(std::io::Cursor::new(data)).ok()?;
    let file = archive.by_index(index).ok()?;
    Some(
        ZipEntry {
            name: file.name().to_string(),
            is_dir: file.is_dir(),
            unix_mode: file.unix_mode(),
        },
    )
}

/// `zip::read::ZipFile`'s `read_to_end`: unpacks the whole entry and holds it against its
/// checksum.
#[verifier::external_body]
pub(crate) fn zip_contents(data: &[u8], index: usize) -> (contents: Option<Vec<u8>>)
    ensures
        match contents {
            Some(bytes) => archive_contents(data@, index) == Some(bytes@),
            None => archive_contents(data@, index) is None,
        },
{
    let mut archive = zip::ZipArchive::new(std::io::Cursor::new(data)).ok()?;
    let mut file = archive.by_index(index).ok()?;
    let mut bytes: Vec<u8> = Vec::new();
    file.read_to_end(&mut bytes).ok()?;
    Some(bytes)
}

} // verus!
