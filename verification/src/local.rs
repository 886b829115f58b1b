//! Locally stored archives and files, and the streamed updates that
//! present them to the caller.
//!
//! Reading and writing the local records is the surrounding application's
//! work; the library assembles the structured listings from the raw
//! listings handed in, each raw entry an (address, name) pair.

use vstd::prelude::*;

verus! {

/// A locally known archive: its display name and its address.
#[derive(Clone, Debug)]
pub struct LocalArchive {
    pub name: String,
    pub address: String,
}

/// A locally known individual file: its display name and its address.
#[derive(Clone, Debug)]
pub struct LocalFile {
    pub name: String,
    pub address: String,
}

/// Everything stored locally, in a structured form.
#[derive(Debug)]
pub struct LocalFileData {
    pub public_file_archives: Vec<LocalArchive>,
    pub private_file_archives: Vec<LocalArchive>,
    pub public_files: Vec<LocalFile>,
    pub private_files: Vec<LocalFile>,
}

/// The phases a streamed local listing goes through.
#[derive(Clone, Copy, PartialEq, Eq, Structural, Debug)]
pub enum LocalUpdateType {
    IndividualFiles,
    ArchiveLoading,
    ArchiveLoaded,
    ArchiveFailed,
    Complete,
}

/// A locally listed archive whose contents were loaded.
#[derive(Clone, Debug)]
pub struct LocalArchiveLoaded {
    pub name: String,
    pub address: String,
    pub is_private: bool,
    pub files: Vec<LocalFileInArchive>,
}

/// A locally listed archive whose contents could not be loaded.
#[derive(Clone, Debug)]
pub struct LocalFailedArchive {
    pub name: String,
    pub address: String,
    pub is_private: bool,
}

/// A locally listed archive whose contents are still loading.
#[derive(Clone, Debug)]
pub struct LocalLoadingArchive {
    pub name: String,
    pub address: String,
    pub is_private: bool,
}

/// An individual locally known file, as streamed.
#[derive(Clone, Debug)]
pub struct LocalIndividualFile {
    pub name: String,
    pub address: String,
    pub is_private: bool,
}

/// One file inside a locally listed archive.
#[derive(Clone, Debug)]
pub struct LocalFileInArchive {
    pub path: String,
    pub metadata: crate::structure::Metadata,
    pub file_access: crate::structure::PublicOrPrivateFile,
    pub is_private: bool,
}

/// One streamed update of a local listing, tagged with the request's
/// correlation code.
#[derive(Clone, Debug)]
pub struct LocalUpdate {
    pub update_type: LocalUpdateType,
    pub archive: Option<LocalArchiveLoaded>,
    pub failed_archive: Option<LocalFailedArchive>,
    pub loading_archive: Option<LocalLoadingArchive>,
    pub files: Vec<LocalIndividualFile>,
    pub is_complete: bool,
    pub temp_code: String,
}

/// Why local storage could not be read or written.
#[derive(Clone, Debug)]
pub enum LocalStorageError {
    /// No local data directory could be found.
    NoDataDir,
    /// Could not read a file.
    ReadError(String),
    /// Could not write a file.
    WriteError(String),
    /// Could not parse a file.
    ParseError(String),
    /// Could not parse a hex address.
    HexError(String),
}

/// The outcome of loading one locally listed archive's contents.
pub struct LocalArchiveFetch {
    pub name: String,
    pub address: String,
    pub is_private: bool,
    pub files: Option<Vec<LocalFileInArchive>>,
}

/// The streamed update carrying a local listing's individual files.
pub fn local_update_individual_files(files: Vec<LocalIndividualFile>, temp_code: String) -> (r:
    LocalUpdate)
    ensures
        r.update_type == LocalUpdateType::IndividualFiles,
        r.archive.is_none(),
        r.failed_archive.is_none(),
        r.loading_archive.is_none(),
        r.files == files,
        r.is_complete == false,
        r.temp_code == temp_code,
{
    LocalUpdate {
        update_type: LocalUpdateType::IndividualFiles,
        archive: None,
        failed_archive: None,
        loading_archive: None,
        files,
        is_complete: false,
        temp_code,
    }
}

/// The streamed update announcing that a local archive's load began.
pub fn local_update_loading(name: String, address: String, is_private: bool, temp_code: String) -> (r:
    LocalUpdate)
    ensures
        r.update_type == LocalUpdateType::ArchiveLoading,
        r.archive.is_none(),
        r.failed_archive.is_none(),
        r.loading_archive == Some(LocalLoadingArchive { name, address, is_private }),
        r.files@.len() == 0,
        r.is_complete == false,
        r.temp_code == temp_code,
{
    LocalUpdate {
        update_type: LocalUpdateType::ArchiveLoading,
        archive: None,
        failed_archive: None,
        loading_archive: Some(LocalLoadingArchive { name, address, is_private }),
        files: Vec::new(),
        is_complete: false,
        temp_code,
    }
}

/// The streamed update carrying one local archive load's outcome: a
/// loaded archive or a failed one, never both.
pub fn local_update_for_fetch(fetch: LocalArchiveFetch, temp_code: String) -> (r: LocalUpdate)
    ensures
        r.temp_code == temp_code,
        r.is_complete == false,
        r.loading_archive.is_none(),
        r.files@.len() == 0,
        match fetch.files {
            Some(files) => {
                &&& r.update_type == LocalUpdateType::ArchiveLoaded
                &&& r.failed_archive.is_none()
                &&& r.archive == Some(
                    LocalArchiveLoaded {
                        name: fetch.name,
                        address: fetch.address,
                        is_private: fetch.is_private,
                        files,
                    },
                )
            },
            None => {
                &&& r.update_type == LocalUpdateType::ArchiveFailed
                &&& r.archive.is_none()
                &&& r.failed_archive == Some(
                    LocalFailedArchive {
                        name: fetch.name,
                        address: fetch.address,
                        is_private: fetch.is_private,
                    },
                )
            },
        },
{
    let LocalArchiveFetch { name, address, is_private, files } = fetch;
    match files {
        Some(files) => LocalUpdate {
            update_type: LocalUpdateType::ArchiveLoaded,
            archive: Some(LocalArchiveLoaded { name, address, is_private, files }),
            failed_archive: None,
            loading_archive: None,
            files: Vec::new(),
            is_complete: false,
            temp_code,
        },
        None => LocalUpdate {
            update_type: LocalUpdateType::ArchiveFailed,
            archive: None,
            failed_archive: Some(LocalFailedArchive { name, address, is_private }),
            loading_archive: None,
            files: Vec::new(),
            is_complete: false,
            temp_code,
        },
    }
}

/// The streamed update that closes a local listing.
pub fn local_update_complete(temp_code: String) -> (r: LocalUpdate)
    ensures
        r.update_type == LocalUpdateType::Complete,
        r.archive.is_none(),
        r.failed_archive.is_none(),
        r.loading_archive.is_none(),
        r.files@.len() == 0,
        r.is_complete == true,
        r.temp_code == temp_code,
{
    LocalUpdate {
        update_type: LocalUpdateType::Complete,
        archive: None,
        failed_archive: None,
        loading_archive: None,
        files: Vec::new(),
        is_complete: true,
        temp_code,
    }
}

/// Turns raw (address, name) listings of the four local stores into the
/// structured local file data, keeping each listing's order.
pub fn get_all_local_files(
    public_archive_listing: Vec<(String, String)>,
    private_archive_listing: Vec<(String, String)>,
    public_file_listing: Vec<(String, String)>,
    private_file_listing: Vec<(String, String)>,
) -> (r: LocalFileData)
    ensures
        r.public_file_archives@.len() == public_archive_listing@.len(),
        forall|i: int|
            0 <= i < public_archive_listing@.len() ==> (
            #[trigger] r.public_file_archives@[i]).address == public_archive_listing@[i].0
                && r.public_file_archives@[i].name == public_archive_listing@[i].1,
        r.private_file_archives@.len() == private_archive_listing@.len(),
        forall|i: int|
            0 <= i < private_archive_listing@.len() ==> (
            #[trigger] r.private_file_archives@[i]).address == private_archive_listing@[i].0
                && r.private_file_archives@[i].name == private_archive_listing@[i].1,
        r.public_files@.len() == public_file_listing@.len(),
        forall|i: int|
            0 <= i < public_file_listing@.len() ==> (#[trigger] r.public_files@[i]).address
                == public_file_listing@[i].0 && r.public_files@[i].name
                == public_file_listing@[i].1,
        r.private_files@.len() == private_file_listing@.len(),
        forall|i: int|
            0 <= i < private_file_listing@.len() ==> (#[trigger] r.private_files@[i]).address
                == private_file_listing@[i].0 && r.private_files@[i].name
                == private_file_listing@[i].1,
{
    let public_file_archives = archives_of_listing(public_archive_listing);
    let private_file_archives = archives_of_listing(private_archive_listing);
    let public_files = files_of_listing(public_file_listing);
    let private_files = files_of_listing(private_file_listing);
    LocalFileData { public_file_archives, private_file_archives, public_files, private_files }
}

fn archives_of_listing(listing: Vec<(String, String)>) -> (r: Vec<LocalArchive>)
    ensures
        r@.len() == listing@.len(),
        forall|i: int|
            0 <= i < listing@.len() ==> (#[trigger] r@[i]).address == listing@[i].0 && r@[i].name
                == listing@[i].1,
{
    let ghost source = listing@;
    let mut listing = listing;
    let n = listing.len();
    let mut out: Vec<LocalArchive> = Vec::new();
    let mut i: usize = 0;
    while i < n
        invariant
            n == source.len(),
            0 <= i <= n,
            listing@ == source.skip(i as int),
            out@.len() == i,
            forall|k: int|
                0 <= k < i ==> (#[trigger] out@[k]).address == source[k].0 && out@[k].name
                    == source[k].1,
        decreases n - i,
    {
        proof {
            assert(source.skip(i as int).first() == source[i as int]);
            assert(source.skip(i as int).subrange(1, source.skip(i as int).len() as int)
                =~= source.skip(i + 1));
        }
        let (address, name) = listing.remove(0);
        out.push(LocalArchive { name, address });
        i += 1;
    }
    out
}

fn files_of_listing(listing: Vec<(String, String)>) -> (r: Vec<LocalFile>)
    ensures
        r@.len() == listing@.len(),
        forall|i: int|
            0 <= i < listing@.len() ==> (#[trigger] r@[i]).address == listing@[i].0 && r@[i].name
                == listing@[i].1,
{
    let ghost source = listing@;
    let mut listing = listing;
    let n = listing.len();
    let mut out: Vec<LocalFile> = Vec::new();
    let mut i: usize = 0;
    while i < n
        invariant
            n == source.len(),
            0 <= i <= n,
            listing@ == source.skip(i as int),
            out@.len() == i,
            forall|k: int|
                0 <= k < i ==> (#[trigger] out@[k]).address == source[k].0 && out@[k].name
                    == source[k].1,
        decreases n - i,
    {
        proof {
            assert(source.skip(i as int).first() == source[i as int]);
            assert(source.skip(i as int).subrange(1, source.skip(i as int).len() as int)
                =~= source.skip(i + 1));
        }
        let (address, name) = listing.remove(0);
        out.push(LocalFile { name, address });
        i += 1;
    }
    out
}

/// The individual files of a local listing, as streamed: public files
/// first, then private ones, each carrying its privacy.
pub fn local_individual_files(data: &LocalFileData) -> (r: Vec<LocalIndividualFile>)
    ensures
        r@.len() == data.public_files@.len() + data.private_files@.len(),
        forall|i: int|
            0 <= i < data.public_files@.len() ==> (#[trigger] r@[i]).name
                == data.public_files@[i].name && r@[i].address == data.public_files@[i].address
                && r@[i].is_private == false,
        forall|i: int|
            data.public_files@.len() <= i < r@.len() ==> (#[trigger] r@[i]).name
                == data.private_files@[i - data.public_files@.len()].name && r@[i].address
                == data.private_files@[i - data.public_files@.len()].address && r@[i].is_private
                == true,
{
    let mut out: Vec<LocalIndividualFile> = Vec::new();
    let n = data.public_files.len();
    let mut i: usize = 0;
    while i < n
        invariant
            n == data.public_files@.len(),
            0 <= i <= n,
            out@.len() == i,
            forall|k: int|
                0 <= k < i ==> (#[trigger] out@[k]).name == data.public_files@[k].name
                    && out@[k].address == data.public_files@[k].address && out@[k].is_private
                    == false,
        decreases n - i,
    {
        let file = &data.public_files[i];
        out.push(
            LocalIndividualFile {
                name: crate::upload::clone_string(&file.name),
                address: crate::upload::clone_string(&file.address),
                is_private: false,
            },
        );
        i += 1;
    }
    let m = data.private_files.len();
    let mut j: usize = 0;
    while j < m
        invariant
            n == data.public_files@.len(),
            m == data.private_files@.len(),
            0 <= j <= m,
            out@.len() == n + j,
            forall|k: int|
                0 <= k < n ==> (#[trigger] out@[k]).name == data.public_files@[k].name
                    && out@[k].address == data.public_files@[k].address && out@[k].is_private
                    == false,
            forall|k: int|
                n <= k < out@.len() ==> (#[trigger] out@[k]).name == data.private_files@[k
                    - n].name && out@[k].address == data.private_files@[k - n].address
                    && out@[k].is_private == true,
        decreases m - j,
    {
        let file = &data.private_files[j];
        out.push(
            LocalIndividualFile {
                name: crate::upload::clone_string(&file.name),
                address: crate::upload::clone_string(&file.address),
                is_private: true,
            },
        );
        j += 1;
    }
    out
}

} // verus!
