//! The vault's structure as presented to the caller: archives, failed
//! archives and individual files, assembled from fetched user data.

use vstd::prelude::*;

use crate::types::{Addr, DataMap};

verus! {

/// Model of a stored file's metadata.
#[derive(Clone, Copy, PartialEq, Eq, Structural, Debug)]
pub struct Metadata {
    pub created: u64,
    pub modified: u64,
    pub size: u64,
}

/// How a file in the vault is reached: by public address, or through a
/// private datamap reference.
#[derive(Clone, Copy, PartialEq, Eq, Structural, Debug)]
pub enum PublicOrPrivateFile {
    Public(Addr),
    Private(DataMap),
}

/// One file listed by the vault.
pub struct FileFromVault {
    pub path: String,
    pub metadata: Metadata,
    pub file_access: PublicOrPrivateFile,
}

impl FileFromVault {
    pub fn new(path: String, metadata: Metadata, file_access: PublicOrPrivateFile) -> (r:
        FileFromVault)
        ensures
            r.path == path,
            r.metadata == metadata,
            r.file_access == file_access,
    {
        FileFromVault { path, metadata, file_access }
    }
}

/// An archive whose contents could not be fetched.
#[derive(Clone, Debug)]
pub struct FailedArchive {
    pub name: String,
    pub address: String,
    pub is_private: bool,
}

/// An archive whose contents are still being fetched.
#[derive(Clone, Debug)]
pub struct LoadingArchive {
    pub name: String,
    pub address: String,
    pub is_private: bool,
}

/// One file of an archive, or an individual file, as presented.
#[derive(Clone, Debug)]
pub struct FileMetadata {
    pub path: String,
    pub metadata: Metadata,
    pub file_type: crate::upload::FileType,
    pub is_loaded: bool,
    pub archive_name: String,
    pub access_data: Option<PublicOrPrivateFile>,
}

/// An archive and the files it lists.
#[derive(Clone, Debug)]
pub struct ArchiveInfo {
    pub name: String,
    pub address: String,
    pub is_private: bool,
    pub files: Vec<FileMetadata>,
}

/// The vault's whole structure.
#[derive(Debug)]
pub struct VaultStructure {
    pub archives: Vec<ArchiveInfo>,
    pub failed_archives: Vec<FailedArchive>,
    pub files: Vec<FileMetadata>,
}

/// The phases a streamed vault listing goes through.
#[derive(Clone, Copy, PartialEq, Eq, Structural, Debug)]
pub enum VaultUpdateType {
    IndividualFiles,
    ArchiveLoading,
    ArchiveLoaded,
    ArchiveFailed,
    Complete,
}

/// One streamed update of a vault listing, tagged with the request's
/// correlation code.
#[derive(Clone, Debug)]
pub struct VaultUpdate {
    pub update_type: VaultUpdateType,
    pub archive: Option<ArchiveInfo>,
    pub failed_archive: Option<FailedArchive>,
    pub loading_archive: Option<LoadingArchive>,
    pub files: Vec<FileMetadata>,
    pub is_complete: bool,
    pub temp_code: String,
}

/// The outcome of fetching one archive's contents.
pub struct ArchiveFetch {
    pub name: String,
    pub address: String,
    pub is_private: bool,
    pub files: Option<Vec<FileMetadata>>,
}

impl VaultStructure {
    pub fn new() -> (r: VaultStructure)
        ensures
            r.archives@.len() == 0,
            r.failed_archives@.len() == 0,
            r.files@.len() == 0,
    {
        VaultStructure { archives: Vec::new(), failed_archives: Vec::new(), files: Vec::new() }
    }

    /// Folds one archive fetch into the structure: a fetched archive joins
    /// the archive list with its files; a failed fetch joins the failed
    /// list; nothing else moves.
    pub fn apply_archive_fetch(&mut self, fetch: ArchiveFetch)
        ensures
            final(self).files@ == old(self).files@,
            match fetch.files {
                Some(files) => {
                    &&& final(self).failed_archives@ == old(self).failed_archives@
                    &&& final(self).archives@.len() == old(self).archives@.len() + 1
                    &&& final(self).archives@.take(old(self).archives@.len() as int) == old(
                        self,
                    ).archives@
                    &&& final(self).archives@.last().name == fetch.name
                    &&& final(self).archives@.last().address == fetch.address
                    &&& final(self).archives@.last().is_private == fetch.is_private
                    &&& final(self).archives@.last().files == files
                },
                None => {
                    &&& final(self).archives@ == old(self).archives@
                    &&& final(self).failed_archives@.len() == old(self).failed_archives@.len() + 1
                    &&& final(self).failed_archives@.take(old(self).failed_archives@.len() as int)
                        == old(self).failed_archives@
                    &&& final(self).failed_archives@.last().name == fetch.name
                    &&& final(self).failed_archives@.last().address == fetch.address
                    &&& final(self).failed_archives@.last().is_private == fetch.is_private
                },
            },
    {
        let ArchiveFetch { name, address, is_private, files } = fetch;
        match files {
            Some(files) => {
                let ghost before = self.archives@;
                self.archives.push(ArchiveInfo { name, address, is_private, files });
                proof {
                    assert(self.archives@.take(before.len() as int) =~= before);
                }
            },
            None => {
                let ghost before = self.failed_archives@;
                self.failed_archives.push(FailedArchive { name, address, is_private });
                proof {
                    assert(self.failed_archives@.take(before.len() as int) =~= before);
                }
            },
        }
    }
}

/// The streamed update carrying a vault listing's individual files.
pub fn vault_update_individual_files(files: Vec<FileMetadata>, temp_code: String) -> (r:
    VaultUpdate)
    ensures
        r.update_type == VaultUpdateType::IndividualFiles,
        r.archive.is_none(),
        r.failed_archive.is_none(),
        r.loading_archive.is_none(),
        r.files == files,
        r.is_complete == false,
        r.temp_code == temp_code,
{
    VaultUpdate {
        update_type: VaultUpdateType::IndividualFiles,
        archive: None,
        failed_archive: None,
        loading_archive: None,
        files,
        is_complete: false,
        temp_code,
    }
}

/// The streamed update announcing that an archive's fetch began.
pub fn vault_update_loading(name: String, address: String, is_private: bool, temp_code: String) -> (r:
    VaultUpdate)
    ensures
        r.update_type == VaultUpdateType::ArchiveLoading,
        r.archive.is_none(),
        r.failed_archive.is_none(),
        r.loading_archive == Some(LoadingArchive { name, address, is_private }),
        r.files@.len() == 0,
        r.is_complete == false,
        r.temp_code == temp_code,
{
    VaultUpdate {
        update_type: VaultUpdateType::ArchiveLoading,
        archive: None,
        failed_archive: None,
        loading_archive: Some(LoadingArchive { name, address, is_private }),
        files: Vec::new(),
        is_complete: false,
        temp_code,
    }
}

/// The streamed update carrying one archive fetch's outcome: a loaded
/// archive or a failed one, never both.
pub fn vault_update_for_fetch(fetch: ArchiveFetch, temp_code: String) -> (r: VaultUpdate)
    ensures
        r.temp_code == temp_code,
        r.is_complete == false,
        r.loading_archive.is_none(),
        r.files@.len() == 0,
        match fetch.files {
            Some(files) => {
                &&& r.update_type == VaultUpdateType::ArchiveLoaded
                &&& r.failed_archive.is_none()
                &&& r.archive == Some(
                    ArchiveInfo {
                        name: fetch.name,
                        address: fetch.address,
                        is_private: fetch.is_private,
                        files,
                    },
                )
            },
            None => {
                &&& r.update_type == VaultUpdateType::ArchiveFailed
                &&& r.archive.is_none()
                &&& r.failed_archive == Some(
                    FailedArchive {
                        name: fetch.name,
                        address: fetch.address,
                        is_private: fetch.is_private,
                    },
                )
            },
        },
{
    let ArchiveFetch { name, address, is_private, files } = fetch;
    match files {
        Some(files) => VaultUpdate {
            update_type: VaultUpdateType::ArchiveLoaded,
            archive: Some(ArchiveInfo { name, address, is_private, files }),
            failed_archive: None,
            loading_archive: None,
            files: Vec::new(),
            is_complete: false,
            temp_code,
        },
        None => VaultUpdate {
            update_type: VaultUpdateType::ArchiveFailed,
            archive: None,
            failed_archive: Some(FailedArchive { name, address, is_private }),
            loading_archive: None,
            files: Vec::new(),
            is_complete: false,
            temp_code,
        },
    }
}

/// The streamed update that closes a vault listing.
pub fn vault_update_complete(temp_code: String) -> (r: VaultUpdate)
    ensures
        r.update_type == VaultUpdateType::Complete,
        r.archive.is_none(),
        r.failed_archive.is_none(),
        r.loading_archive.is_none(),
        r.files@.len() == 0,
        r.is_complete == true,
        r.temp_code == temp_code,
{
    VaultUpdate {
        update_type: VaultUpdateType::Complete,
        archive: None,
        failed_archive: None,
        loading_archive: None,
        files: Vec::new(),
        is_complete: true,
        temp_code,
    }
}

} // verus!
