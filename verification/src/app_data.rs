//! Persistent application settings, as values. Reading and writing them
//! to disk is the surrounding application's work.

use vstd::prelude::*;

verus! {

/// The application's persisted settings.
#[derive(Clone, Debug)]
pub struct AppData {
    pub download_path: Option<String>,
    pub peers: Option<Vec<String>>,
    pub use_paymaster: Option<bool>,
}

impl AppData {
    /// Settings before any are stored: no download path, no peers, and
    /// the paymaster switched off.
    pub fn initial() -> (r: AppData)
        ensures
            r.download_path.is_none(),
            r.peers.is_none(),
            r.use_paymaster == Some(false),
    {
        AppData { download_path: None, peers: None, use_paymaster: Some(false) }
    }
}

/// Why the settings file could not be loaded.
#[derive(Clone, Debug)]
pub enum LoadError {
    /// No home directory to look in.
    NoValidHome,
    /// Could not open the file.
    Open(OpenFileError),
    /// Could not read the file.
    Read(String),
    /// Could not parse the file.
    Toml(String),
}

/// Why the settings file could not be stored.
#[derive(Clone, Debug)]
pub enum StoreError {
    /// No home directory to write under.
    NoValidHome,
    /// Could not open the file.
    Open(OpenFileError),
    /// The file is read-only.
    ReadOnly,
    /// Could not write to the file.
    Write(String),
    /// Could not serialize the settings.
    Toml(String),
}

/// Why a settings file could not be opened.
#[derive(Clone, Debug)]
pub enum OpenFileError {
    /// Failed to create the file's parent directories.
    CreateAllDirs(String),
    /// Querying the file's metadata failed.
    QueryMetadata(String),
    /// Failed to restrict the file's permissions.
    SetPermissions(String),
    /// Failed to open the file.
    Open(String),
}

} // verus!
