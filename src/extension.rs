//! Records and errors exchanged with the host's collaborators.
use vstd::prelude::*;
use crate::text::concat;

verus! {

/// A failure to read a text file of a worktree.
#[derive(Debug, Clone)]
pub enum ReadTextFileError {
    Internal(String),
}

impl ReadTextFileError {
    /// The text shown for this error.
    pub fn message(&self) -> (r: String)
        ensures
            match self {
                ReadTextFileError::Internal(e) => r@ == "failed to read text file: "@ + e@,
            },
    {
        match self {
            ReadTextFileError::Internal(e) => concat("failed to read text file: ", e.as_str()),
        }
    }
}

/// The project around the worktrees an extension sees.
pub trait ProjectDelegate {
    fn worktree_ids(&self) -> Vec<u64>;
}

/// A failure to store a key-value pair.
#[derive(Debug, Clone)]
pub enum KeyValueInsertError {
    Internal(String),
}

impl KeyValueInsertError {
    /// The text shown for this error.
    pub fn message(&self) -> (r: String)
        ensures
            match self {
                KeyValueInsertError::Internal(e) => r@ == "failed to insert key-value pair: "@ + e@,
            },
    {
        match self {
            KeyValueInsertError::Internal(e) => concat(
                "failed to insert key-value pair: ",
                e.as_str(),
            ),
        }
    }
}

/// A failure to run a process.
#[derive(Debug, Clone)]
pub enum ProcessError {
    Internal(String),
}

impl ProcessError {
    /// The text shown for this error.
    pub fn message(&self) -> (r: String)
        ensures
            match self {
                ProcessError::Internal(e) => r@ == "failed to run command: "@ + e@,
            },
    {
        match self {
            ProcessError::Internal(e) => concat("failed to run command: ", e.as_str()),
        }
    }
}

/// What a finished process left.
#[derive(Debug, Clone)]
pub struct Output {
    pub status: Option<i32>,
    pub stdout: Vec<u8>,
    pub stderr: Vec<u8>,
}

/// A failure of the Node.js runtime.
#[derive(Debug, Clone)]
pub enum NodeRuntimeError {
    Internal(String),
}

impl NodeRuntimeError {
    /// The text shown for this error.
    pub fn message(&self) -> (r: String)
        ensures
            match self {
                NodeRuntimeError::Internal(e) => r@ == e@,
            },
    {
        match self {
            NodeRuntimeError::Internal(e) => e.clone(),
        }
    }
}

/// How long a toast stays.
#[derive(Debug, Clone, Copy, PartialEq, Eq, Structural)]
pub enum ToastDuration {
    Short,
    Long,
}

/// The type of a downloaded file.
#[derive(Debug, Clone, Copy, PartialEq, Eq, Structural)]
pub enum DownloadedFileType {
    /// A gzipped file (`.gz`).
    Gzip,
    /// A gzipped tar archive (`.tar.gz`).
    GzipTar,
    /// A ZIP file (`.zip`).
    Zip,
    /// An uncompressed file.
    Uncompressed,
}

/// Where the installation of a language server stands.
#[derive(Debug, Clone)]
pub enum LanguageServerInstallationStatus {
    /// Nothing is being installed.
    Idle,
    Downloading,
    CheckingForUpdate,
    Failed(String),
}

/// The place that settings are read for.
#[derive(Debug, Clone)]
pub struct SettingsLocation {
    pub worktree_id: u64,
    pub path: String,
}

/// A failure to read settings.
#[derive(Debug, Clone)]
pub enum SettingsImportError {
    UnknownCategory { category: String },
    Unsupported(String),
    InvalidLocation,
    SerializationError(String),
    Internal(String),
}

impl SettingsImportError {
    /// The text shown for this error.
    pub fn message(&self) -> (r: String)
        ensures
            match self {
                SettingsImportError::UnknownCategory { category } => r@ == "unknown settings category: "@
                    + category@,
                SettingsImportError::Unsupported(e) => r@ == "unsupported context server settings: "@
                    + e@,
                SettingsImportError::InvalidLocation => r@ == "invalid settings location"@,
                SettingsImportError::SerializationError(e) => r@ == "failed to serialize settings: "@
                    + e@,
                SettingsImportError::Internal(e) => r@ == "internal error: "@ + e@,
            },
    {
        match self {
            SettingsImportError::UnknownCategory { category } => concat(
                "unknown settings category: ",
                category.as_str(),
            ),
            SettingsImportError::Unsupported(e) => concat(
                "unsupported context server settings: ",
                e.as_str(),
            ),
            SettingsImportError::InvalidLocation => String::from_str("invalid settings location"),
            SettingsImportError::SerializationError(e) => concat(
                "failed to serialize settings: ",
                e.as_str(),
            ),
            SettingsImportError::Internal(e) => concat("internal error: ", e.as_str()),
        }
    }
}

/// The identity of an installed extension.
#[derive(Debug, Clone)]
pub struct Manifest {
    pub id: String,
    pub name: String,
    pub version: String,
    pub description: Option<String>,
    pub repository: Option<String>,
}

/// An error of the runtime, as one text.
#[derive(Debug, Clone)]
pub enum ExtensionRuntimeError {
    Inner(String),
}

impl ExtensionRuntimeError {
    /// The text shown for this error.
    pub fn message(&self) -> (r: String)
        ensures
            match self {
                ExtensionRuntimeError::Inner(e) => r@ == e@,
            },
    {
        match self {
            ExtensionRuntimeError::Inner(e) => e.clone(),
        }
    }
}

} // verus!
