use vstd::prelude::*;

verus! {

/// A terminal failure of one build step.  Variants that report a
/// collaborator's failure carry the collaborator's message.
#[derive(Debug)]
pub enum BuildError {
    DownloadFailed(String),
    ExtractionFailed,
    MountFailed,
    UnmountFailed,
    CommandFailed(String),
    FetchFailed(String),
    FilesystemError,
    EmptyCommand,
}

/// A failure of configuration discovery or loading.
#[derive(Debug)]
pub enum ConfigError {
    ConfigNotFound,
    ConfigParseError(String),
    ConfigValidationError(String),
}

} // verus!
