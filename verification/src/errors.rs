//! Error taxonomy of the server core.
//!
//! Client errors are reported and the process keeps serving; errors of a
//! secondary store after the priority index committed are fatal for the
//! process, which the caller surfaces and halts on.

use vstd::prelude::*;

verus! {

/// Every error the coordination layer reports, as a closed set of codes.
#[derive(Debug, Clone, Copy, PartialEq, Eq, Structural)]
pub enum ApiErr {
    CouldNotCreateDirectory,
    CouldNotGetChunkFromPayload,
    CouldNotParseChunk,
    MissingHeaders,
    MalformedHeaders,
    MissingPriority,
    InvalidPriority,
    MissingBytesizeOverride,
    InvalidBytesizeOverride,
    FileStorageNotConfigured,
    CouldNotFindFileStorage,
    PayloadError,
    MsgExceedesStoreMax,
    MsgExceedesGroupMax,
    MsgLacksPriority,
    StoreError,
    DatabaseError,
    SyncError,
    CouldNotUpdateConfiguration,
}

impl ApiErr {
    /// The stable text code of this error, as responses print it.
    pub fn code(&self) -> (r: &'static str)
        ensures
            self is CouldNotParseChunk ==> r@ == "COULD_NOT_PARSE_CHUNK"@,
            self is MissingPriority ==> r@ == "MISSING_PRIORITY"@,
            self is InvalidPriority ==> r@ == "INVALID_PRIORITY"@,
    {
        match self {
            ApiErr::CouldNotCreateDirectory => "COULD_NOT_CREATE_DIRECTORY",
            ApiErr::CouldNotGetChunkFromPayload => "COULD_NOT_GET_CHUNK_FROM_PAYLOAD",
            ApiErr::CouldNotParseChunk => "COULD_NOT_PARSE_CHUNK",
            ApiErr::MissingHeaders => "MISSING_HEADERS",
            ApiErr::MalformedHeaders => "MALFORMED_HEADERS",
            ApiErr::MissingPriority => "MISSING_PRIORITY",
            ApiErr::InvalidPriority => "INVALID_PRIORITY",
            ApiErr::MissingBytesizeOverride => "MISSING_BYTESIZE_OVERRIDE",
            ApiErr::InvalidBytesizeOverride => "INVALID_BYTESIZE_OVERRIDE",
            ApiErr::FileStorageNotConfigured => "FILE_STORAGE_NOT_CONFIGURED",
            ApiErr::CouldNotFindFileStorage => "COULD_NOT_FIND_FILE_STORAGE",
            ApiErr::PayloadError => "PAYLOAD_ERROR",
            ApiErr::MsgExceedesStoreMax => "EXCEEDES_STORE_MAX",
            ApiErr::MsgExceedesGroupMax => "EXCEEDES_GROUP_MAX",
            ApiErr::MsgLacksPriority => "MSG_LACKS_PRIORITY",
            ApiErr::StoreError => "STORE_ERROR",
            ApiErr::DatabaseError => "DATABASE_ERROR",
            ApiErr::SyncError => "SYNC_ERROR",
            ApiErr::CouldNotUpdateConfiguration => "COULD_NOT_UPDATE_CONFIGURATION",
        }
    }

    /// Whether the error is fatal for the process: a secondary store failed
    /// after the priority index already committed, so the stores may have
    /// diverged and the caller must stop serving rather than continue.
    pub open spec fn fatal(self) -> bool {
        self is StoreError || self is DatabaseError || self is SyncError
            || self is CouldNotFindFileStorage
    }

    /// Executable form of [`Self::fatal`].
    pub fn is_fatal(&self) -> (r: bool)
        ensures
            r == self.fatal(),
    {
        match self {
            ApiErr::StoreError => true,
            ApiErr::DatabaseError => true,
            ApiErr::SyncError => true,
            ApiErr::CouldNotFindFileStorage => true,
            _ => false,
        }
    }
}

/// Marks a failure to create a directory at the named site.
pub fn could_not_create_directory(_file: &'static str, _line: u32) -> (r: ApiErr)
    ensures
        r == ApiErr::CouldNotCreateDirectory,
{
    ApiErr::CouldNotCreateDirectory
}

/// Marks a failure to pull the next chunk from a payload.
pub fn could_not_get_chunk_from_payload(_file: &'static str, _line: u32) -> (r: ApiErr)
    ensures
        r == ApiErr::CouldNotGetChunkFromPayload,
{
    ApiErr::CouldNotGetChunkFromPayload
}

/// Marks a chunk that could not be decoded as text.
pub fn could_not_parse_chunk(_file: &'static str, _line: u32) -> (r: ApiErr)
    ensures
        r == ApiErr::CouldNotParseChunk,
{
    ApiErr::CouldNotParseChunk
}

/// Marks an unexpected failure of the priority index.
pub fn store_error(_file: &'static str, _line: u32) -> (r: ApiErr)
    ensures
        r == ApiErr::StoreError,
{
    ApiErr::StoreError
}

/// Marks an unexpected failure of the persistent record store.
pub fn database_error(_file: &'static str, _line: u32) -> (r: ApiErr)
    ensures
        r == ApiErr::DatabaseError,
{
    ApiErr::DatabaseError
}

/// Records one error at the named site and hands it back for propagation.
pub fn log_err(error: ApiErr, _file: &'static str, _line: u32) -> (r: ApiErr)
    ensures
        r == error,
{
    error
}

} // verus!
