use vstd::prelude::*;
use vstd::string::*;

use crate::format::LimitViolation;
use crate::format::MAX_LINE_BYTES;
use crate::format::MAX_LINES_PER_NOTE;
use crate::format::MAX_NOTES_PER_NOTEBOOK;
use crate::text::{decimal, push_decimal};

verus! {

/// Every way a storage operation can fail. The payload is the human-readable detail.
#[derive(Debug, Clone, PartialEq, Eq)]
pub enum StorageError {
    Io(String),
    Serialization(String),
    Database(String),
    WebSocket(String),
    NotFound(String),
    Conflict(String),
    InvalidState(String),
    InvalidInput(String),
    CorruptedData(String),
    TooLarge(String),
}

/// Failures of a sync cycle.
#[derive(Debug, Clone, PartialEq, Eq)]
pub enum SyncError {
    Storage(StorageError),
    Conflict { local_id: String, remote_id: String },
    Failed(String),
}

/// The sentence that describes a limit violation.
pub open spec fn limit_message(v: LimitViolation) -> Seq<char> {
    match v {
        LimitViolation::LineTooLong { bytes } => "line of "@ + decimal(bytes as nat)
            + " bytes exceeds the format limit of "@ + decimal(MAX_LINE_BYTES as nat) + " bytes"@,
        LimitViolation::TooManyLines { lines } => "note of "@ + decimal(lines as nat)
            + " lines exceeds the format limit of "@ + decimal(MAX_LINES_PER_NOTE as nat)
            + " lines"@,
        LimitViolation::NotebookFull { notes } => "notebook already holds "@ + decimal(
            notes as nat,
        ) + " notes, the format limit of "@ + decimal(MAX_NOTES_PER_NOTEBOOK as nat) + " notes"@,
    }
}

impl LimitViolation {
    /// The human-readable sentence for this violation.
    pub fn message(&self) -> (r: String)
        ensures
            r@ == limit_message(*self),
    {
        let mut out = String::new();
        match self {
            LimitViolation::LineTooLong { bytes } => {
                out.append("line of ");
                push_decimal(&mut out, *bytes as u64);
                out.append(" bytes exceeds the format limit of ");
                push_decimal(&mut out, MAX_LINE_BYTES as u64);
                out.append(" bytes");
            },
            LimitViolation::TooManyLines { lines } => {
                out.append("note of ");
                push_decimal(&mut out, *lines as u64);
                out.append(" lines exceeds the format limit of ");
                push_decimal(&mut out, MAX_LINES_PER_NOTE as u64);
                out.append(" lines");
            },
            LimitViolation::NotebookFull { notes } => {
                out.append("notebook already holds ");
                push_decimal(&mut out, *notes as u64);
                out.append(" notes, the format limit of ");
                push_decimal(&mut out, MAX_NOTES_PER_NOTEBOOK as u64);
                out.append(" notes");
            },
        }
        out
    }
}

/// The storage error that a limit violation surfaces as: `TooLarge` with its sentence.
pub fn storage_error_from_limit(v: &LimitViolation) -> (r: StorageError)
    ensures
        r matches StorageError::TooLarge(m) && m@ == limit_message(*v),
{
    StorageError::TooLarge(v.message())
}

/// The prefix each storage error kind puts before its detail.
pub open spec fn storage_error_prefix(e: StorageError) -> Seq<char> {
    match e {
        StorageError::Io(_) => "I/O error: "@,
        StorageError::Serialization(_) => "Serialization error: "@,
        StorageError::Database(_) => "Database error: "@,
        StorageError::WebSocket(_) => "WebSocket error: "@,
        StorageError::NotFound(_) => "Not found: "@,
        StorageError::Conflict(_) => "Conflict: "@,
        StorageError::InvalidState(_) => "Invalid state: "@,
        StorageError::InvalidInput(_) => "Invalid input: "@,
        StorageError::CorruptedData(_) => "Corrupted data: "@,
        StorageError::TooLarge(_) => "Too large: "@,
    }
}

/// The detail a storage error carries.
pub open spec fn storage_error_detail(e: StorageError) -> Seq<char> {
    match e {
        StorageError::Io(m) => m@,
        StorageError::Serialization(m) => m@,
        StorageError::Database(m) => m@,
        StorageError::WebSocket(m) => m@,
        StorageError::NotFound(m) => m@,
        StorageError::Conflict(m) => m@,
        StorageError::InvalidState(m) => m@,
        StorageError::InvalidInput(m) => m@,
        StorageError::CorruptedData(m) => m@,
        StorageError::TooLarge(m) => m@,
    }
}

impl StorageError {
    /// The human-readable text of the error: its kind's prefix, then its detail.
    pub fn message(&self) -> (r: String)
        ensures
            r@ == storage_error_prefix(*self) + storage_error_detail(*self),
    {
        let mut out = String::new();
        let detail = match self {
            StorageError::Io(m) => {
                out.append("I/O error: ");
                m
            },
            StorageError::Serialization(m) => {
                out.append("Serialization error: ");
                m
            },
            StorageError::Database(m) => {
                out.append("Database error: ");
                m
            },
            StorageError::WebSocket(m) => {
                out.append("WebSocket error: ");
                m
            },
            StorageError::NotFound(m) => {
                out.append("Not found: ");
                m
            },
            StorageError::Conflict(m) => {
                out.append("Conflict: ");
                m
            },
            StorageError::InvalidState(m) => {
                out.append("Invalid state: ");
                m
            },
            StorageError::InvalidInput(m) => {
                out.append("Invalid input: ");
                m
            },
            StorageError::CorruptedData(m) => {
                out.append("Corrupted data: ");
                m
            },
            StorageError::TooLarge(m) => {
                out.append("Too large: ");
                m
            },
        };
        out.append(detail.as_str());
        out
    }
}

} // verus!
