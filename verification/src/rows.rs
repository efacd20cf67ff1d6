use vstd::prelude::*;

use crate::error::StorageError;
use crate::ids::{parse_uuid, uuid_parse, NIL_ID};
use crate::journal::{chrono_parse_utc, parse_utc_nanos};
use crate::links::{Bookmark, NoteLink};
use crate::models::{Note, Notebook, Resource, Tag};
use crate::version_vector::VersionVector;

verus! {

/// The columns of a row of the notes table, in table order, as plain values; the JSON
/// columns (bookmarks, links, version vector) come decoded.
#[derive(Debug, Clone)]
pub struct NoteRow {
    pub id: String,
    pub title: String,
    pub body: String,
    pub notebook_id: Option<String>,
    pub is_todo: i64,
    pub todo_due: Option<String>,
    pub todo_completed: Option<String>,
    pub created_at: String,
    pub updated_at: String,
    pub deleted_at: Option<String>,
    pub alias: Option<String>,
    pub bookmarks: Vec<Bookmark>,
    pub links: Vec<NoteLink>,
    pub vv: VersionVector,
    pub last_writer: String,
    pub is_pinned: i64,
    pub is_starred: i64,
    pub sort_key: i64,
}

/// The columns of a row of the notebooks table.
#[derive(Debug, Clone)]
pub struct NotebookRow {
    pub id: String,
    pub title: String,
    pub created_at: String,
    pub updated_at: String,
    pub deleted_at: Option<String>,
    pub alias: Option<String>,
    pub vv: VersionVector,
    pub last_writer: String,
}

/// The columns of a row of the tags table.
#[derive(Debug, Clone)]
pub struct TagRow {
    pub id: String,
    pub title: String,
    pub created_at: String,
    pub updated_at: String,
    pub deleted_at: Option<String>,
    pub vv: VersionVector,
    pub last_writer: String,
    pub system: i64,
}

/// The columns of a row of the resources table.
#[derive(Debug, Clone)]
pub struct ResourceRow {
    pub id: String,
    pub title: String,
    pub mime_type: String,
    pub file_name: String,
    pub size: i64,
    pub created_at: String,
    pub deleted_at: Option<String>,
    pub vv: VersionVector,
    pub last_writer: String,
}

/// What an optional time column reads as: `Some(None)` when it is empty, `Some(Some(t))`
/// when its text names the instant `t`, and `None` when its text names no instant.
pub open spec fn optional_time(s: Option<String>) -> Option<Option<i128>> {
    match s {
        None => Some(None),
        Some(v) => match chrono_parse_utc(v@) {
            Some(t) => Some(Some(t)),
            None => None,
        },
    }
}

/// What the notebook column of a note row reads as: the nil id when it is empty, else
/// the id its text names (`None` when it names none).
pub open spec fn notebook_column(s: Option<String>) -> Option<u128> {
    match s {
        None => Some(NIL_ID),
        Some(v) => uuid_parse(v@),
    }
}

/// The sort key that an integer column holds: zero for a negative number, else the
/// number cut to 32 bits.
pub open spec fn sort_key_column(k: i64) -> u32 {
    if k < 0 {
        0
    } else {
        k as u32
    }
}

/// The note a row stands for, or `None` when one of its id or time columns does not
/// read.
pub open spec fn note_of_row(row: NoteRow) -> Option<Note> {
    match (
        uuid_parse(row.id@),
        notebook_column(row.notebook_id),
        optional_time(row.todo_due),
        optional_time(row.todo_completed),
        chrono_parse_utc(row.created_at@),
        chrono_parse_utc(row.updated_at@),
        optional_time(row.deleted_at),
    ) {
        (Some(id), Some(nb), Some(due), Some(done), Some(c), Some(u), Some(d)) => Some(
            Note {
                id: id,
                title: row.title,
                body: row.body,
                notebook_id: nb,
                is_todo: row.is_todo != 0,
                todo_due: due,
                todo_completed: done,
                created_at: c,
                updated_at: u,
                deleted_at: d,
                alias: row.alias,
                bookmarks: row.bookmarks,
                links: row.links,
                vv: row.vv,
                last_writer: row.last_writer,
                is_pinned: row.is_pinned != 0,
                is_starred: row.is_starred != 0,
                sort_key: sort_key_column(row.sort_key),
            },
        ),
        _ => None,
    }
}

/// The notebook a row stands for, or `None` when one of its id or time columns does not
/// read.
pub open spec fn notebook_of_row(row: NotebookRow) -> Option<Notebook> {
    match (
        uuid_parse(row.id@),
        chrono_parse_utc(row.created_at@),
        chrono_parse_utc(row.updated_at@),
        optional_time(row.deleted_at),
    ) {
        (Some(id), Some(c), Some(u), Some(d)) => Some(
            Notebook {
                id: id,
                title: row.title,
                created_at: c,
                updated_at: u,
                deleted_at: d,
                alias: row.alias,
                vv: row.vv,
                last_writer: row.last_writer,
            },
        ),
        _ => None,
    }
}

/// The tag a row stands for, or `None` when one of its id or time columns does not read.
pub open spec fn tag_of_row(row: TagRow) -> Option<Tag> {
    match (
        uuid_parse(row.id@),
        chrono_parse_utc(row.created_at@),
        chrono_parse_utc(row.updated_at@),
        optional_time(row.deleted_at),
    ) {
        (Some(id), Some(c), Some(u), Some(d)) => Some(
            Tag {
                id: id,
                title: row.title,
                created_at: c,
                updated_at: u,
                deleted_at: d,
                vv: row.vv,
                last_writer: row.last_writer,
                system: row.system != 0,
            },
        ),
        _ => None,
    }
}

/// The resource a row stands for, or `None` when one of its id or time columns does not
/// read; the size column's number is taken as unsigned, bit for bit.
pub open spec fn resource_of_row(row: ResourceRow) -> Option<Resource> {
    match (
        uuid_parse(row.id@),
        chrono_parse_utc(row.created_at@),
        optional_time(row.deleted_at),
    ) {
        (Some(id), Some(c), Some(d)) => Some(
            Resource {
                id: id,
                title: row.title,
                mime_type: row.mime_type,
                file_name: row.file_name,
                size: row.size as u64,
                created_at: c,
                deleted_at: d,
                vv: row.vv,
                last_writer: row.last_writer,
            },
        ),
        _ => None,
    }
}

/// Reads an id column; a text that names no id is an invalid state, with the id
/// parser's message.
pub fn parse_id_column(s: &str) -> (r: Result<u128, StorageError>)
    ensures
        match r {
            Ok(v) => uuid_parse(s@) == Some(v),
            Err(e) => uuid_parse(s@) is None && e is InvalidState,
        },
{
    match parse_uuid(s) {
        Ok(v) => Ok(v),
        Err(m) => Err(StorageError::InvalidState(m)),
    }
}

/// Reads a time column that must hold an instant; a text that names none is an invalid
/// state, with the time parser's message.
pub fn parse_required_dt(s: &str) -> (r: Result<i128, StorageError>)
    ensures
        match r {
            Ok(t) => chrono_parse_utc(s@) == Some(t),
            Err(e) => chrono_parse_utc(s@) is None && e is InvalidState,
        },
{
    match parse_utc_nanos(s) {
        Ok(t) => Ok(t),
        Err(m) => Err(StorageError::InvalidState(m)),
    }
}

/// Reads a time column that may be empty; a text that names no instant is an invalid
/// state, with the time parser's message.
pub fn parse_optional_dt(s: &Option<String>) -> (r: Result<Option<i128>, StorageError>)
    ensures
        match r {
            Ok(t) => optional_time(*s) == Some(t),
            Err(e) => optional_time(*s) is None && e is InvalidState,
        },
{
    match s {
        None => Ok(None),
        Some(v) => match parse_required_dt(v.as_str()) {
            Ok(t) => Ok(Some(t)),
            Err(e) => Err(e),
        },
    }
}

/// The note a row of the notes table stands for (see [`note_of_row`]); a row whose id or
/// time columns do not read is an invalid state.
pub fn row_to_note(row: NoteRow) -> (r: Result<Note, StorageError>)
    ensures
        match r {
            Ok(n) => note_of_row(row) == Some(n),
            Err(e) => note_of_row(row) is None && e is InvalidState,
        },
{
    let id = match parse_id_column(row.id.as_str()) {
        Ok(v) => v,
        Err(e) => {
            return Err(e);
        },
    };
    let notebook_id = match &row.notebook_id {
        None => NIL_ID,
        Some(s) => match parse_id_column(s.as_str()) {
            Ok(v) => v,
            Err(e) => {
                return Err(e);
            },
        },
    };
    let todo_due = match parse_optional_dt(&row.todo_due) {
        Ok(t) => t,
        Err(e) => {
            return Err(e);
        },
    };
    let todo_completed = match parse_optional_dt(&row.todo_completed) {
        Ok(t) => t,
        Err(e) => {
            return Err(e);
        },
    };
    let created_at = match parse_required_dt(row.created_at.as_str()) {
        Ok(t) => t,
        Err(e) => {
            return Err(e);
        },
    };
    let updated_at = match parse_required_dt(row.updated_at.as_str()) {
        Ok(t) => t,
        Err(e) => {
            return Err(e);
        },
    };
    let deleted_at = match parse_optional_dt(&row.deleted_at) {
        Ok(t) => t,
        Err(e) => {
            return Err(e);
        },
    };
    let sort_key: u32 = if row.sort_key < 0 {
        0
    } else {
        row.sort_key as u32
    };
    Ok(
        Note {
            id,
            title: row.title,
            body: row.body,
            notebook_id,
            is_todo: row.is_todo != 0,
            todo_due,
            todo_completed,
            created_at,
            updated_at,
            deleted_at,
            alias: row.alias,
            bookmarks: row.bookmarks,
            links: row.links,
            vv: row.vv,
            last_writer: row.last_writer,
            is_pinned: row.is_pinned != 0,
            is_starred: row.is_starred != 0,
            sort_key,
        },
    )
}

/// The notebook a row of the notebooks table stands for (see [`notebook_of_row`]); a
/// row whose id or time columns do not read is an invalid state.
pub fn row_to_notebook(row: NotebookRow) -> (r: Result<Notebook, StorageError>)
    ensures
        match r {
            Ok(n) => notebook_of_row(row) == Some(n),
            Err(e) => notebook_of_row(row) is None && e is InvalidState,
        },
{
    let id = match parse_id_column(row.id.as_str()) {
        Ok(v) => v,
        Err(e) => {
            return Err(e);
        },
    };
    let created_at = match parse_required_dt(row.created_at.as_str()) {
        Ok(t) => t,
        Err(e) => {
            return Err(e);
        },
    };
    let updated_at = match parse_required_dt(row.updated_at.as_str()) {
        Ok(t) => t,
        Err(e) => {
            return Err(e);
        },
    };
    let deleted_at = match parse_optional_dt(&row.deleted_at) {
        Ok(t) => t,
        Err(e) => {
            return Err(e);
        },
    };
    Ok(
        Notebook {
            id,
            title: row.title,
            created_at,
            updated_at,
            deleted_at,
            alias: row.alias,
            vv: row.vv,
            last_writer: row.last_writer,
        },
    )
}

/// The tag a row of the tags table stands for (see [`tag_of_row`]); a row whose id or
/// time columns do not read is an invalid state.
pub fn row_to_tag(row: TagRow) -> (r: Result<Tag, StorageError>)
    ensures
        match r {
            Ok(t) => tag_of_row(row) == Some(t),
            Err(e) => tag_of_row(row) is None && e is InvalidState,
        },
{
    let id = match parse_id_column(row.id.as_str()) {
        Ok(v) => v,
        Err(e) => {
            return Err(e);
        },
    };
    let created_at = match parse_required_dt(row.created_at.as_str()) {
        Ok(t) => t,
        Err(e) => {
            return Err(e);
        },
    };
    let updated_at = match parse_required_dt(row.updated_at.as_str()) {
        Ok(t) => t,
        Err(e) => {
            return Err(e);
        },
    };
    let deleted_at = match parse_optional_dt(&row.deleted_at) {
        Ok(t) => t,
        Err(e) => {
            return Err(e);
        },
    };
    Ok(
        Tag {
            id,
            title: row.title,
            created_at,
            updated_at,
            deleted_at,
            vv: row.vv,
            last_writer: row.last_writer,
            system: row.system != 0,
        },
    )
}

/// The resource a row of the resources table stands for (see [`resource_of_row`]); a
/// row whose id or time columns do not read is an invalid state.
pub fn row_to_resource(row: ResourceRow) -> (r: Result<Resource, StorageError>)
    ensures
        match r {
            Ok(x) => resource_of_row(row) == Some(x),
            Err(e) => resource_of_row(row) is None && e is InvalidState,
        },
{
    let id = match parse_id_column(row.id.as_str()) {
        Ok(v) => v,
        Err(e) => {
            return Err(e);
        },
    };
    let created_at = match parse_required_dt(row.created_at.as_str()) {
        Ok(t) => t,
        Err(e) => {
            return Err(e);
        },
    };
    let deleted_at = match parse_optional_dt(&row.deleted_at) {
        Ok(t) => t,
        Err(e) => {
            return Err(e);
        },
    };
    Ok(
        Resource {
            id,
            title: row.title,
            mime_type: row.mime_type,
            file_name: row.file_name,
            size: row.size as u64,
            created_at,
            deleted_at,
            vv: row.vv,
            last_writer: row.last_writer,
        },
    )
}

} // verus!
