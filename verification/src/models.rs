use vstd::prelude::*;

use crate::ids::{random_id, RANDOM_ID_MASK, RANDOM_ID_TAG};
use crate::links::{Bookmark, NoteLink};
use crate::version_vector::VersionVector;

verus! {

/// A fresh identifier for a new entity.
pub fn new_id() -> (r: u128)
    ensures
        r & RANDOM_ID_MASK == RANDOM_ID_TAG,
{
    random_id()
}

/// Nanoseconds in a second.
pub const NANOS_PER_SEC: i128 = 1_000_000_000;

/// The instant, in nanoseconds since the Unix epoch, of a count of whole seconds and the
/// nanoseconds past them (as chrono counts a `DateTime`'s nanoseconds).
pub open spec fn spec_instant(secs: i64, nanos: u32) -> i128 {
    (secs * NANOS_PER_SEC + nanos) as i128
}

/// The instant of a count of whole seconds and the nanoseconds past them.
pub fn instant_of(secs: i64, nanos: u32) -> (r: i128)
    ensures
        r == spec_instant(secs, nanos),
{
    assert(i64::MIN * NANOS_PER_SEC <= secs * NANOS_PER_SEC <= i64::MAX * NANOS_PER_SEC)
        by (nonlinear_arith)
        requires
            i64::MIN <= secs <= i64::MAX,
    ;
    (secs as i128) * NANOS_PER_SEC + (nanos as i128)
}

/// The clock's time, as whole seconds since the Unix epoch and the nanoseconds past them.
///
/// Trusted: calls `chrono::Utc::now` and takes `timestamp` and `timestamp_subsec_nanos`;
/// the time is whatever the clock says, so nothing is stated of it.
#[verifier::external_body]
fn utc_now_parts() -> (r: (i64, u32)) {
    let t = chrono::Utc::now();
    (t.timestamp(), t.timestamp_subsec_nanos())
}

/// The current time in nanoseconds since the Unix epoch.
pub fn now() -> (r: i128) {
    let (s, n) = utc_now_parts();
    instant_of(s, n)
}

/// A note. Times are nanoseconds since the Unix epoch; the nil id (zero) of
/// `notebook_id` is the Inbox.
#[derive(Debug, Clone)]
pub struct Note {
    pub id: u128,
    pub title: String,
    pub body: String,
    pub notebook_id: u128,
    pub is_todo: bool,
    pub todo_due: Option<i128>,
    pub todo_completed: Option<i128>,
    pub created_at: i128,
    pub updated_at: i128,
    pub deleted_at: Option<i128>,
    pub alias: Option<String>,
    pub bookmarks: Vec<Bookmark>,
    pub links: Vec<NoteLink>,
    pub vv: VersionVector,
    pub last_writer: String,
    pub is_pinned: bool,
    pub is_starred: bool,
    pub sort_key: u32,
}

/// The key a note sorts by: its own, or the default when it has none (zero).
pub open spec fn spec_effective_sort_key(sort_key: u32) -> u32 {
    if sort_key == 0 {
        Note::DEFAULT_SORT_KEY
    } else {
        sort_key
    }
}

impl Note {
    /// Sort key that a note without one of its own sorts by.
    pub const DEFAULT_SORT_KEY: u32 = 1000;

    /// A new note in the Inbox with the given title and body, created now.
    pub fn new(title: &str, body: &str) -> (r: Note)
        ensures
            r.id & RANDOM_ID_MASK == RANDOM_ID_TAG,
            r.title@ == title@,
            r.body@ == body@,
            r.notebook_id == 0,
            !r.is_todo,
            r.todo_due is None,
            r.todo_completed is None,
            r.created_at == r.updated_at,
            r.deleted_at is None,
            r.alias is None,
            r.bookmarks@.len() == 0,
            r.links@.len() == 0,
            r.vv.wf(),
            r.vv@ == Map::<Seq<char>, u64>::empty(),
            r.last_writer@.len() == 0,
            !r.is_pinned,
            !r.is_starred,
            r.sort_key == 0,
    {
        let ts = now();
        Note {
            id: new_id(),
            title: title.to_owned(),
            body: body.to_owned(),
            notebook_id: 0,
            is_todo: false,
            todo_due: None,
            todo_completed: None,
            created_at: ts,
            updated_at: ts,
            deleted_at: None,
            alias: None,
            bookmarks: Vec::new(),
            links: Vec::new(),
            vv: VersionVector::new(),
            last_writer: String::new(),
            is_pinned: false,
            is_starred: false,
            sort_key: 0,
        }
    }

    /// The key the note sorts by.
    pub fn effective_sort_key(&self) -> (r: u32)
        ensures
            r == spec_effective_sort_key(self.sort_key),
    {
        if self.sort_key == 0 {
            Self::DEFAULT_SORT_KEY
        } else {
            self.sort_key
        }
    }
}

/// A notebook.
#[derive(Debug, Clone)]
pub struct Notebook {
    pub id: u128,
    pub title: String,
    pub created_at: i128,
    pub updated_at: i128,
    pub deleted_at: Option<i128>,
    pub alias: Option<String>,
    pub vv: VersionVector,
    pub last_writer: String,
}

impl Notebook {
    /// A new notebook with the given title, created now.
    pub fn new(title: &str) -> (r: Notebook)
        ensures
            r.id & RANDOM_ID_MASK == RANDOM_ID_TAG,
            r.title@ == title@,
            r.created_at == r.updated_at,
            r.deleted_at is None,
            r.alias is None,
            r.vv.wf(),
            r.vv@ == Map::<Seq<char>, u64>::empty(),
            r.last_writer@.len() == 0,
    {
        let ts = now();
        Notebook {
            id: new_id(),
            title: title.to_owned(),
            created_at: ts,
            updated_at: ts,
            deleted_at: None,
            alias: None,
            vv: VersionVector::new(),
            last_writer: String::new(),
        }
    }
}

/// A tag.
#[derive(Debug, Clone)]
pub struct Tag {
    pub id: u128,
    pub title: String,
    pub created_at: i128,
    pub updated_at: i128,
    pub deleted_at: Option<i128>,
    pub vv: VersionVector,
    pub last_writer: String,
    pub system: bool,
}

impl Tag {
    /// A new tag with the given title, created now.
    pub fn new(title: &str) -> (r: Tag)
        ensures
            r.id & RANDOM_ID_MASK == RANDOM_ID_TAG,
            r.title@ == title@,
            r.created_at == r.updated_at,
            r.deleted_at is None,
            r.vv.wf(),
            r.vv@ == Map::<Seq<char>, u64>::empty(),
            r.last_writer@.len() == 0,
            !r.system,
    {
        let ts = now();
        Tag {
            id: new_id(),
            title: title.to_owned(),
            created_at: ts,
            updated_at: ts,
            deleted_at: None,
            vv: VersionVector::new(),
            last_writer: String::new(),
            system: false,
        }
    }
}

/// A tag placed on a note.
#[derive(Clone, Copy, Debug, PartialEq, Eq)]
pub struct NoteTag {
    pub note_id: u128,
    pub tag_id: u128,
}

/// A stored file attached to the notes.
#[derive(Debug, Clone)]
pub struct Resource {
    pub id: u128,
    pub title: String,
    pub mime_type: String,
    pub file_name: String,
    pub size: u64,
    pub created_at: i128,
    pub deleted_at: Option<i128>,
    pub vv: VersionVector,
    pub last_writer: String,
}

impl Resource {
    /// A new resource with the given metadata, created now.
    pub fn new(title: &str, mime_type: &str, file_name: &str, size: u64) -> (r: Resource)
        ensures
            r.id & RANDOM_ID_MASK == RANDOM_ID_TAG,
            r.title@ == title@,
            r.mime_type@ == mime_type@,
            r.file_name@ == file_name@,
            r.size == size,
            r.deleted_at is None,
            r.vv.wf(),
            r.vv@ == Map::<Seq<char>, u64>::empty(),
            r.last_writer@.len() == 0,
    {
        Resource {
            id: new_id(),
            title: title.to_owned(),
            mime_type: mime_type.to_owned(),
            file_name: file_name.to_owned(),
            size,
            created_at: now(),
            deleted_at: None,
            vv: VersionVector::new(),
            last_writer: String::new(),
        }
    }
}

/// One entry of the change journal that devices exchange to sync.
#[derive(Debug, Clone)]
pub enum Change {
    NoteCreate { note: Note },
    NoteUpdate { note: Note },
    NoteDelete { id: u128, deleted_at: i128, vv: VersionVector, last_writer: String },
    NotebookCreate { notebook: Notebook },
    NotebookUpdate { notebook: Notebook },
    NotebookDelete { id: u128, deleted_at: i128, vv: VersionVector, last_writer: String },
    TagCreate { tag: Tag },
    TagUpdate { tag: Tag },
    TagDelete { id: u128, deleted_at: i128, vv: VersionVector, last_writer: String },
    NoteTagAdd {
        note_id: u128,
        tag_id: u128,
        updated_at: i128,
        vv: VersionVector,
        last_writer: String,
    },
    NoteTagRemove {
        note_id: u128,
        tag_id: u128,
        updated_at: i128,
        vv: VersionVector,
        last_writer: String,
    },
    ResourceCreate { resource: Resource, data: Option<Vec<u8>> },
    ResourceDelete { id: u128, deleted_at: i128, vv: VersionVector, last_writer: String },
}

} // verus!
