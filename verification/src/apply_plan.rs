use vstd::prelude::*;

use crate::models::{Change, Note, Notebook, Resource, Tag};
use crate::version_vector::VersionVector;

verus! {

/// The kinds of stored record that a change touches.
#[derive(Debug, Clone, Copy, PartialEq, Eq)]
pub enum EntityKind {
    Note,
    Notebook,
    Tag,
    NoteTag,
    Resource,
}

/// The time by which a stored resource is judged: when it was deleted, else when it was
/// created.
pub open spec fn spec_resource_time(created_at: i128, deleted_at: Option<i128>) -> i128 {
    match deleted_at {
        Some(d) => d,
        None => created_at,
    }
}

/// The time by which a resource is judged (see [`spec_resource_time`]).
pub fn resource_time(created_at: i128, deleted_at: Option<i128>) -> (r: i128)
    ensures
        r == spec_resource_time(created_at, deleted_at),
{
    match deleted_at {
        Some(d) => d,
        None => created_at,
    }
}

/// The time by which a stored tag placement is judged: its update time, or the epoch
/// when the row has none.
pub open spec fn spec_assoc_time(updated_at: Option<i128>) -> i128 {
    match updated_at {
        Some(t) => t,
        None => 0,
    }
}

/// The time by which a stored tag placement is judged (see [`spec_assoc_time`]).
pub fn assoc_time(updated_at: Option<i128>) -> (r: i128)
    ensures
        r == spec_assoc_time(updated_at),
{
    match updated_at {
        Some(t) => t,
        None => 0,
    }
}

/// What an incoming change is judged by against the stored record: the record's kind,
/// its id (for a tag placement, the note's id and, second, the tag's), the time that
/// judges it, its version vector and its writer. Records and placements are judged by
/// their update time, deletions by their deletion time, and resources as
/// [`spec_resource_time`] says.
pub open spec fn spec_incoming_key(c: Change) -> (EntityKind, u128, Option<u128>, i128, VersionVector, Seq<char>) {
    match c {
        Change::NoteCreate { note } => (EntityKind::Note, note.id, None, note.updated_at, note.vv, note.last_writer@),
        Change::NoteUpdate { note } => (EntityKind::Note, note.id, None, note.updated_at, note.vv, note.last_writer@),
        Change::NoteDelete { id, deleted_at, vv, last_writer } => (EntityKind::Note, id, None, deleted_at, vv, last_writer@),
        Change::NotebookCreate { notebook } => (
            EntityKind::Notebook,
            notebook.id,
            None,
            notebook.updated_at,
            notebook.vv,
            notebook.last_writer@,
        ),
        Change::NotebookUpdate { notebook } => (
            EntityKind::Notebook,
            notebook.id,
            None,
            notebook.updated_at,
            notebook.vv,
            notebook.last_writer@,
        ),
        Change::NotebookDelete { id, deleted_at, vv, last_writer } => (EntityKind::Notebook, id, None, deleted_at, vv, last_writer@),
        Change::TagCreate { tag } => (EntityKind::Tag, tag.id, None, tag.updated_at, tag.vv, tag.last_writer@),
        Change::TagUpdate { tag } => (EntityKind::Tag, tag.id, None, tag.updated_at, tag.vv, tag.last_writer@),
        Change::TagDelete { id, deleted_at, vv, last_writer } => (EntityKind::Tag, id, None, deleted_at, vv, last_writer@),
        Change::NoteTagAdd { note_id, tag_id, updated_at, vv, last_writer } => (
            EntityKind::NoteTag,
            note_id,
            Some(tag_id),
            updated_at,
            vv,
            last_writer@,
        ),
        Change::NoteTagRemove { note_id, tag_id, updated_at, vv, last_writer } => (
            EntityKind::NoteTag,
            note_id,
            Some(tag_id),
            updated_at,
            vv,
            last_writer@,
        ),
        Change::ResourceCreate { resource, data } => (
            EntityKind::Resource,
            resource.id,
            None,
            spec_resource_time(resource.created_at, resource.deleted_at),
            resource.vv,
            resource.last_writer@,
        ),
        Change::ResourceDelete { id, deleted_at, vv, last_writer } => (EntityKind::Resource, id, None, deleted_at, vv, last_writer@),
    }
}

/// What an incoming change is judged by (see [`spec_incoming_key`]); the version vector
/// and the writer are borrowed from the change.
pub fn incoming_key(change: &Change) -> (r: (EntityKind, u128, Option<u128>, i128, &VersionVector, &str))
    ensures
        r.0 == spec_incoming_key(*change).0,
        r.1 == spec_incoming_key(*change).1,
        r.2 == spec_incoming_key(*change).2,
        r.3 == spec_incoming_key(*change).3,
        *r.4 == spec_incoming_key(*change).4,
        r.5@ == spec_incoming_key(*change).5,
{
    match change {
        Change::NoteCreate { note } | Change::NoteUpdate { note } => (
            EntityKind::Note,
            note.id,
            None,
            note.updated_at,
            &note.vv,
            note.last_writer.as_str(),
        ),
        Change::NoteDelete { id, deleted_at, vv, last_writer } => (
            EntityKind::Note,
            *id,
            None,
            *deleted_at,
            vv,
            last_writer.as_str(),
        ),
        Change::NotebookCreate { notebook } | Change::NotebookUpdate { notebook } => (
            EntityKind::Notebook,
            notebook.id,
            None,
            notebook.updated_at,
            &notebook.vv,
            notebook.last_writer.as_str(),
        ),
        Change::NotebookDelete { id, deleted_at, vv, last_writer } => (
            EntityKind::Notebook,
            *id,
            None,
            *deleted_at,
            vv,
            last_writer.as_str(),
        ),
        Change::TagCreate { tag } | Change::TagUpdate { tag } => (
            EntityKind::Tag,
            tag.id,
            None,
            tag.updated_at,
            &tag.vv,
            tag.last_writer.as_str(),
        ),
        Change::TagDelete { id, deleted_at, vv, last_writer } => (
            EntityKind::Tag,
            *id,
            None,
            *deleted_at,
            vv,
            last_writer.as_str(),
        ),
        Change::NoteTagAdd { note_id, tag_id, updated_at, vv, last_writer }
        | Change::NoteTagRemove { note_id, tag_id, updated_at, vv, last_writer } => (
            EntityKind::NoteTag,
            *note_id,
            Some(*tag_id),
            *updated_at,
            vv,
            last_writer.as_str(),
        ),
        Change::ResourceCreate { resource, .. } => (
            EntityKind::Resource,
            resource.id,
            None,
            resource_time(resource.created_at, resource.deleted_at),
            &resource.vv,
            resource.last_writer.as_str(),
        ),
        Change::ResourceDelete { id, deleted_at, vv, last_writer } => (
            EntityKind::Resource,
            *id,
            None,
            *deleted_at,
            vv,
            last_writer.as_str(),
        ),
    }
}

/// What applying a change to the database does.
///
/// - `Skip`: nothing, because the stored record wins.
/// - `WriteNote`, `WriteNotebook`, `WriteTag`: the record replaces the stored one (for a
///   note, its links are refreshed with it).
/// - `WriteResource`: the resource replaces the stored one, with its bytes.
/// - `Tombstone`: the stored record of that kind and id is marked deleted at
///   `deleted_at` with the version vector and writer (notes, notebooks and tags also take
///   `deleted_at` as their update time); where no record is stored, an empty one that is
///   created, updated and deleted at `deleted_at` is inserted, so that an older edit that
///   comes later loses to it.
/// - `Assoc`: the placement of the tag on the note is stored with its update time, its
///   removal time (none for a placement that holds), version vector and writer.
#[derive(Debug)]
pub enum ApplyAction {
    Skip,
    WriteNote(Note),
    WriteNotebook(Notebook),
    WriteTag(Tag),
    WriteResource { resource: Resource, data: Vec<u8> },
    Tombstone {
        kind: EntityKind,
        id: u128,
        deleted_at: i128,
        vv: VersionVector,
        last_writer: String,
    },
    Assoc {
        note_id: u128,
        tag_id: u128,
        updated_at: i128,
        removed_at: Option<i128>,
        vv: VersionVector,
        last_writer: String,
    },
}

/// Whether `r` is what applying `c` does, given whether the incoming change wins against
/// the stored record: nothing when it loses; else the record written (a resource with its
/// bytes, none when the change carries none), a tombstone for every deletion, and a
/// placement stored for a tag added (not removed) or removed (removed at its update time).
pub open spec fn plans(c: Change, incoming_wins: bool, r: ApplyAction) -> bool {
    if !incoming_wins {
        r is Skip
    } else {
        match c {
            Change::NoteCreate { note } => r == ApplyAction::WriteNote(note),
            Change::NoteUpdate { note } => r == ApplyAction::WriteNote(note),
            Change::NotebookCreate { notebook } => r == ApplyAction::WriteNotebook(notebook),
            Change::NotebookUpdate { notebook } => r == ApplyAction::WriteNotebook(notebook),
            Change::TagCreate { tag } => r == ApplyAction::WriteTag(tag),
            Change::TagUpdate { tag } => r == ApplyAction::WriteTag(tag),
            Change::NoteDelete { id, deleted_at, vv, last_writer } => r == (ApplyAction::Tombstone {
                kind: EntityKind::Note,
                id,
                deleted_at,
                vv,
                last_writer,
            }),
            Change::NotebookDelete { id, deleted_at, vv, last_writer } => r == (ApplyAction::Tombstone {
                kind: EntityKind::Notebook,
                id,
                deleted_at,
                vv,
                last_writer,
            }),
            Change::TagDelete { id, deleted_at, vv, last_writer } => r == (ApplyAction::Tombstone {
                kind: EntityKind::Tag,
                id,
                deleted_at,
                vv,
                last_writer,
            }),
            Change::ResourceDelete { id, deleted_at, vv, last_writer } => r == (ApplyAction::Tombstone {
                kind: EntityKind::Resource,
                id,
                deleted_at,
                vv,
                last_writer,
            }),
            Change::NoteTagAdd { note_id, tag_id, updated_at, vv, last_writer } => r == (ApplyAction::Assoc {
                note_id,
                tag_id,
                updated_at,
                removed_at: None,
                vv,
                last_writer,
            }),
            Change::NoteTagRemove { note_id, tag_id, updated_at, vv, last_writer } => r == (ApplyAction::Assoc {
                note_id,
                tag_id,
                updated_at,
                removed_at: Some(updated_at),
                vv,
                last_writer,
            }),
            Change::ResourceCreate { resource, data } => match r {
                ApplyAction::WriteResource { resource: x, data: d } => x == resource && d@ == match data {
                    Some(b) => b@,
                    None => Seq::<u8>::empty(),
                },
                _ => false,
            },
        }
    }
}

/// What applying a change to the database does (see [`plans`]), given whether the
/// incoming change wins against the stored record, as the conflict rule decides from
/// [`incoming_key`] and the stored record's version vector, time and writer.
pub fn plan_apply(change: Change, incoming_wins: bool) -> (r: ApplyAction)
    ensures
        plans(change, incoming_wins, r),
{
    if !incoming_wins {
        return ApplyAction::Skip;
    }
    match change {
        Change::NoteCreate { note } | Change::NoteUpdate { note } => ApplyAction::WriteNote(note),
        Change::NotebookCreate { notebook } | Change::NotebookUpdate { notebook } => {
            ApplyAction::WriteNotebook(notebook)
        },
        Change::TagCreate { tag } | Change::TagUpdate { tag } => ApplyAction::WriteTag(tag),
        Change::NoteDelete { id, deleted_at, vv, last_writer } => ApplyAction::Tombstone {
            kind: EntityKind::Note,
            id,
            deleted_at,
            vv,
            last_writer,
        },
        Change::NotebookDelete { id, deleted_at, vv, last_writer } => ApplyAction::Tombstone {
            kind: EntityKind::Notebook,
            id,
            deleted_at,
            vv,
            last_writer,
        },
        Change::TagDelete { id, deleted_at, vv, last_writer } => ApplyAction::Tombstone {
            kind: EntityKind::Tag,
            id,
            deleted_at,
            vv,
            last_writer,
        },
        Change::ResourceDelete { id, deleted_at, vv, last_writer } => ApplyAction::Tombstone {
            kind: EntityKind::Resource,
            id,
            deleted_at,
            vv,
            last_writer,
        },
        Change::NoteTagAdd { note_id, tag_id, updated_at, vv, last_writer } => ApplyAction::Assoc {
            note_id,
            tag_id,
            updated_at,
            removed_at: None,
            vv,
            last_writer,
        },
        Change::NoteTagRemove { note_id, tag_id, updated_at, vv, last_writer } => ApplyAction::Assoc {
            note_id,
            tag_id,
            updated_at,
            removed_at: Some(updated_at),
            vv,
            last_writer,
        },
        Change::ResourceCreate { resource, data } => {
            let d = match data {
                Some(b) => b,
                None => Vec::new(),
            };
            ApplyAction::WriteResource { resource, data: d }
        },
    }
}

/// Every deletion that wins is planned as a tombstone, whether or not a record is stored,
/// and never as a write: a deletion is never undone by the step that applies it.
pub proof fn lemma_winning_delete_is_tombstone(c: Change, r: ApplyAction)
    requires
        plans(c, true, r),
        c is NoteDelete || c is NotebookDelete || c is TagDelete || c is ResourceDelete,
    ensures
        r is Tombstone,
        r->Tombstone_kind == spec_incoming_key(c).0,
        r->Tombstone_id == spec_incoming_key(c).1,
        r->Tombstone_deleted_at == spec_incoming_key(c).3,
{
}

/// The time that judges an incoming change: a record written whole (a note, notebook or
/// tag created or updated) by when it was last updated, a deletion by when it happened, a
/// tag placement by when it was set, and a resource by its deletion or else its creation.
/// So a newer edit of a record beats an older stored state of it, whenever the record
/// was created.
pub proof fn lemma_judging_time(c: Change)
    ensures
        c matches Change::NoteCreate { note } ==> spec_incoming_key(c).3 == note.updated_at,
        c matches Change::NoteUpdate { note } ==> spec_incoming_key(c).3 == note.updated_at,
        c matches Change::NotebookCreate { notebook } ==> spec_incoming_key(c).3 == notebook.updated_at,
        c matches Change::NotebookUpdate { notebook } ==> spec_incoming_key(c).3 == notebook.updated_at,
        c matches Change::TagCreate { tag } ==> spec_incoming_key(c).3 == tag.updated_at,
        c matches Change::TagUpdate { tag } ==> spec_incoming_key(c).3 == tag.updated_at,
        c matches Change::NoteDelete { deleted_at, .. } ==> spec_incoming_key(c).3 == deleted_at,
        c matches Change::NotebookDelete { deleted_at, .. } ==> spec_incoming_key(c).3 == deleted_at,
        c matches Change::TagDelete { deleted_at, .. } ==> spec_incoming_key(c).3 == deleted_at,
        c matches Change::ResourceDelete { deleted_at, .. } ==> spec_incoming_key(c).3 == deleted_at,
        c matches Change::NoteTagAdd { updated_at, .. } ==> spec_incoming_key(c).3 == updated_at,
        c matches Change::NoteTagRemove { updated_at, .. } ==> spec_incoming_key(c).3 == updated_at,
        c matches Change::ResourceCreate { resource, .. } ==> spec_incoming_key(c).3 == (match resource.deleted_at {
            Some(d) => d,
            None => resource.created_at,
        }),
{
}

/// An incoming change is judged against the stored record of its own kind and id, with
/// its own version vector and writer.
pub proof fn lemma_judged_against_its_record(c: Change)
    ensures
        c matches Change::NoteCreate { note } ==> spec_incoming_key(c) == (EntityKind::Note, note.id, None::<u128>, note.updated_at, note.vv, note.last_writer@),
        c matches Change::NoteUpdate { note } ==> spec_incoming_key(c) == (EntityKind::Note, note.id, None::<u128>, note.updated_at, note.vv, note.last_writer@),
        c matches Change::NotebookCreate { notebook } ==> spec_incoming_key(c) == (EntityKind::Notebook, notebook.id, None::<u128>, notebook.updated_at, notebook.vv, notebook.last_writer@),
        c matches Change::NotebookUpdate { notebook } ==> spec_incoming_key(c) == (EntityKind::Notebook, notebook.id, None::<u128>, notebook.updated_at, notebook.vv, notebook.last_writer@),
        c matches Change::TagCreate { tag } ==> spec_incoming_key(c) == (EntityKind::Tag, tag.id, None::<u128>, tag.updated_at, tag.vv, tag.last_writer@),
        c matches Change::TagUpdate { tag } ==> spec_incoming_key(c) == (EntityKind::Tag, tag.id, None::<u128>, tag.updated_at, tag.vv, tag.last_writer@),
        c matches Change::NoteDelete { id, deleted_at, vv, last_writer } ==> spec_incoming_key(c) == (EntityKind::Note, id, None::<u128>, deleted_at, vv, last_writer@),
        c matches Change::NotebookDelete { id, deleted_at, vv, last_writer } ==> spec_incoming_key(c) == (EntityKind::Notebook, id, None::<u128>, deleted_at, vv, last_writer@),
        c matches Change::TagDelete { id, deleted_at, vv, last_writer } ==> spec_incoming_key(c) == (EntityKind::Tag, id, None::<u128>, deleted_at, vv, last_writer@),
        c matches Change::ResourceDelete { id, deleted_at, vv, last_writer } ==> spec_incoming_key(c) == (EntityKind::Resource, id, None::<u128>, deleted_at, vv, last_writer@),
        c matches Change::ResourceCreate { resource, .. } ==> spec_incoming_key(c).0 == EntityKind::Resource && spec_incoming_key(c).1 == resource.id && spec_incoming_key(c).4 == resource.vv && spec_incoming_key(c).5 == resource.last_writer@,
        c matches Change::NoteTagAdd { note_id, tag_id, .. } ==> spec_incoming_key(c).0 == EntityKind::NoteTag && spec_incoming_key(c).1 == note_id && spec_incoming_key(c).2 == Some(tag_id),
        c matches Change::NoteTagRemove { note_id, tag_id, .. } ==> spec_incoming_key(c).0 == EntityKind::NoteTag && spec_incoming_key(c).1 == note_id && spec_incoming_key(c).2 == Some(tag_id),
{
}

} // verus!
