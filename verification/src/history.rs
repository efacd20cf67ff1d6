use vstd::prelude::*;

use crate::error::StorageError;
use crate::ids::{uuid_text, uuid_to_string};
use crate::models::{Note, Notebook};

verus! {

/// One recorded state of an entity: when it was written (nanoseconds since the Unix
/// epoch), by which device, and the entity then, or nothing for a deletion.
#[derive(Debug, Clone)]
pub struct EntityVersion<T> {
    pub timestamp: i128,
    pub device_id: String,
    pub entity: Option<T>,
}

/// Index of the first version written at or before `at`, or the number of versions when
/// there is none.
pub open spec fn first_at_or_before<T>(versions: Seq<EntityVersion<T>>, at: i128) -> int
    decreases versions.len(),
{
    if versions.len() == 0 {
        0
    } else if versions[0].timestamp <= at {
        0
    } else {
        1 + first_at_or_before(versions.skip(1), at)
    }
}

proof fn lemma_first_at_or_before<T>(versions: Seq<EntityVersion<T>>, at: i128, i: int)
    requires
        0 <= i <= versions.len(),
        forall|j: int| 0 <= j < i ==> versions[j].timestamp > at,
        i < versions.len() ==> versions[i].timestamp <= at,
    ensures
        first_at_or_before(versions, at) == i,
    decreases i,
{
    if i > 0 {
        let t = versions.skip(1);
        assert forall|j: int| 0 <= j < i - 1 implies t[j].timestamp > at by {
            assert(t[j] == versions[j + 1]);
        }
        if i - 1 < t.len() {
            assert(t[i - 1] == versions[i]);
        }
        lemma_first_at_or_before(t, at, i - 1);
    }
}

/// The state an entity had at `at`: of versions listed newest first, the first one
/// written at or before `at`.
pub fn state_at<T>(versions: &[EntityVersion<T>], at: i128) -> (r: Option<&EntityVersion<T>>)
    ensures
        first_at_or_before(versions@, at) <= versions@.len(),
        match r {
            Some(v) => first_at_or_before(versions@, at) < versions@.len() && *v
                == versions@[first_at_or_before(versions@, at)],
            None => first_at_or_before(versions@, at) == versions@.len(),
        },
{
    let mut i: usize = 0;
    while i < versions.len()
        invariant
            0 <= i <= versions@.len(),
            forall|j: int| 0 <= j < i ==> versions@[j].timestamp > at,
        decreases versions@.len() - i,
    {
        if versions[i].timestamp <= at {
            proof {
                lemma_first_at_or_before(versions@, at, i as int);
            }
            return Some(&versions[i]);
        }
        i = i + 1;
    }
    proof {
        lemma_first_at_or_before(versions@, at, versions@.len() as int);
    }
    None
}

/// What reverting note `id` to the instant `at` does, from its versions listed newest
/// first: with no version at or before `at`, the note is not found; where that version
/// is a deletion, the note is deleted (`None`); else its content then is restored, live
/// again and updated at `now`.
pub open spec fn note_revert_ok(
    versions: Seq<EntityVersion<Note>>,
    id: u128,
    at: i128,
    now: i128,
    r: Result<Option<Note>, StorageError>,
) -> bool {
    let i = first_at_or_before(versions, at);
    match r {
        Err(e) => i == versions.len() && (e matches StorageError::NotFound(m) && m@ == uuid_text(id)),
        Ok(None) => i < versions.len() && versions[i].entity is None,
        Ok(Some(n)) => i < versions.len() && (versions[i].entity matches Some(m) && n == (Note {
            updated_at: now,
            deleted_at: None,
            ..m
        })),
    }
}

/// Plans the revert of note `id` to the instant `at` (see [`note_revert_ok`]).
pub fn plan_note_revert(versions: Vec<EntityVersion<Note>>, id: u128, at: i128, now: i128) -> (r: Result<
    Option<Note>,
    StorageError,
>)
    ensures
        note_revert_ok(versions@, id, at, now, r),
{
    let i = match state_at(versions.as_slice(), at) {
        Some(_) => first_index_at_or_before(versions.as_slice(), at),
        None => {
            return Err(StorageError::NotFound(uuid_to_string(id)));
        },
    };
    let mut vs = versions;
    let v = vs.swap_remove(i);
    match v.entity {
        Some(m) => Ok(Some(Note { updated_at: now, deleted_at: None, ..m })),
        None => Ok(None),
    }
}

/// What reverting notebook `id` to the instant `at` does (as [`note_revert_ok`] says of
/// notes).
pub open spec fn notebook_revert_ok(
    versions: Seq<EntityVersion<Notebook>>,
    id: u128,
    at: i128,
    now: i128,
    r: Result<Option<Notebook>, StorageError>,
) -> bool {
    let i = first_at_or_before(versions, at);
    match r {
        Err(e) => i == versions.len() && (e matches StorageError::NotFound(m) && m@ == uuid_text(id)),
        Ok(None) => i < versions.len() && versions[i].entity is None,
        Ok(Some(n)) => i < versions.len() && (versions[i].entity matches Some(m) && n == (Notebook {
            updated_at: now,
            deleted_at: None,
            ..m
        })),
    }
}

/// Plans the revert of notebook `id` to the instant `at` (see [`notebook_revert_ok`]).
pub fn plan_notebook_revert(versions: Vec<EntityVersion<Notebook>>, id: u128, at: i128, now: i128) -> (r:
    Result<Option<Notebook>, StorageError>)
    ensures
        notebook_revert_ok(versions@, id, at, now, r),
{
    let i = match state_at(versions.as_slice(), at) {
        Some(_) => first_index_at_or_before(versions.as_slice(), at),
        None => {
            return Err(StorageError::NotFound(uuid_to_string(id)));
        },
    };
    let mut vs = versions;
    let v = vs.swap_remove(i);
    match v.entity {
        Some(m) => Ok(Some(Notebook { updated_at: now, deleted_at: None, ..m })),
        None => Ok(None),
    }
}

/// Index of the first version written at or before `at`, where there is one.
fn first_index_at_or_before<T>(versions: &[EntityVersion<T>], at: i128) -> (r: usize)
    requires
        first_at_or_before(versions@, at) < versions@.len(),
    ensures
        r == first_at_or_before(versions@, at),
{
    let mut i: usize = 0;
    while i < versions.len()
        invariant
            0 <= i <= versions@.len(),
            first_at_or_before(versions@, at) < versions@.len(),
            forall|j: int| 0 <= j < i ==> versions@[j].timestamp > at,
        decreases versions@.len() - i,
    {
        if versions[i].timestamp <= at {
            proof {
                lemma_first_at_or_before(versions@, at, i as int);
            }
            return i;
        }
        i = i + 1;
    }
    proof {
        lemma_first_at_or_before(versions@, at, versions@.len() as int);
    }
    i
}

} // verus!
