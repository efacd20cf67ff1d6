use vstd::prelude::*;

use crate::encryption::{base64_decode, decode_base64};
use crate::ids::{parse_uuid, uuid_parse};
use crate::models::{instant_of, spec_instant, Change, Note, Notebook, Resource, Tag};
use crate::version_vector::VersionVector;

verus! {

/// What an entry of the file store's change log holds of its JSON data, as plain values:
/// the data read as each kind of entity (where it reads as one), and the fields that
/// tombstones and tag placements carry (where they are strings, or a version vector).
#[derive(Debug, Clone)]
pub struct LogData {
    pub note: Option<Note>,
    pub notebook: Option<Notebook>,
    pub tag: Option<Tag>,
    pub resource: Option<Resource>,
    pub deleted_at: Option<String>,
    pub updated_at: Option<String>,
    pub vv: Option<VersionVector>,
    pub last_writer: Option<String>,
    pub tag_id: Option<String>,
}

/// An entry of the file store's change log: when it was written, the kind of entity
/// (`note` when the log predates kinds), which entity, the operation, and its data.
#[derive(Debug, Clone)]
pub struct LogEntry {
    pub timestamp: i128,
    pub entity_type: String,
    pub entity_id: u128,
    pub operation: String,
    pub data: LogData,
}

/// The whole seconds since the Unix epoch, and the nanoseconds past them, of the instant
/// that a text names when read as a `DateTime<Utc>`.
pub uninterp spec fn chrono_utc_parts(text: Seq<char>) -> Option<(i64, u32)>;

/// The instant, in nanoseconds since the Unix epoch, that a text names when read as a
/// `DateTime<Utc>`.
pub open spec fn chrono_parse_utc(text: Seq<char>) -> Option<i128> {
    match chrono_utc_parts(text) {
        Some((s, n)) => Some(spec_instant(s, n)),
        None => None,
    }
}

/// Reads a text as a UTC date and time.
///
/// Trusted: calls `str::parse::<chrono::DateTime<chrono::Utc>>` and takes `timestamp`
/// and `timestamp_subsec_nanos`, or the text of its error; the instant is only named,
/// and the error's text is left unsaid.
#[verifier::external_body]
fn parse_utc_parts(text: &str) -> (r: Result<(i64, u32), String>)
    ensures
        match r {
            Ok(p) => chrono_utc_parts(text@) == Some(p),
            Err(_) => chrono_utc_parts(text@) is None,
        },
{
    text.parse::<chrono::DateTime<chrono::Utc>>().map(|d| (d.timestamp(), d.timestamp_subsec_nanos())).map_err(|e| e.to_string())
}

/// Reads a text as a UTC date and time, in nanoseconds since the Unix epoch.
pub(crate) fn parse_utc_nanos(text: &str) -> (r: Result<i128, String>)
    ensures
        match r {
            Ok(t) => chrono_parse_utc(text@) == Some(t),
            Err(_) => chrono_parse_utc(text@) is None,
        },
{
    match parse_utc_parts(text) {
        Ok((s, n)) => Ok(instant_of(s, n)),
        Err(m) => Err(m),
    }
}

/// The time that a log field gives: the instant its text names, else `fallback` (the
/// entry's own time).
pub open spec fn field_time(text: Option<String>, fallback: i128) -> i128 {
    match text {
        Some(s) => match chrono_parse_utc(s@) {
            Some(t) => t,
            None => fallback,
        },
        None => fallback,
    }
}

/// `v` is the version vector of the field, or the empty one where there is none.
pub open spec fn vv_or_empty(field: Option<VersionVector>, v: VersionVector) -> bool {
    match field {
        Some(x) => v == x,
        None => v.wf() && v@ == Map::<Seq<char>, u64>::empty(),
    }
}

/// The text of a field, empty where there is none.
pub open spec fn text_or_empty(field: Option<String>) -> Seq<char> {
    match field {
        Some(s) => s@,
        None => Seq::empty(),
    }
}

/// The time, version vector and last writer that a tombstone or a tag placement carries.
pub open spec fn meta_fields(
    time: Option<String>,
    vv: Option<VersionVector>,
    last_writer: Option<String>,
    fallback: i128,
    r: (i128, VersionVector, String),
) -> bool {
    &&& r.0 == field_time(time, fallback)
    &&& vv_or_empty(vv, r.1)
    &&& r.2@ == text_or_empty(last_writer)
}

/// Reads the time (falling back on the entry's), version vector (empty where missing)
/// and last writer (empty where missing) of a tombstone or a tag placement.
pub fn meta_from_data(
    time: Option<String>,
    vv: Option<VersionVector>,
    last_writer: Option<String>,
    fallback: i128,
) -> (r: (i128, VersionVector, String))
    ensures
        meta_fields(time, vv, last_writer, fallback, r),
{
    let t = match &time {
        Some(s) => match parse_utc_nanos(s.as_str()) {
            Ok(t) => t,
            Err(_) => fallback,
        },
        None => fallback,
    };
    let v = match vv {
        Some(x) => x,
        None => VersionVector::new(),
    };
    let w = match last_writer {
        Some(s) => s,
        None => String::new(),
    };
    (t, v, w)
}

/// `r` is a tombstone of kind `kind` (note, notebook, tag, resource) for the entity `id`,
/// with the fields that `d` gives, falling back on the time `ts`.
pub open spec fn tombstone_of(id: u128, ts: i128, d: LogData, r: Option<Change>, kind: int) -> bool {
    match r {
        Some(Change::NoteDelete { id: i, deleted_at, vv, last_writer }) => kind == 0 && i == id
            && meta_fields(d.deleted_at, d.vv, d.last_writer, ts, (deleted_at, vv, last_writer)),
        Some(Change::NotebookDelete { id: i, deleted_at, vv, last_writer }) => kind == 1 && i == id
            && meta_fields(d.deleted_at, d.vv, d.last_writer, ts, (deleted_at, vv, last_writer)),
        Some(Change::TagDelete { id: i, deleted_at, vv, last_writer }) => kind == 2 && i == id
            && meta_fields(d.deleted_at, d.vv, d.last_writer, ts, (deleted_at, vv, last_writer)),
        Some(Change::ResourceDelete { id: i, deleted_at, vv, last_writer }) => kind == 3 && i == id
            && meta_fields(d.deleted_at, d.vv, d.last_writer, ts, (deleted_at, vv, last_writer)),
        _ => false,
    }
}

/// `r` is the tag placement of the note `id` that `d` gives (`add` when `add`, else
/// `remove`): none unless its `tag_id` is an identifier.
pub open spec fn placement_of(id: u128, ts: i128, d: LogData, r: Option<Change>, add: bool) -> bool {
    match d.tag_id {
        None => r is None,
        Some(t) => match uuid_parse(t@) {
            None => r is None,
            Some(tid) => match r {
                Some(Change::NoteTagAdd { note_id, tag_id, updated_at, vv, last_writer }) => add
                    && note_id == id && tag_id == tid
                    && meta_fields(d.updated_at, d.vv, d.last_writer, ts, (updated_at, vv, last_writer)),
                Some(Change::NoteTagRemove { note_id, tag_id, updated_at, vv, last_writer }) => !add
                    && note_id == id && tag_id == tid
                    && meta_fields(d.updated_at, d.vv, d.last_writer, ts, (updated_at, vv, last_writer)),
                _ => false,
            },
        },
    }
}

/// The bytes that a resource create carries, as a sequence.
pub open spec fn opt_bytes(o: Option<Vec<u8>>) -> Option<Seq<u8>> {
    match o {
        Some(b) => Some(b@),
        None => None,
    }
}

/// The change that a journal record names by its entity kind `et` and operation `op`,
/// for the entity `id`, written at `ts`, with data `d`: a create or update carries the
/// entity its data reads as (none where it reads as none), a delete the tombstone fields,
/// a tag placement the tag it names, a resource create the bytes `blob`. Where `legacy`,
/// notes also accept the operations `note_create`, `note_update` and `note_delete`. Any
/// other pair names none.
pub open spec fn change_of(
    et: Seq<char>,
    op: Seq<char>,
    id: u128,
    ts: i128,
    d: LogData,
    legacy: bool,
    blob: Option<Seq<u8>>,
    r: Option<Change>,
) -> bool {
    if et == "note"@ && (op == "create"@ || (legacy && op == "note_create"@)) {
        r == (match d.note {
            Some(n) => Some(Change::NoteCreate { note: n }),
            None => None,
        })
    } else if et == "note"@ && (op == "update"@ || (legacy && op == "note_update"@)) {
        r == (match d.note {
            Some(n) => Some(Change::NoteUpdate { note: n }),
            None => None,
        })
    } else if et == "note"@ && (op == "delete"@ || (legacy && op == "note_delete"@)) {
        tombstone_of(id, ts, d, r, 0)
    } else if et == "notebook"@ && op == "create"@ {
        r == (match d.notebook {
            Some(b) => Some(Change::NotebookCreate { notebook: b }),
            None => None,
        })
    } else if et == "notebook"@ && op == "update"@ {
        r == (match d.notebook {
            Some(b) => Some(Change::NotebookUpdate { notebook: b }),
            None => None,
        })
    } else if et == "notebook"@ && op == "delete"@ {
        tombstone_of(id, ts, d, r, 1)
    } else if et == "tag"@ && op == "create"@ {
        r == (match d.tag {
            Some(t) => Some(Change::TagCreate { tag: t }),
            None => None,
        })
    } else if et == "tag"@ && op == "update"@ {
        r == (match d.tag {
            Some(t) => Some(Change::TagUpdate { tag: t }),
            None => None,
        })
    } else if et == "tag"@ && op == "delete"@ {
        tombstone_of(id, ts, d, r, 2)
    } else if et == "note_tag"@ && op == "add"@ {
        placement_of(id, ts, d, r, true)
    } else if et == "note_tag"@ && op == "remove"@ {
        placement_of(id, ts, d, r, false)
    } else if et == "resource"@ && op == "create"@ {
        match r {
            Some(Change::ResourceCreate { resource, data }) => d.resource == Some(resource) && opt_bytes(data) == blob,
            None => d.resource is None,
            _ => false,
        }
    } else if et == "resource"@ && op == "delete"@ {
        tombstone_of(id, ts, d, r, 3)
    } else {
        r is None
    }
}

/// The change that an entry of the file store's log records: see [`change_of`]; the log
/// accepts the older operation names of notes, and resource creates carry no bytes.
pub open spec fn journal_change(e: LogEntry, r: Option<Change>) -> bool {
    change_of(e.entity_type@, e.operation@, e.entity_id, e.timestamp, e.data, true, None, r)
}

/// What the store writes to its journal reads back as the change it records: a created
/// or updated note, notebook or tag as that create or update of the entity its data
/// holds; a deletion as the tombstone of that entity, at the time its data names (the
/// record's own time where it names none); a tag placement as that placement of the
/// tag it names; a resource create as that resource with the bytes stored beside it.
pub proof fn lemma_written_records_read_back(
    id: u128,
    ts: i128,
    d: LogData,
    legacy: bool,
    blob: Option<Seq<u8>>,
    r: Option<Change>,
)
    ensures
        d.note matches Some(n) ==> (change_of("note"@, "create"@, id, ts, d, legacy, blob, r)
            ==> r == Some(Change::NoteCreate { note: n })),
        d.note matches Some(n) ==> (change_of("note"@, "update"@, id, ts, d, legacy, blob, r)
            ==> r == Some(Change::NoteUpdate { note: n })),
        d.notebook matches Some(b) ==> (change_of("notebook"@, "create"@, id, ts, d, legacy, blob, r)
            ==> r == Some(Change::NotebookCreate { notebook: b })),
        d.notebook matches Some(b) ==> (change_of("notebook"@, "update"@, id, ts, d, legacy, blob, r)
            ==> r == Some(Change::NotebookUpdate { notebook: b })),
        d.tag matches Some(t) ==> (change_of("tag"@, "create"@, id, ts, d, legacy, blob, r)
            ==> r == Some(Change::TagCreate { tag: t })),
        d.tag matches Some(t) ==> (change_of("tag"@, "update"@, id, ts, d, legacy, blob, r)
            ==> r == Some(Change::TagUpdate { tag: t })),
        change_of("note"@, "delete"@, id, ts, d, legacy, blob, r) ==> (r matches Some(
            Change::NoteDelete { id: i, deleted_at, .. },
        ) && i == id && (d.deleted_at is None ==> deleted_at == ts)),
        change_of("notebook"@, "delete"@, id, ts, d, legacy, blob, r) ==> (r matches Some(
            Change::NotebookDelete { id: i, deleted_at, .. },
        ) && i == id && (d.deleted_at is None ==> deleted_at == ts)),
        change_of("tag"@, "delete"@, id, ts, d, legacy, blob, r) ==> (r matches Some(
            Change::TagDelete { id: i, deleted_at, .. },
        ) && i == id && (d.deleted_at is None ==> deleted_at == ts)),
        change_of("resource"@, "delete"@, id, ts, d, legacy, blob, r) ==> (r matches Some(
            Change::ResourceDelete { id: i, deleted_at, .. },
        ) && i == id && (d.deleted_at is None ==> deleted_at == ts)),
        d.deleted_at matches Some(s) ==> (chrono_parse_utc(s@) matches Some(t) ==> (change_of(
            "note"@,
            "delete"@,
            id,
            ts,
            d,
            legacy,
            blob,
            r,
        ) ==> (r matches Some(Change::NoteDelete { deleted_at, .. }) && deleted_at == t))),
        d.tag_id matches Some(x) ==> (uuid_parse(x@) matches Some(tid) ==> (change_of(
            "note_tag"@,
            "add"@,
            id,
            ts,
            d,
            legacy,
            blob,
            r,
        ) ==> (r matches Some(Change::NoteTagAdd { note_id, tag_id, .. }) && note_id == id
            && tag_id == tid))),
        d.tag_id matches Some(x) ==> (uuid_parse(x@) matches Some(tid) ==> (change_of(
            "note_tag"@,
            "remove"@,
            id,
            ts,
            d,
            legacy,
            blob,
            r,
        ) ==> (r matches Some(Change::NoteTagRemove { note_id, tag_id, .. }) && note_id == id
            && tag_id == tid))),
        d.resource matches Some(x) ==> (change_of("resource"@, "create"@, id, ts, d, legacy, blob, r)
            ==> (r matches Some(Change::ResourceCreate { resource, data }) && resource == x
            && opt_bytes(data) == blob)),
{
    reveal_strlit("note");
    reveal_strlit("notebook");
    reveal_strlit("tag");
    reveal_strlit("note_tag");
    reveal_strlit("resource");
    reveal_strlit("create");
    reveal_strlit("update");
    reveal_strlit("delete");
    reveal_strlit("add");
    reveal_strlit("remove");
    reveal_strlit("note_create");
    reveal_strlit("note_update");
    reveal_strlit("note_delete");
    assert("note"@.len() == 4 && "notebook"@.len() == 8 && "tag"@.len() == 3);
    assert("note_tag"@.len() == 8 && "resource"@.len() == 8);
    assert("notebook"@[0] != "resource"@[0] && "notebook"@[4] != "note_tag"@[4]);
    assert("note"@ != "notebook"@ && "note"@ != "tag"@ && "note"@ != "note_tag"@ && "note"@ != "resource"@);
    assert("notebook"@ != "tag"@ && "notebook"@ != "note_tag"@ && "notebook"@ != "resource"@);
    assert("tag"@ != "note_tag"@ && "tag"@ != "resource"@ && "note_tag"@ != "resource"@);
    assert("create"@[0] != "update"@[0] && "create"@[0] != "delete"@[0] && "update"@[0] != "delete"@[0]);
    assert("create"@ != "update"@ && "create"@ != "delete"@ && "update"@ != "delete"@);
    assert("update"@ != "note_create"@ && "delete"@ != "note_create"@ && "delete"@ != "note_update"@);
    assert("add"@.len() == 3 && "remove"@.len() == 6);
    assert("add"@ != "remove"@);
}

/// Whether a text is the literal `lit`.
fn is_text(s: &String, lit: &str) -> (r: bool)
    ensures
        r == (s@ == lit@),
{
    let l = lit.to_owned();
    *s == l
}

/// The change that a journal record names (see [`change_of`]).
fn change_from_parts(
    et: &String,
    op: &String,
    id: u128,
    ts: i128,
    data: LogData,
    legacy: bool,
    blob: Option<Vec<u8>>,
) -> (r: Option<Change>)
    ensures
        change_of(et@, op@, id, ts, data, legacy, opt_bytes(blob), r),
{
    let ghost d = data;
    let LogData { note, notebook, tag, resource, deleted_at, updated_at, vv, last_writer, tag_id } =
        data;
    if is_text(et, "note") && (is_text(op, "create") || (legacy && is_text(op, "note_create"))) {
        return match note {
            Some(n) => Some(Change::NoteCreate { note: n }),
            None => None,
        };
    }
    if is_text(et, "note") && (is_text(op, "update") || (legacy && is_text(op, "note_update"))) {
        return match note {
            Some(n) => Some(Change::NoteUpdate { note: n }),
            None => None,
        };
    }
    if is_text(et, "note") && (is_text(op, "delete") || (legacy && is_text(op, "note_delete"))) {
        let (t, v, w) = meta_from_data(deleted_at, vv, last_writer, ts);
        return Some(Change::NoteDelete { id, deleted_at: t, vv: v, last_writer: w });
    }
    if is_text(et, "notebook") && is_text(op, "create") {
        return match notebook {
            Some(b) => Some(Change::NotebookCreate { notebook: b }),
            None => None,
        };
    }
    if is_text(et, "notebook") && is_text(op, "update") {
        return match notebook {
            Some(b) => Some(Change::NotebookUpdate { notebook: b }),
            None => None,
        };
    }
    if is_text(et, "notebook") && is_text(op, "delete") {
        let (t, v, w) = meta_from_data(deleted_at, vv, last_writer, ts);
        return Some(Change::NotebookDelete { id, deleted_at: t, vv: v, last_writer: w });
    }
    if is_text(et, "tag") && is_text(op, "create") {
        return match tag {
            Some(x) => Some(Change::TagCreate { tag: x }),
            None => None,
        };
    }
    if is_text(et, "tag") && is_text(op, "update") {
        return match tag {
            Some(x) => Some(Change::TagUpdate { tag: x }),
            None => None,
        };
    }
    if is_text(et, "tag") && is_text(op, "delete") {
        let (t, v, w) = meta_from_data(deleted_at, vv, last_writer, ts);
        return Some(Change::TagDelete { id, deleted_at: t, vv: v, last_writer: w });
    }
    let add = is_text(et, "note_tag") && is_text(op, "add");
    if add || (is_text(et, "note_tag") && is_text(op, "remove")) {
        let tid = match &tag_id {
            Some(s) => match parse_uuid(s.as_str()) {
                Ok(u) => u,
                Err(_) => {
                    return None;
                },
            },
            None => {
                return None;
            },
        };
        let (t, v, w) = meta_from_data(updated_at, vv, last_writer, ts);
        return if add {
            Some(Change::NoteTagAdd { note_id: id, tag_id: tid, updated_at: t, vv: v, last_writer: w })
        } else {
            Some(Change::NoteTagRemove { note_id: id, tag_id: tid, updated_at: t, vv: v, last_writer: w })
        };
    }
    if is_text(et, "resource") && is_text(op, "create") {
        return match resource {
            Some(x) => Some(Change::ResourceCreate { resource: x, data: blob }),
            None => None,
        };
    }
    if is_text(et, "resource") && is_text(op, "delete") {
        let (t, v, w) = meta_from_data(deleted_at, vv, last_writer, ts);
        return Some(Change::ResourceDelete { id, deleted_at: t, vv: v, last_writer: w });
    }
    None
}

/// The change that an entry of the file store's log records (see [`journal_change`]).
pub fn log_entry_to_change(entry: LogEntry) -> (r: Option<Change>)
    ensures
        journal_change(entry, r),
{
    let LogEntry { timestamp, entity_type, entity_id, operation, data } = entry;
    change_from_parts(&entity_type, &operation, entity_id, timestamp, data, true, None)
}

/// The change that a row of the database's change journal records: none unless its
/// entity identifier reads as one; otherwise as [`change_of`] says, without the older
/// operation names, and with a resource create carrying the bytes that the base64 text
/// `data_b64` of its data decodes to (none where it is missing or invalid).
pub open spec fn row_change(
    entity_type: Seq<char>,
    entity_id: Seq<char>,
    operation: Seq<char>,
    changed_at: i128,
    data: LogData,
    data_b64: Option<Seq<char>>,
    r: Option<Change>,
) -> bool {
    match uuid_parse(entity_id) {
        None => r is None,
        Some(id) => change_of(
            entity_type,
            operation,
            id,
            changed_at,
            data,
            false,
            match data_b64 {
                Some(t) => base64_decode(t),
                None => None,
            },
            r,
        ),
    }
}

/// The change that a row of the database's change journal records (see [`row_change`]).
pub fn row_to_change(
    entity_type: &str,
    entity_id: &str,
    operation: &str,
    changed_at: i128,
    data: LogData,
    data_b64: Option<&str>,
) -> (r: Option<Change>)
    ensures
        row_change(
            entity_type@,
            entity_id@,
            operation@,
            changed_at,
            data,
            match data_b64 {
                Some(t) => Some(t@),
                None => None,
            },
            r,
        ),
{
    let id = match parse_uuid(entity_id) {
        Ok(u) => u,
        Err(_) => {
            return None;
        },
    };
    let blob = match data_b64 {
        Some(t) => match decode_base64(t) {
            Ok(b) => Some(b),
            Err(_) => None,
        },
        None => None,
    };
    let et = entity_type.to_owned();
    let op = operation.to_owned();
    change_from_parts(&et, &op, id, changed_at, data, false, blob)
}

} // verus!
