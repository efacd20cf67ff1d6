pub mod diff_law;
pub mod protocol;
pub mod state;

use vstd::prelude::*;

use crate::links::split_chars;
use crate::models::Change;
use crate::text::{chars_of, split_on, string_of};

verus! {

/// Connection settings of the collaborative channel: the server's HTTP base, its
/// WebSocket endpoint, and this device's token.
#[derive(Debug, Clone)]
pub struct CollabConfig {
    pub api_url: String,
    pub ws_url: String,
    pub token: String,
}

/// The bytes that base64 (URL-safe alphabet, no padding) decodes from a text.
pub uninterp spec fn base64_url_decode(text: Seq<char>) -> Option<Seq<u8>>;

/// The text value of a top-level field of the JSON object in `bytes`.
pub uninterp spec fn json_str_field(bytes: Seq<u8>, key: Seq<char>) -> Option<Seq<char>>;

/// Decodes base64 with the URL-safe alphabet and no padding.
///
/// Trusted: calls `base64::engine::general_purpose::URL_SAFE_NO_PAD.decode`; the bytes
/// are only named.
#[verifier::external_body]
fn decode_base64_url(text: &str) -> (r: Option<Vec<u8>>)
    ensures
        match r {
            Some(b) => base64_url_decode(text@) == Some(b@),
            None => base64_url_decode(text@) is None,
        },
{
    base64::Engine::decode(&base64::engine::general_purpose::URL_SAFE_NO_PAD, text).ok()
}

/// Reads a text field of a JSON object.
///
/// Trusted: calls `serde_json::from_slice` into a `serde_json::Value`, then `get` and
/// `as_str`; the text is only named.
#[verifier::external_body]
fn read_json_str_field(bytes: &[u8], key: &str) -> (r: Option<String>)
    ensures
        match r {
            Some(s) => json_str_field(bytes@, key@) == Some(s@),
            None => json_str_field(bytes@, key@) is None,
        },
{
    let value: serde_json::Value = serde_json::from_slice(bytes).ok()?;
    value.get(key)?.as_str().map(|s| s.to_owned())
}

/// The `device_id` claim of a token: the second `.`-separated part, base64-decoded and
/// read as a JSON object. The token's signature is not checked.
pub open spec fn spec_device_id(token: Seq<char>) -> Option<Seq<char>> {
    let parts = split_on(token, '.');
    if parts.len() < 2 {
        None
    } else {
        match base64_url_decode(parts[1]) {
            Some(b) => json_str_field(b, "device_id"@),
            None => None,
        }
    }
}

/// The `device_id` claim of a token, read without checking its signature.
pub fn device_id_from_token(token: &str) -> (r: Option<String>)
    ensures
        match r {
            Some(s) => spec_device_id(token@) == Some(s@),
            None => spec_device_id(token@) is None,
        },
{
    let cs = chars_of(token);
    let parts = split_chars(cs.as_slice(), '.');
    assert(parts@.map_values(|v: Vec<char>| v@) == split_on(token@, '.'));
    if parts.len() < 2 {
        return None;
    }
    assert(split_on(token@, '.')[1] == parts@[1]@);
    let payload = string_of(parts[1].as_slice());
    let bytes = match decode_base64_url(payload.as_str()) {
        Some(b) => b,
        None => {
            return None;
        },
    };
    read_json_str_field(bytes.as_slice(), "device_id")
}

/// Whether a change is of a note: those travel over the collaborative channel, not the
/// relay journal.
pub open spec fn spec_is_note_change(c: Change) -> bool {
    c is NoteCreate || c is NoteUpdate || c is NoteDelete
}

/// Whether a change is a note create, update or delete.
pub fn is_note_change(change: &Change) -> (r: bool)
    ensures
        r == spec_is_note_change(*change),
{
    match change {
        Change::NoteCreate { .. } | Change::NoteUpdate { .. } | Change::NoteDelete { .. } => true,
        _ => false,
    }
}

/// A change as the relay carries it: a resource create without its inline bytes.
pub open spec fn spec_strip_resource_blob(c: Change) -> Change {
    match c {
        Change::ResourceCreate { resource, data } => Change::ResourceCreate { resource, data: None },
        _ => c,
    }
}

/// Drops the inline bytes of a resource create; the server holds the blob, uploaded
/// apart from the journal. Any other change is returned as it is.
pub fn strip_resource_blob(change: Change) -> (r: Change)
    ensures
        r == spec_strip_resource_blob(change),
{
    match change {
        Change::ResourceCreate { resource, .. } => Change::ResourceCreate { resource, data: None },
        other => other,
    }
}

/// The changes of `cs` that the relay carries, in order: every change but those of
/// notes, with resource bytes dropped.
pub open spec fn relayed(cs: Seq<Change>) -> Seq<Change>
    decreases cs.len(),
{
    if cs.len() == 0 {
        Seq::empty()
    } else {
        let rest = relayed(cs.drop_last());
        if spec_is_note_change(cs.last()) {
            rest
        } else {
            rest.push(spec_strip_resource_blob(cs.last()))
        }
    }
}

/// The journal that the collaborative backend hands to the relay: note changes left
/// out (the collaborative channel owns them) and resource bytes dropped.
pub fn relay_changes(changes: Vec<Change>) -> (r: Vec<Change>)
    ensures
        r@ == relayed(changes@),
{
    let mut out: Vec<Change> = Vec::new();
    let n = changes.len();
    let mut rest = changes;
    let ghost all = changes@;
    let mut i: usize = 0;
    while rest.len() > 0
        invariant
            i + rest@.len() == all.len(),
            all.len() == n,
            rest@ == all.skip(i as int),
            out@ == relayed(all.take(i as int)),
        decreases rest@.len(),
    {
        let c = rest.remove(0);
        proof {
            assert(c == all[i as int]);
            assert(all.take(i as int + 1).drop_last() == all.take(i as int));
            assert(rest@ == all.skip(i as int + 1));
        }
        if !is_note_change(&c) {
            out.push(strip_resource_blob(c));
        }
        i = i + 1;
    }
    proof {
        assert(all.take(i as int) == all);
    }
    out
}

/// The relay carries every change that is not a note create, update or delete (tags,
/// notebooks, tag placements, resources), with resource bytes dropped, and no change
/// of a note: those travel over the collaborative channel.
pub proof fn lemma_relay_keeps_all_but_notes(cs: Seq<Change>)
    ensures
        forall|i: int|
            0 <= i < cs.len() && !(cs[i] is NoteCreate || cs[i] is NoteUpdate || cs[i] is NoteDelete)
                ==> relayed(cs).contains(#[trigger] spec_strip_resource_blob(cs[i])),
        forall|j: int|
            0 <= j < relayed(cs).len() ==> !(relayed(cs)[j] is NoteCreate || relayed(cs)[j] is NoteUpdate
                || relayed(cs)[j] is NoteDelete),
        forall|j: int|
            0 <= j < relayed(cs).len() ==> !(#[trigger] relayed(cs)[j] matches Change::ResourceCreate {
                data: Some(_),
                ..
            }),
        relayed(cs).len() <= cs.len(),
    decreases cs.len(),
{
    if cs.len() > 0 {
        let t = cs.drop_last();
        lemma_relay_keeps_all_but_notes(t);
        let rest = relayed(t);
        assert forall|i: int|
            0 <= i < cs.len() && !(cs[i] is NoteCreate || cs[i] is NoteUpdate || cs[i] is NoteDelete)
                implies relayed(cs).contains(#[trigger] spec_strip_resource_blob(cs[i])) by {
            if i < cs.len() - 1 {
                assert(cs[i] == t[i]);
                assert(rest.contains(spec_strip_resource_blob(t[i])));
                if !spec_is_note_change(cs.last()) {
                    let k = choose|k: int| 0 <= k < rest.len() && rest[k] == spec_strip_resource_blob(t[i]);
                    assert(relayed(cs)[k] == rest[k]);
                }
            } else {
                assert(relayed(cs) == rest.push(spec_strip_resource_blob(cs.last())));
                assert(relayed(cs)[rest.len() as int] == spec_strip_resource_blob(cs[i]));
            }
        }
        assert forall|j: int| 0 <= j < relayed(cs).len() implies !(relayed(cs)[j] is NoteCreate
            || relayed(cs)[j] is NoteUpdate || relayed(cs)[j] is NoteDelete) && !(#[trigger] relayed(cs)[j] matches Change::ResourceCreate {
                data: Some(_),
                ..
            }) by {
            if j < rest.len() {
                assert(relayed(cs)[j] == rest[j]);
            }
        }
    }
}

} // verus!
