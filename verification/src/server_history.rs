use vstd::prelude::*;

use crate::history::EntityVersion;
use crate::ids::{uuid_text, uuid_to_string};
use crate::text::{decimal, push_decimal};

verus! {

/// How many versions a history holds when no limit is asked for.
pub const DEFAULT_HISTORY_LIMIT: u32 = 100;

/// What is known of a sync server's capabilities: nothing yet, that they cannot be had,
/// or the names it listed.
#[derive(Debug, Clone)]
pub enum CapabilityCache {
    Unknown,
    Unavailable,
    Known(Vec<String>),
}

/// The capability names, as character sequences.
pub open spec fn names_view(v: Seq<String>) -> Seq<Seq<char>> {
    v.map_values(|s: String| s@)
}

impl CapabilityCache {
    /// Whether the server must be asked for its capabilities: only while nothing is known.
    pub fn needs_probe(&self) -> (r: bool)
        ensures
            r == (*self is Unknown),
    {
        match self {
            CapabilityCache::Unknown => true,
            _ => false,
        }
    }

    /// What is known after asking the server: the names its `/version` reply listed, or
    /// that they cannot be had when the reply failed. What was known already stays.
    pub fn after_probe(self, reply: Option<Vec<String>>) -> (r: CapabilityCache)
        ensures
            self is Unknown ==> match reply {
                Some(c) => r == CapabilityCache::Known(c),
                None => r is Unavailable,
            },
            !(self is Unknown) ==> r == self,
    {
        match self {
            CapabilityCache::Unknown => match reply {
                Some(c) => CapabilityCache::Known(c),
                None => CapabilityCache::Unavailable,
            },
            other => other,
        }
    }

    /// Whether the server has a capability: known only when its names are.
    pub fn has(&self, capability: &str) -> (r: Option<bool>)
        ensures
            match self {
                CapabilityCache::Known(c) => r == Some(names_view(c@).contains(capability@)),
                _ => r is None,
            },
    {
        match self {
            CapabilityCache::Known(c) => {
                let want = capability.to_owned();
                let mut i: usize = 0;
                while i < c.len()
                    invariant
                        0 <= i <= c@.len(),
                        *self == CapabilityCache::Known(*c),
                        want@ == capability@,
                        forall|j: int| 0 <= j < i ==> (#[trigger] c@[j])@ != capability@,
                    decreases c@.len() - i,
                {
                    if c[i] == want {
                        assert(names_view(c@).len() == c@.len());
                        assert(names_view(c@)[i as int] == capability@);
                        assert(names_view(c@).contains(capability@));
                        return Some(true);
                    }
                    i = i + 1;
                }
                assert(!names_view(c@).contains(capability@)) by {
                    if names_view(c@).contains(capability@) {
                        let j = choose|j: int| 0 <= j < names_view(c@).len() && names_view(c@)[j] == capability@;
                        assert(c@[j]@ == capability@);
                    }
                }
                Some(false)
            },
            _ => None,
        }
    }
}

/// Where an entity's history comes from.
#[derive(Debug, Clone, Copy, PartialEq, Eq, Structural)]
pub enum HistorySource {
    /// The local change journal.
    Local,
    /// The sync server's history endpoint.
    Server,
}

/// Whether to ask the server for an entity's history: not once it is known to lack the
/// endpoint, not when it does not list the `history` capability (which marks it as
/// lacking it), and not without a server address. The flag says whether to mark it.
pub fn history_source(unsupported: bool, history_capability: Option<bool>, has_base: bool) -> (r: (
    HistorySource,
    bool,
))
    ensures
        r == (if unsupported {
            (HistorySource::Local, false)
        } else if history_capability == Some(false) {
            (HistorySource::Local, true)
        } else if !has_base {
            (HistorySource::Local, false)
        } else {
            (HistorySource::Server, false)
        }),
{
    if unsupported {
        (HistorySource::Local, false)
    } else if history_capability == Some(false) {
        (HistorySource::Local, true)
    } else if !has_base {
        (HistorySource::Local, false)
    } else {
        (HistorySource::Server, false)
    }
}

/// What a history reply's HTTP status means: a 404 says the server has no history
/// endpoint (use the journal and remember it), another client or server error says to
/// use the journal this time, anything else is read.
pub fn on_history_status(status: u16) -> (r: (bool, bool))
    ensures
        r == (if status == 404 {
            (false, true)
        } else if 400 <= status <= 599 {
            (false, false)
        } else {
            (true, false)
        }),
{
    if status == 404 {
        (false, true)
    } else if 400 <= status && status <= 599 {
        (false, false)
    } else {
        (true, false)
    }
}

/// The most versions to read: the limit asked for, or the default for none.
pub fn history_cap(limit: u32) -> (r: u32)
    ensures
        r == if limit == 0 {
            DEFAULT_HISTORY_LIMIT
        } else {
            limit
        },
{
    if limit == 0 {
        DEFAULT_HISTORY_LIMIT
    } else {
        limit
    }
}

/// The address of an entity's history on the server.
pub open spec fn spec_history_url(base: Seq<char>, entity_type: Seq<char>, id: u128, cap: u32) -> Seq<char> {
    base + "/api/"@ + entity_type + "s/"@ + uuid_text(id) + "/history?limit="@ + decimal(cap as nat)
}

/// The address of an entity's history on the server.
pub fn history_url(base: &str, entity_type: &str, id: u128, cap: u32) -> (r: String)
    ensures
        r@ == spec_history_url(base@, entity_type@, id, cap),
{
    let mut out = base.to_owned();
    out.append("/api/");
    out.append(entity_type);
    out.append("s/");
    let idt = uuid_to_string(id);
    out.append(idt.as_str());
    out.append("/history?limit=");
    push_decimal(&mut out, cap as u64);
    out
}

/// A version as the server lists it: when, by which device, and the entity then (`None`
/// for a deletion), which may not read as one (`Some(None)`).
#[derive(Debug, Clone)]
pub struct ServerVersion<T> {
    pub timestamp: i128,
    pub device_id: String,
    pub entity: Option<Option<T>>,
}

/// The versions that a server's list gives, in order: those whose entity does not read
/// are left out.
pub open spec fn readable_versions<T>(vs: Seq<ServerVersion<T>>) -> Seq<EntityVersion<T>>
    decreases vs.len(),
{
    if vs.len() == 0 {
        Seq::empty()
    } else {
        let prev = readable_versions(vs.drop_last());
        let v = vs.last();
        match v.entity {
            Some(None) => prev,
            Some(Some(e)) => prev.push(EntityVersion { timestamp: v.timestamp, device_id: v.device_id, entity: Some(e) }),
            None => prev.push(EntityVersion { timestamp: v.timestamp, device_id: v.device_id, entity: None }),
        }
    }
}

/// The versions of a server's history reply that read.
pub fn server_versions<T>(listed: Vec<ServerVersion<T>>) -> (r: Vec<EntityVersion<T>>)
    ensures
        r@ == readable_versions(listed@),
{
    let ghost all = listed@;
    let n = listed.len();
    let mut rest = listed;
    let mut out: Vec<EntityVersion<T>> = Vec::new();
    let mut i: usize = 0;
    while rest.len() > 0
        invariant
            i + rest@.len() == all.len(),
            all.len() == n,
            rest@ == all.skip(i as int),
            out@ == readable_versions(all.take(i as int)),
        decreases rest@.len(),
    {
        let v = rest.remove(0);
        proof {
            assert(v == all[i as int]);
            assert(all.take(i as int + 1).drop_last() =~= all.take(i as int));
            assert(rest@ =~= all.skip(i as int + 1));
        }
        let ServerVersion { timestamp, device_id, entity } = v;
        match entity {
            Some(None) => {},
            Some(Some(e)) => {
                out.push(EntityVersion { timestamp, device_id, entity: Some(e) });
            },
            None => {
                out.push(EntityVersion { timestamp, device_id, entity: None });
            },
        }
        i = i + 1;
    }
    assert(all.take(i as int) =~= all);
    out
}

/// What a row of the local change journal gives of an entity's history: the entity its
/// data reads as for a create or update (the row is passed over when it does not read),
/// a deletion for a delete, and nothing for any other operation.
pub fn journal_version<T>(operation: &str, parsed: Option<T>) -> (r: Option<Option<T>>)
    ensures
        r == if operation@ == "create"@ || operation@ == "update"@ {
            match parsed {
                Some(e) => Some(Some(e)),
                None => None,
            }
        } else if operation@ == "delete"@ {
            Some(None)
        } else {
            None
        },
{
    let op = operation.to_owned();
    let create = "create".to_owned();
    let update = "update".to_owned();
    let delete = "delete".to_owned();
    if op == create || op == update {
        match parsed {
            Some(e) => Some(Some(e)),
            None => None,
        }
    } else if op == delete {
        Some(None)
    } else {
        None
    }
}

} // verus!
