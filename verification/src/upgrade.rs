use vstd::prelude::*;

use crate::calendar::{trim, trim_text};
use crate::error::StorageError;
use crate::links::{parse_u32, spec_parse_u32};
use crate::storage::{ends_with_lit, starts_with_lit};
use crate::text::{chars_of, decimal, push_decimal};

verus! {

/// The on-disk format version of the file store that this build writes.
pub const FORMAT_VERSION: u32 = 5;

/// The database schema version that this build writes.
pub const SCHEMA_VERSION: u32 = 5;

/// The format version that a store's stamp records: the stamp's trimmed text read as a
/// number. A stamp that does not read as one, and a missing stamp (a store older than
/// stamps), are version 1.
pub open spec fn spec_stored_format_version(stamp: Option<Seq<char>>) -> u32 {
    match stamp {
        Some(t) => match spec_parse_u32(trim(t)) {
            Some(v) => v,
            None => 1,
        },
        None => 1,
    }
}

/// Reads the format version that a store's stamp records.
pub fn stored_format_version(stamp: Option<&str>) -> (r: u32)
    ensures
        r == spec_stored_format_version(
            match stamp {
                Some(t) => Some(t@),
                None => None,
            },
        ),
{
    match stamp {
        Some(t) => {
            let cs = chars_of(t);
            let trimmed = trim_text(cs.as_slice());
            match parse_u32(trimmed.as_slice()) {
                Some(v) => v,
                None => 1,
            }
        },
        None => 1,
    }
}

/// The schema version that the database's `user_version` records: negative values are
/// zero, and the value is cut to 32 bits.
pub fn schema_version_of(user_version: i64) -> (r: u32)
    ensures
        r == (if user_version < 0 {
            0
        } else {
            user_version as u32
        }),
{
    if user_version < 0 {
        0
    } else {
        user_version as u32
    }
}

/// The versions to step through, in order, from `current` up to `latest`.
pub open spec fn upgrade_steps(current: u32, latest: u32) -> Seq<u32> {
    Seq::new((latest - current) as nat, |i: int| (current + 1 + i) as u32)
}

/// The refusal of a store whose format is newer than this build.
pub open spec fn newer_format_message(current: u32) -> Seq<char> {
    "on-disk format version "@ + decimal(current as nat)
        + " is newer than this build supports (max "@ + decimal(FORMAT_VERSION as nat)
        + "); upgrade keeplin to open this store"@
}

/// The refusal of a database whose schema is newer than this build.
pub open spec fn newer_schema_message(current: u32) -> Seq<char> {
    "database schema version "@ + decimal(current as nat)
        + " is newer than this build supports (max "@ + decimal(SCHEMA_VERSION as nat)
        + "); upgrade keeplin to open it"@
}

/// The versions from `current + 1` to `latest`.
fn steps(current: u32, latest: u32) -> (r: Vec<u32>)
    requires
        current <= latest,
    ensures
        r@ == upgrade_steps(current, latest),
{
    let mut out: Vec<u32> = Vec::new();
    let mut v = current;
    while v < latest
        invariant
            current <= v <= latest,
            out@ == upgrade_steps(current, v),
        decreases latest - v,
    {
        v = v + 1;
        out.push(v);
        assert(out@ =~= upgrade_steps(current, v));
    }
    out
}

/// The format migrations that bring a store at version `current` up to this build's, in
/// order; a store newer than this build is refused.
pub fn format_upgrade_plan(current: u32) -> (r: Result<Vec<u32>, StorageError>)
    ensures
        match r {
            Ok(v) => current <= FORMAT_VERSION && v@ == upgrade_steps(current, FORMAT_VERSION),
            Err(e) => current > FORMAT_VERSION && (e matches StorageError::InvalidState(m)
                && m@ == newer_format_message(current)),
        },
{
    if current > FORMAT_VERSION {
        let mut m = String::new();
        m.append("on-disk format version ");
        push_decimal(&mut m, current as u64);
        m.append(" is newer than this build supports (max ");
        push_decimal(&mut m, FORMAT_VERSION as u64);
        m.append("); upgrade keeplin to open this store");
        return Err(StorageError::InvalidState(m));
    }
    Ok(steps(current, FORMAT_VERSION))
}

/// The refusal of a format version that has no migration.
pub open spec fn no_migration_message(version: u32) -> Seq<char> {
    "no filesystem migration defined for format version "@ + decimal(version as nat)
}

/// Checks the migration to a format version: versions 2 to 5 change nothing on disk;
/// any other has none.
pub fn format_migration(version: u32) -> (r: Result<(), StorageError>)
    ensures
        match r {
            Ok(_) => 2 <= version <= 5,
            Err(e) => !(2 <= version <= 5) && (e matches StorageError::InvalidState(m)
                && m@ == no_migration_message(version)),
        },
{
    if 2 <= version && version <= 5 {
        Ok(())
    } else {
        let mut m = String::new();
        m.append("no filesystem migration defined for format version ");
        push_decimal(&mut m, version as u64);
        Err(StorageError::InvalidState(m))
    }
}

/// The schema migrations that bring a database at version `current` up to this build's,
/// in order; a database newer than this build is refused.
pub fn schema_upgrade_plan(current: u32) -> (r: Result<Vec<u32>, StorageError>)
    ensures
        match r {
            Ok(v) => current <= SCHEMA_VERSION && v@ == upgrade_steps(current, SCHEMA_VERSION),
            Err(e) => current > SCHEMA_VERSION && (e matches StorageError::InvalidState(m)
                && m@ == newer_schema_message(current)),
        },
{
    if current > SCHEMA_VERSION {
        let mut m = String::new();
        m.append("database schema version ");
        push_decimal(&mut m, current as u64);
        m.append(" is newer than this build supports (max ");
        push_decimal(&mut m, SCHEMA_VERSION as u64);
        m.append("); upgrade keeplin to open it");
        return Err(StorageError::InvalidState(m));
    }
    Ok(steps(current, SCHEMA_VERSION))
}

/// Whether a file name is a temporary file left by an interrupted write: it ends in
/// `.tmp` and is not one of Syncthing's own (`.syncthing.` prefix).
pub open spec fn spec_is_orphan_tmp(name: Seq<char>) -> bool {
    &&& ".tmp"@.len() <= name.len()
    &&& name.skip(name.len() - ".tmp"@.len()) == ".tmp"@
    &&& !(".syncthing."@.len() <= name.len() && name.take(".syncthing."@.len() as int) == ".syncthing."@)
}

/// Whether a file name is a temporary file that the store may sweep away.
pub fn is_orphan_tmp(name: &str) -> (r: bool)
    ensures
        r == spec_is_orphan_tmp(name@),
{
    let cs = chars_of(name);
    ends_with_lit(cs.as_slice(), ".tmp") && !starts_with_lit(cs.as_slice(), ".syncthing.")
}

/// Whether `lit` occurs in `s`.
pub open spec fn occurs_in(s: Seq<char>, lit: Seq<char>) -> bool {
    exists|i: int| 0 <= i && i + lit.len() <= s.len() && #[trigger] s.subrange(i, i + lit.len()) == lit
}

/// Whether `p` occurs in `s` at position `i`.
fn occurs_at(s: &[char], i: usize, p: &[char]) -> (r: bool)
    requires
        i + p@.len() <= s.len(),
    ensures
        r == (s@.subrange(i as int, i + p@.len()) == p@),
{
    let mut k: usize = 0;
    while k < p.len()
        invariant
            0 <= k <= p@.len(),
            i + p@.len() <= s.len(),
            forall|t: int| 0 <= t < k ==> s@[i + t] == p@[t],
        decreases p@.len() - k,
    {
        if s[i + k] != p[k] {
            assert(s@.subrange(i as int, i + p@.len())[k as int] != p@[k as int]);
            return false;
        }
        k = k + 1;
    }
    assert(s@.subrange(i as int, i + p@.len()) =~= p@);
    true
}

/// Whether a file name is a copy that Syncthing made of a file two devices wrote.
pub fn is_sync_conflict_copy(name: &str) -> (r: bool)
    ensures
        r == occurs_in(name@, ".sync-conflict-"@),
{
    let cs = chars_of(name);
    let pat = chars_of(".sync-conflict-");
    proof {
        reveal_strlit(".sync-conflict-");
    }
    let n = cs.len();
    if pat.len() > n {
        return false;
    }
    let last = n - pat.len();
    let mut i: usize = 0;
    while i <= last
        invariant
            cs@ == name@,
            pat@ == ".sync-conflict-"@,
            pat@.len() > 0,
            last + pat@.len() == n,
            n == cs@.len(),
            0 <= i <= last + 1,
            forall|j: int| 0 <= j < i ==> #[trigger] cs@.subrange(j, j + pat@.len()) != pat@,
        decreases last + 1 - i,
    {
        if occurs_at(cs.as_slice(), i, pat.as_slice()) {
            return true;
        }
        i = i + 1;
    }
    false
}

} // verus!
