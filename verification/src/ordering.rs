use vstd::prelude::*;
use vstd::seq_lib::*;
use vstd::string::*;

use crate::error::StorageError;
use crate::ids::NIL_ID;
use crate::models::Note;
use crate::text::{decimal, push_decimal};

verus! {

broadcast use group_to_multiset_ensures;

/// The Inbox system notebook: the nil identifier.
pub const INBOX_ID: u128 = NIL_ID;

/// Title of the Inbox system notebook.
pub const INBOX_TITLE: &'static str = "Inbox";

/// Highest sort key of the pinned band `1..=PIN_MAX`.
pub const PIN_MAX: u32 = 999;

/// Most pinned notes one notebook may hold.
pub const MAX_PINNED: usize = 999;

/// First sort key of the normal band; also the key a note without one sorts at.
pub const NORMAL_START: u32 = 1000;

/// Distance between consecutive keys when the Inbox is renumbered.
pub const RESEQUENCE_STEP: u32 = 1000;

/// Whether a notebook identifier names the Inbox.
pub fn is_inbox(id: u128) -> (r: bool)
    ensures
        r == (id == INBOX_ID),
{
    id == INBOX_ID
}

/// Whether a sequence of keys is in ascending order.
pub open spec fn ascending(s: Seq<u32>) -> bool {
    forall|i: int, j: int| 0 <= i <= j < s.len() ==> s[i] <= s[j]
}

/// Whether `m` occurs among the first `i` elements of `s`.
pub open spec fn key_below(s: Seq<u32>, i: int, m: u32) -> bool {
    exists|j: int| 0 <= j < i && #[trigger] s[j] == m
}

/// The lowest free key of the pinned band, given the band's used keys in ascending
/// order; `None` when all of `1..=PIN_MAX` are taken.
pub fn lowest_free_pinned_key(used: &[u32]) -> (r: Option<u32>)
    requires
        ascending(used@),
    ensures
        r matches Some(k) ==> 1 <= k <= PIN_MAX && !used@.contains(k) && forall|m: u32|
            1 <= m < k ==> used@.contains(m),
        r is None ==> forall|m: u32| 1 <= m <= PIN_MAX ==> used@.contains(m),
{
    let mut candidate: u32 = 1;
    let mut i: usize = 0;
    let mut done = false;
    while i < used.len() && !done
        invariant
            ascending(used@),
            0 <= i <= used@.len(),
            1 <= candidate <= PIN_MAX + 1,
            forall|m: u32| 1 <= m < candidate ==> #[trigger] key_below(used@, i as int, m),
            !done ==> forall|j: int| 0 <= j < i ==> used@[j] < candidate,
            done ==> candidate > PIN_MAX || forall|j: int|
                0 <= j < used@.len() ==> used@[j] != candidate,
        decreases used@.len() - i, if done { 0int } else { 1int },
    {
        let key = used[i];
        if key > candidate || candidate > PIN_MAX {
            proof {
                if candidate <= PIN_MAX {
                    assert forall|j: int| 0 <= j < used@.len() implies used@[j] != candidate by {
                        if j >= i {
                            assert(used@[i as int] <= used@[j]);
                        }
                    }
                }
            }
            done = true;
        } else {
            if key == candidate {
                proof {
                    assert forall|m: u32| 1 <= m < candidate + 1 implies #[trigger] key_below(
                        used@,
                        i + 1,
                        m,
                    ) by {
                        if m == candidate {
                            assert(used@[i as int] == m);
                        } else {
                            assert(key_below(used@, i as int, m));
                            let j = choose|j: int| 0 <= j < i && #[trigger] used@[j] == m;
                            assert(used@[j] == m);
                        }
                    }
                }
                candidate = candidate + 1;
            } else {
                proof {
                    assert forall|m: u32| 1 <= m < candidate implies #[trigger] key_below(
                        used@,
                        i + 1,
                        m,
                    ) by {
                        assert(key_below(used@, i as int, m));
                        let j = choose|j: int| 0 <= j < i && #[trigger] used@[j] == m;
                        assert(used@[j] == m);
                    }
                }
            }
            i = i + 1;
        }
    }
    proof {
        assert forall|m: u32| 1 <= m < candidate implies #[trigger] used@.contains(m) by {
            assert(key_below(used@, i as int, m));
            let j = choose|j: int| 0 <= j < i && #[trigger] used@[j] == m;
            assert(used@[j] == m);
        }
    }
    if candidate <= PIN_MAX {
        Some(candidate)
    } else {
        None
    }
}

/// What the keys of a notebook's notes show: its used pinned keys in ascending order,
/// its lowest key and its highest key outside the pinned band.
#[derive(Debug, Clone, PartialEq, Eq)]
pub struct NotebookSortProfile {
    pub pinned_keys: Vec<u32>,
    pub min_key: Option<u32>,
    pub max_normal_key: Option<u32>,
}

/// Whether a key lies in the pinned band `1..1000`.
pub open spec fn in_pinned_band(k: u32) -> bool {
    1 <= k < 1000
}

/// Smallest element of a sequence of keys.
pub open spec fn seq_min(s: Seq<u32>) -> Option<u32>
    decreases s.len(),
{
    if s.len() == 0 {
        None
    } else {
        match seq_min(s.drop_last()) {
            None => Some(s.last()),
            Some(m) => Some(if s.last() < m {
                s.last()
            } else {
                m
            }),
        }
    }
}

/// Largest key of a sequence that lies outside the pinned band.
pub open spec fn seq_max_normal(s: Seq<u32>) -> Option<u32>
    decreases s.len(),
{
    if s.len() == 0 {
        None
    } else if in_pinned_band(s.last()) {
        seq_max_normal(s.drop_last())
    } else {
        match seq_max_normal(s.drop_last()) {
            None => Some(s.last()),
            Some(m) => Some(if s.last() > m {
                s.last()
            } else {
                m
            }),
        }
    }
}

/// Inserts `k` into an ascending vector, keeping it ascending.
fn insert_ascending(v: &mut Vec<u32>, k: u32)
    requires
        ascending(old(v)@),
    ensures
        ascending(final(v)@),
        final(v)@.to_multiset() == old(v)@.to_multiset().insert(k),
{
    let mut p: usize = 0;
    while p < v.len() && v[p] <= k
        invariant
            0 <= p <= v@.len(),
            forall|j: int| 0 <= j < p ==> v@[j] <= k,
        decreases v@.len() - p,
    {
        p = p + 1;
    }
    let ghost before = v@;
    v.insert(p, k);
    assert(v@ == before.insert(p as int, k));
    assert forall|i: int, j: int| 0 <= i <= j < v@.len() implies v@[i] <= v@[j] by {
        if j < p {
        } else if i > p {
        } else if i == p && j == p {
        } else if i == p {
            assert(before[j - 1] > k || j - 1 >= p);
            assert(before[p as int] > k);
            assert(before[p as int] <= before[j - 1]);
        } else {
            assert(i < p);
            if j == p {
            } else {
                assert(before[i] <= before[j - 1]);
            }
        }
    }
}

impl NotebookSortProfile {
    /// The profile of a notebook whose notes have the given effective keys.
    pub fn from_effective_keys(keys: &[u32]) -> (r: NotebookSortProfile)
        ensures
            ascending(r.pinned_keys@),
            r.pinned_keys@.to_multiset() == keys@.filter(|k: u32| in_pinned_band(k)).to_multiset(),
            r.min_key == seq_min(keys@),
            r.max_normal_key == seq_max_normal(keys@),
    {
        let mut pinned: Vec<u32> = Vec::new();
        let mut min_key: Option<u32> = None;
        let mut max_normal: Option<u32> = None;
        let mut i: usize = 0;
        while i < keys.len()
            invariant
                0 <= i <= keys@.len(),
                ascending(pinned@),
                pinned@.to_multiset() == keys@.take(i as int).filter(|k: u32| in_pinned_band(k)).to_multiset(),
                min_key == seq_min(keys@.take(i as int)),
                max_normal == seq_max_normal(keys@.take(i as int)),
            decreases keys@.len() - i,
        {
            let key = keys[i];
            proof {
                assert(keys@.take(i + 1).drop_last() =~= keys@.take(i as int));
                assert(keys@.take(i + 1) =~= keys@.take(i as int).push(key));
                keys@.take(i as int).lemma_filter_push(key, |k: u32| in_pinned_band(k));
            }
            min_key = match min_key {
                None => Some(key),
                Some(m) => Some(if key < m { key } else { m }),
            };
            if 1 <= key && key < 1000 {
                insert_ascending(&mut pinned, key);
            } else {
                max_normal = match max_normal {
                    None => Some(key),
                    Some(m) => Some(if key > m { key } else { m }),
                };
            }
            i = i + 1;
        }
        assert(keys@.take(keys@.len() as int) =~= keys@);
        NotebookSortProfile { pinned_keys: pinned, min_key, max_normal_key: max_normal }
    }
}

/// The key right after a notebook's normal band, saturating at the top.
pub open spec fn spec_next_normal_key(p: NotebookSortProfile) -> u32 {
    match p.max_normal_key {
        Some(m) => if m == u32::MAX {
            u32::MAX
        } else {
            (m + 1) as u32
        },
        None => NORMAL_START,
    }
}

/// The key that appends a note to the end of a notebook's normal band.
pub fn next_normal_key(profile: &NotebookSortProfile) -> (r: u32)
    ensures
        r == spec_next_normal_key(*profile),
{
    match profile.max_normal_key {
        Some(m) => m.saturating_add(1),
        None => NORMAL_START,
    }
}

/// Where a new note goes: at a key, or at a key once the Inbox has been renumbered.
#[derive(Debug, Clone, Copy, PartialEq, Eq, Structural)]
pub enum Placement {
    At(u32),
    AfterResequence(u32),
}

/// Where a new note without a key lands: on top of the Inbox (renumbering it first when
/// its lowest key leaves no room), or at the end of another notebook's normal band.
pub open spec fn spec_placement(notebook_id: u128, profile: NotebookSortProfile) -> Placement {
    if notebook_id == INBOX_ID {
        match profile.min_key {
            Some(min) => if min <= 1 {
                Placement::AfterResequence((RESEQUENCE_STEP - 1) as u32)
            } else {
                Placement::At((min - 1) as u32)
            },
            None => Placement::At(NORMAL_START),
        }
    } else {
        Placement::At(spec_next_normal_key(profile))
    }
}

/// Decides where a new note without a key is placed in its notebook.
pub fn placement_for_new_note(notebook_id: u128, profile: &NotebookSortProfile) -> (r: Placement)
    ensures
        r == spec_placement(notebook_id, *profile),
{
    if is_inbox(notebook_id) {
        match profile.min_key {
            Some(min) => if min <= 1 {
                Placement::AfterResequence(RESEQUENCE_STEP - 1)
            } else {
                Placement::At(min - 1)
            },
            None => Placement::At(NORMAL_START),
        }
    } else {
        Placement::At(next_normal_key(profile))
    }
}

/// The keys the Inbox gets when renumbered in listing order: `1000, 2000, …`, saturating.
pub open spec fn resequenced_key(i: nat) -> u32 {
    if (i + 1) * (RESEQUENCE_STEP as nat) <= u32::MAX {
        ((i + 1) * (RESEQUENCE_STEP as nat)) as u32
    } else {
        u32::MAX
    }
}

/// For each Inbox note, in listing order, the key it must be rewritten to when the
/// Inbox is renumbered, or `None` when its effective key already is that key.
pub fn resequence_keys(effective_keys: &[u32]) -> (r: Vec<Option<u32>>)
    ensures
        r@.len() == effective_keys@.len(),
        forall|i: int|
            0 <= i < r@.len() ==> #[trigger] r@[i] == if effective_keys@[i] == resequenced_key(
                i as nat,
            ) {
                None
            } else {
                Some(resequenced_key(i as nat))
            },
{
    let mut out: Vec<Option<u32>> = Vec::new();
    let mut next: u32 = RESEQUENCE_STEP;
    let mut i: usize = 0;
    while i < effective_keys.len()
        invariant
            0 <= i <= effective_keys@.len(),
            out@.len() == i,
            next == resequenced_key(i as nat),
            forall|j: int|
                0 <= j < i ==> #[trigger] out@[j] == if effective_keys@[j] == resequenced_key(
                    j as nat,
                ) {
                    None
                } else {
                    Some(resequenced_key(j as nat))
                },
        decreases effective_keys@.len() - i,
    {
        if effective_keys[i] != next {
            out.push(Some(next));
        } else {
            out.push(None);
        }
        proof {
            if (i + 1) * 1000 <= u32::MAX {
                assert((i + 2) * 1000 == (i + 1) * 1000 + 1000) by (nonlinear_arith);
            } else {
                assert((i + 2) * 1000 > (i + 1) * 1000) by (nonlinear_arith);
            }
        }
        next = next.saturating_add(RESEQUENCE_STEP);
        i = i + 1;
    }
    out
}

/// Why an Inbox note cannot be pinned.
pub const INBOX_PIN_REFUSAL: &'static str = "Inbox notes cannot be pinned (the Inbox is a single manually ordered list)";

/// Checks that a note may be pinned: Inbox notes may not. `Ok(false)` when it is
/// already pinned and nothing is to be done.
pub fn check_pinnable(notebook_id: u128, is_pinned: bool) -> (r: Result<bool, StorageError>)
    ensures
        notebook_id == INBOX_ID ==> (r matches Err(StorageError::InvalidInput(m)) && m@ == INBOX_PIN_REFUSAL@),
        notebook_id != INBOX_ID ==> r == Ok::<bool, StorageError>(!is_pinned),
{
    if is_inbox(notebook_id) {
        return Err(
            StorageError::InvalidInput(INBOX_PIN_REFUSAL.to_owned()),
        );
    }
    Ok(!is_pinned)
}

/// The key a newly pinned note takes: the lowest free key of the pinned band, or a
/// conflict when the band is full.
pub fn pinned_key_for(profile: &NotebookSortProfile) -> (r: Result<u32, StorageError>)
    requires
        ascending(profile.pinned_keys@),
    ensures
        r matches Ok(k) ==> 1 <= k <= PIN_MAX && !profile.pinned_keys@.contains(k) && forall|
            m: u32,
        | 1 <= m < k ==> profile.pinned_keys@.contains(m),
        r matches Err(e) ==> (e matches StorageError::Conflict(msg) && msg@ == "cannot pin: the notebook already has "@
            + decimal(MAX_PINNED as nat) + " pinned notes"@) && forall|m: u32|
            1 <= m <= PIN_MAX ==> profile.pinned_keys@.contains(m),
{
    match lowest_free_pinned_key(profile.pinned_keys.as_slice()) {
        Some(k) => Ok(k),
        None => {
            let mut msg = String::new();
            msg.append("cannot pin: the notebook already has ");
            push_decimal(&mut msg, MAX_PINNED as u64);
            msg.append(" pinned notes");
            Err(StorageError::Conflict(msg))
        },
    }
}

/// Whether a sort key lies in the band of a note: `>= 1` in the Inbox, `1..=PIN_MAX`
/// for a pinned note, `>= NORMAL_START` otherwise.
pub open spec fn key_in_band(notebook_id: u128, is_pinned: bool, key: u32) -> bool {
    if notebook_id == INBOX_ID {
        key >= 1
    } else if is_pinned {
        1 <= key <= PIN_MAX
    } else {
        key >= NORMAL_START
    }
}

/// The text naming a note's band in a rejection.
pub open spec fn band_text(notebook_id: u128, is_pinned: bool) -> Seq<char> {
    if notebook_id == INBOX_ID {
        ">= 1 (Inbox)"@
    } else if is_pinned {
        "1..="@ + decimal(PIN_MAX as nat) + " (pinned)"@
    } else {
        ">= "@ + decimal(NORMAL_START as nat) + " (normal)"@
    }
}

/// Checks a requested sort key against the band of the note it would move.
pub fn check_reorder(notebook_id: u128, is_pinned: bool, new_sort_key: u32) -> (r: Result<
    (),
    StorageError,
>)
    ensures
        key_in_band(notebook_id, is_pinned, new_sort_key) ==> r == Ok::<(), StorageError>(()),
        !key_in_band(notebook_id, is_pinned, new_sort_key) ==> (r matches Err(
            StorageError::InvalidInput(m),
        ) && m@ == "sort_key "@ + decimal(new_sort_key as nat) + " is outside the note's band "@
            + band_text(notebook_id, is_pinned)),
{
    let valid = if is_inbox(notebook_id) {
        new_sort_key >= 1
    } else if is_pinned {
        1 <= new_sort_key && new_sort_key <= PIN_MAX
    } else {
        new_sort_key >= NORMAL_START
    };
    if valid {
        return Ok(());
    }
    let mut msg = String::new();
    msg.append("sort_key ");
    push_decimal(&mut msg, new_sort_key as u64);
    msg.append(" is outside the note's band ");
    if is_inbox(notebook_id) {
        msg.append(">= 1 (Inbox)");
    } else if is_pinned {
        msg.append("1..=");
        push_decimal(&mut msg, PIN_MAX as u64);
        msg.append(" (pinned)");
    } else {
        msg.append(">= ");
        push_decimal(&mut msg, NORMAL_START as u64);
        msg.append(" (normal)");
    }
    Err(StorageError::InvalidInput(msg))
}

/// Moves a live note to a requested sort key: the key is checked against the note's
/// band (see [`check_reorder`]); then the note comes back with the key, and whether it
/// has to be stored, which it has not when the key is the one it already has.
pub fn plan_reorder(note: Note, new_sort_key: u32) -> (r: Result<(Note, bool), StorageError>)
    ensures
        key_in_band(note.notebook_id, note.is_pinned, new_sort_key) ==> (r matches Ok((m, write))
            && m == (Note { sort_key: new_sort_key, ..note }) && write == (note.sort_key
            != new_sort_key)),
        !key_in_band(note.notebook_id, note.is_pinned, new_sort_key) ==> (r matches Err(
            StorageError::InvalidInput(m),
        ) && m@ == "sort_key "@ + decimal(new_sort_key as nat) + " is outside the note's band "@
            + band_text(note.notebook_id, note.is_pinned)),
{
    match check_reorder(note.notebook_id, note.is_pinned, new_sort_key) {
        Ok(()) => {},
        Err(e) => {
            return Err(e);
        },
    }
    if note.sort_key == new_sort_key {
        return Ok((note, false));
    }
    let mut note = note;
    note.sort_key = new_sort_key;
    Ok((note, true))
}

/// The smallest key is at most every key, and is one of them.
pub proof fn lemma_seq_min_is_least(s: Seq<u32>)
    ensures
        s.len() == 0 <==> seq_min(s) is None,
        seq_min(s) matches Some(m) ==> (forall|i: int| 0 <= i < s.len() ==> m <= #[trigger] s[i])
            && s.contains(m),
    decreases s.len(),
{
    if s.len() > 0 {
        let t = s.drop_last();
        lemma_seq_min_is_least(t);
        let m = seq_min(s)->0;
        assert forall|i: int| 0 <= i < s.len() implies m <= #[trigger] s[i] by {
            if i < s.len() - 1 {
                assert(s[i] == t[i]);
            }
        }
        if m == s.last() {
            assert(s[s.len() - 1] == m);
        } else {
            let k = choose|k: int| 0 <= k < t.len() && t[k] == m;
            assert(s[k] == m);
        }
    }
}

/// The largest key outside the pinned band is at least every such key.
pub proof fn lemma_seq_max_normal_is_greatest(s: Seq<u32>)
    ensures
        seq_max_normal(s) matches Some(m) ==> forall|i: int|
            0 <= i < s.len() && !in_pinned_band(#[trigger] s[i]) ==> s[i] <= m,
        seq_max_normal(s) is None ==> forall|i: int| 0 <= i < s.len() ==> in_pinned_band(#[trigger] s[i]),
    decreases s.len(),
{
    if s.len() > 0 {
        let t = s.drop_last();
        lemma_seq_max_normal_is_greatest(t);
        assert forall|i: int| 0 <= i < s.len() - 1 implies #[trigger] s[i] == t[i] by {}
    }
}

/// A new note lands before every note of the Inbox (strictly below its lowest key, and
/// before the first renumbered key when the lowest key leaves no room), and after every
/// note of another notebook's normal band (strictly above its highest key, unless that
/// key is the largest there is), never in the pinned band. The keys are the notes'
/// effective keys, which are never zero.
pub proof fn lemma_new_note_placement(notebook_id: u128, keys: Seq<u32>, p: NotebookSortProfile)
    requires
        p.min_key == seq_min(keys),
        p.max_normal_key == seq_max_normal(keys),
        forall|i: int| 0 <= i < keys.len() ==> #[trigger] keys[i] >= 1,
    ensures
        notebook_id == INBOX_ID ==> match spec_placement(notebook_id, p) {
            Placement::At(k) => k >= 1 && forall|i: int| 0 <= i < keys.len() ==> k < #[trigger] keys[i],
            Placement::AfterResequence(k) => k >= 1 && k < resequenced_key(0) && keys.len() > 0,
        },
        notebook_id != INBOX_ID ==> (spec_placement(notebook_id, p) matches Placement::At(k) && k
            >= NORMAL_START && forall|i: int|
            0 <= i < keys.len() && !in_pinned_band(#[trigger] keys[i]) ==> keys[i] < k || keys[i]
                == u32::MAX),
{
    lemma_seq_min_is_least(keys);
    lemma_seq_max_normal_is_greatest(keys);
    assert(resequenced_key(0) == RESEQUENCE_STEP);
    if notebook_id != INBOX_ID {
        match p.max_normal_key {
            Some(m) => {
                lemma_seq_max_normal_in(keys);
                let k = choose|k: int| 0 <= k < keys.len() && keys[k] == m;
                assert(keys[k] >= 1);
                assert(m >= NORMAL_START);
            },
            None => {},
        }
    }
}

/// The largest key outside the pinned band lies outside it, and is one of the keys.
proof fn lemma_seq_max_normal_in(s: Seq<u32>)
    ensures
        seq_max_normal(s) matches Some(m) ==> !in_pinned_band(m) && s.contains(m),
    decreases s.len(),
{
    if s.len() > 0 {
        let t = s.drop_last();
        lemma_seq_max_normal_in(t);
        if seq_max_normal(s) is Some {
            let m = seq_max_normal(s)->0;
            if m == s.last() {
                assert(s[s.len() - 1] == m);
            } else {
                let k = choose|k: int| 0 <= k < t.len() && t[k] == m;
                assert(s[k] == m);
            }
        }
    }
}

} // verus!
