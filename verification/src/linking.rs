use vstd::prelude::*;

use crate::assoc::{assoc_map, keys_unique, lemma_assoc_contains, lemma_assoc_index};
use crate::ids::{parse_uuid, uuid_parse, uuid_text, uuid_to_string};
use crate::interop::copy_range;
use crate::links::{
    derived_view, parse_bookmarks, parse_content_links, scan_bookmarks, scan_content_links,
    spec_bookmark_ref, spec_parse_link_ref, split_chars, Bookmark, BookmarkRef, BookmarkRefView,
    DerivedBookmark, LinkSource, NoteLink,
};
use crate::error::StorageError;
use crate::models::{Change, Note, Notebook};
use crate::ordering::is_inbox;
use crate::text::{chars_of, decimal, push_decimal, split_on, string_of};
use std::collections::HashMap;
use vstd::std_specs::iter::IteratorSpec;

verus! {

broadcast use vstd::std_specs::hash::group_hash_axioms;

/// Whether applying a change can alter which aliases are in use: a create, update or
/// delete of a note or a notebook.
pub open spec fn spec_change_affects_aliases(c: Change) -> bool {
    ||| c is NoteCreate
    ||| c is NoteUpdate
    ||| c is NoteDelete
    ||| c is NotebookCreate
    ||| c is NotebookUpdate
    ||| c is NotebookDelete
}

/// Whether a change touches the aliases, so that the alias index must be rebuilt.
pub fn change_affects_aliases(change: &Change) -> (r: bool)
    ensures
        r == spec_change_affects_aliases(*change),
{
    match change {
        Change::NoteCreate { .. }
        | Change::NoteUpdate { .. }
        | Change::NoteDelete { .. }
        | Change::NotebookCreate { .. }
        | Change::NotebookUpdate { .. }
        | Change::NotebookDelete { .. } => true,
        _ => false,
    }
}

/// What a change does to the alias index once applied: a note or notebook created or
/// updated is indexed as it now is, one deleted is dropped; any other change leaves the
/// index as it is.
pub open spec fn index_after(v: AliasIndexView, c: Change) -> AliasIndexView {
    match c {
        Change::NoteCreate { note } => spec_upsert_note(v, note.id, note.deleted_at is Some, note.notebook_id, opt_text(note.alias)),
        Change::NoteUpdate { note } => spec_upsert_note(v, note.id, note.deleted_at is Some, note.notebook_id, opt_text(note.alias)),
        Change::NoteDelete { id, .. } => AliasIndexView { notes: v.notes.remove(id), ..v },
        Change::NotebookCreate { notebook } => spec_upsert_notebook(v, notebook.id, notebook.deleted_at is Some, opt_text(notebook.alias)),
        Change::NotebookUpdate { notebook } => spec_upsert_notebook(v, notebook.id, notebook.deleted_at is Some, opt_text(notebook.alias)),
        Change::NotebookDelete { id, .. } => AliasIndexView { notebooks: v.notebooks.remove(id), ..v },
        _ => v,
    }
}

/// Every change that can alter the aliases in use is reported as touching them: where
/// applying a change gives another index, the index must be rebuilt. A note create,
/// update or delete, and a notebook create, update or delete, each can.
pub proof fn lemma_alias_changes_are_reported(v: AliasIndexView, c: Change)
    ensures
        index_after(v, c) != v ==> spec_change_affects_aliases(c),
        c is NotebookUpdate || c is NotebookCreate || c is NoteUpdate || c is NoteCreate
            || c is NoteDelete || c is NotebookDelete ==> spec_change_affects_aliases(c),
{
}

/// A notebook update that gives the notebook a new alias changes the index: so it is
/// one that touches the aliases.
pub proof fn lemma_notebook_rename_changes_index(v: AliasIndexView, nb: Notebook)
    requires
        nb.deleted_at is None,
        nb.alias matches Some(a) && !(v.notebooks.contains_key(nb.id) && v.notebooks[nb.id] == a@),
    ensures
        index_after(v, Change::NotebookUpdate { notebook: nb }) != v,
        spec_change_affects_aliases(Change::NotebookUpdate { notebook: nb }),
{
    let w = index_after(v, Change::NotebookUpdate { notebook: nb });
    assert(w.notebooks.contains_key(nb.id));
}

/// Entities that share one alias.
#[derive(Debug, Clone)]
pub struct AliasConflict<T> {
    pub alias: String,
    pub entities: Vec<T>,
}

/// The alias clashes among notes and among notebooks.
#[derive(Debug, Clone)]
pub struct AliasConflicts {
    pub notes: Vec<AliasConflict<Note>>,
    pub notebooks: Vec<AliasConflict<Notebook>>,
}

/// The aliases in use: each live note outside the Inbox that has an alias, with its
/// alias and notebook, and each live notebook that has an alias, with its alias.
#[derive(Debug, Clone)]
pub struct AliasIndex {
    notes: HashMap<u128, (String, u128)>,
    notebooks: HashMap<u128, String>,
}

/// An [`AliasIndex`] as two maps: note id to alias and notebook, notebook id to alias.
pub struct AliasIndexView {
    pub notes: Map<u128, (Seq<char>, u128)>,
    pub notebooks: Map<u128, Seq<char>>,
}

pub open spec fn note_entries(s: Seq<(u128, String, u128)>) -> Seq<(u128, (Seq<char>, u128))> {
    s.map_values(|e: (u128, String, u128)| (e.0, (e.1@, e.2)))
}

pub open spec fn notebook_entries(s: Seq<(u128, String)>) -> Seq<(u128, Seq<char>)> {
    s.map_values(|e: (u128, String)| (e.0, e.1@))
}

impl View for AliasIndex {
    type V = AliasIndexView;

    closed spec fn view(&self) -> AliasIndexView {
        AliasIndexView {
            notes: self.notes@.map_values(|v: (String, u128)| (v.0@, v.1)),
            notebooks: self.notebooks@.map_values(|a: String| a@),
        }
    }
}

pub open spec fn opt_text(o: Option<String>) -> Option<Seq<char>> {
    match o {
        Some(s) => Some(s@),
        None => None,
    }
}

/// What indexing a note does: its old entry goes, and a live note outside the Inbox
/// that has an alias gets one.
pub open spec fn spec_upsert_note(
    v: AliasIndexView,
    id: u128,
    deleted: bool,
    notebook_id: u128,
    alias: Option<Seq<char>>,
) -> AliasIndexView {
    let removed = AliasIndexView { notes: v.notes.remove(id), ..v };
    if deleted || notebook_id == 0 {
        removed
    } else {
        match alias {
            Some(a) => AliasIndexView { notes: removed.notes.insert(id, (a, notebook_id)), ..v },
            None => removed,
        }
    }
}

/// What indexing a notebook does: its old entry goes, and a live notebook that has an
/// alias gets one.
pub open spec fn spec_upsert_notebook(
    v: AliasIndexView,
    id: u128,
    deleted: bool,
    alias: Option<Seq<char>>,
) -> AliasIndexView {
    let removed = AliasIndexView { notebooks: v.notebooks.remove(id), ..v };
    if deleted {
        removed
    } else {
        match alias {
            Some(a) => AliasIndexView { notebooks: removed.notebooks.insert(id, a), ..v },
            None => removed,
        }
    }
}

impl AliasIndex {
    /// The index of nothing.
    pub fn new() -> (r: AliasIndex)
        ensures
            r@.notes == Map::<u128, (Seq<char>, u128)>::empty(),
            r@.notebooks == Map::<u128, Seq<char>>::empty(),
    {
        let r = AliasIndex { notes: HashMap::new(), notebooks: HashMap::new() };
        assert(r@.notes =~= Map::<u128, (Seq<char>, u128)>::empty());
        assert(r@.notebooks =~= Map::<u128, Seq<char>>::empty());
        r
    }

    /// Drops the entry of a note.
    pub fn remove_note(&mut self, id: u128)
        ensures
            final(self)@ == (AliasIndexView { notes: old(self)@.notes.remove(id), ..old(self)@ }),
    {
        self.notes.remove(&id);
        assert(self@.notes =~= old(self)@.notes.remove(id));
    }

    /// Drops the entry of a notebook.
    pub fn remove_notebook(&mut self, id: u128)
        ensures
            final(self)@ == (AliasIndexView {
                notebooks: old(self)@.notebooks.remove(id),
                ..old(self)@
            }),
    {
        self.notebooks.remove(&id);
        assert(self@.notebooks =~= old(self)@.notebooks.remove(id));
    }

    /// Indexes a note as it now is.
    pub fn upsert_note(&mut self, note: &Note)
        ensures
            final(self)@ == spec_upsert_note(
                old(self)@,
                note.id,
                note.deleted_at is Some,
                note.notebook_id,
                opt_text(note.alias),
            ),
    {
        self.remove_note(note.id);
        if note.deleted_at.is_some() {
            return;
        }
        if note.notebook_id == 0 {
            return;
        }
        match &note.alias {
            Some(alias) => {
                let ghost before = self@;
                self.notes.insert(note.id, (alias.clone(), note.notebook_id));
                assert(self@.notes =~= before.notes.insert(note.id, (alias@, note.notebook_id)));
            },
            None => {},
        }
    }

    /// Indexes a notebook as it now is.
    pub fn upsert_notebook(&mut self, notebook: &Notebook)
        ensures
            final(self)@ == spec_upsert_notebook(
                old(self)@,
                notebook.id,
                notebook.deleted_at is Some,
                opt_text(notebook.alias),
            ),
    {
        self.remove_notebook(notebook.id);
        if notebook.deleted_at.is_some() {
            return;
        }
        match &notebook.alias {
            Some(alias) => {
                let ghost before = self@;
                self.notebooks.insert(notebook.id, alias.clone());
                assert(self@.notebooks =~= before.notebooks.insert(notebook.id, alias@));
            },
            None => {},
        }
    }

    /// The note entries as a list, each id once.
    fn note_list(&self) -> (r: Vec<(u128, String, u128)>)
        ensures
            keys_unique(note_entries(r@)),
            assoc_map(note_entries(r@)) == self@.notes,
    {
        let mut out: Vec<(u128, String, u128)> = Vec::new();
        for kv in it: self.notes.iter()
            invariant
                out@.len() == it.index(),
                forall|j: int|
                    0 <= j < it.index() ==> #[trigger] note_entries(out@)[j] == (*it.seq()[j].0, (
                        (*it.seq()[j].1).0@,
                        (*it.seq()[j].1).1,
                    )),
        {
            assert(kv == it.seq()[it.index() as int]);
            let (k, v) = kv;
            let a = v.0.clone();
            assert(a@ == v.0@);
            let ghost prev = out@;
            out.push((*k, a, v.1));
            assert(note_entries(out@) =~= note_entries(prev).push((*k, (a@, v.1))));
            assert(note_entries(out@)[it.index() as int] == (*k, (a@, v.1)));
        }
        proof {
            let sq = self.notes.iter().remaining();
            let e = note_entries(out@);
            assert(e.len() == sq.len());
            assert forall|i: int, j: int| 0 <= i < j < e.len() implies e[i].0 != e[j].0 by {
                if e[i].0 == e[j].0 {
                    assert(self.notes@.contains_key(*sq[i].0));
                    assert(self.notes@[*sq[i].0] == *sq[i].1);
                    assert(self.notes@[*sq[j].0] == *sq[j].1);
                    assert(sq[i] == sq[j]);
                }
            }
            assert(keys_unique(e));
            assert forall|id: u128| #[trigger] assoc_map(e).contains_key(id) == self@.notes.contains_key(id) by {
                lemma_assoc_contains(e, id);
                if self.notes@.contains_key(id) {
                    assert(sq.contains((&id, &self.notes@[id])));
                    let j = choose|j: int| 0 <= j < sq.len() && sq[j] == (&id, &self.notes@[id]);
                    assert(e[j].0 == id);
                }
                if assoc_map(e).contains_key(id) {
                    let j = choose|j: int| 0 <= j < e.len() && #[trigger] e[j].0 == id;
                    assert(self.notes@.contains_key(*sq[j].0));
                }
            }
            assert forall|id: u128| #[trigger] self@.notes.contains_key(id) implies assoc_map(e)[id]
                == self@.notes[id] by {
                lemma_assoc_contains(e, id);
                let j = choose|j: int| 0 <= j < e.len() && #[trigger] e[j].0 == id;
                lemma_assoc_index(e, j);
                assert(self.notes@[*sq[j].0] == *sq[j].1);
            }
            assert(assoc_map(e) =~= self@.notes);
        }
        out
    }

    /// The notebook entries as a list, each id once.
    fn notebook_list(&self) -> (r: Vec<(u128, String)>)
        ensures
            keys_unique(notebook_entries(r@)),
            assoc_map(notebook_entries(r@)) == self@.notebooks,
    {
        let mut out: Vec<(u128, String)> = Vec::new();
        for kv in it: self.notebooks.iter()
            invariant
                out@.len() == it.index(),
                forall|j: int|
                    0 <= j < it.index() ==> #[trigger] notebook_entries(out@)[j] == (*it.seq()[j].0, (*it.seq()[j].1)@),
        {
            assert(kv == it.seq()[it.index() as int]);
            let (k, v) = kv;
            let a = v.clone();
            assert(a@ == v@);
            let ghost prev = out@;
            out.push((*k, a));
            assert(notebook_entries(out@) =~= notebook_entries(prev).push((*k, a@)));
            assert(notebook_entries(out@)[it.index() as int] == (*k, a@));
        }
        proof {
            let sq = self.notebooks.iter().remaining();
            let e = notebook_entries(out@);
            assert(e.len() == sq.len());
            assert forall|i: int, j: int| 0 <= i < j < e.len() implies e[i].0 != e[j].0 by {
                if e[i].0 == e[j].0 {
                    assert(self.notebooks@.contains_key(*sq[i].0));
                    assert(self.notebooks@[*sq[i].0] == *sq[i].1);
                    assert(self.notebooks@[*sq[j].0] == *sq[j].1);
                    assert(sq[i] == sq[j]);
                }
            }
            assert(keys_unique(e));
            assert forall|id: u128| #[trigger] assoc_map(e).contains_key(id) == self@.notebooks.contains_key(id) by {
                lemma_assoc_contains(e, id);
                if self.notebooks@.contains_key(id) {
                    assert(sq.contains((&id, &self.notebooks@[id])));
                    let j = choose|j: int| 0 <= j < sq.len() && sq[j] == (&id, &self.notebooks@[id]);
                    assert(e[j].0 == id);
                }
                if assoc_map(e).contains_key(id) {
                    let j = choose|j: int| 0 <= j < e.len() && #[trigger] e[j].0 == id;
                    assert(self.notebooks@.contains_key(*sq[j].0));
                }
            }
            assert forall|id: u128| #[trigger] self@.notebooks.contains_key(id) implies assoc_map(e)[id]
                == self@.notebooks[id] by {
                lemma_assoc_contains(e, id);
                let j = choose|j: int| 0 <= j < e.len() && #[trigger] e[j].0 == id;
                lemma_assoc_index(e, j);
                assert(self.notebooks@[*sq[j].0] == *sq[j].1);
            }
            assert(assoc_map(e) =~= self@.notebooks);
        }
        out
    }
}

/// Whether a note other than `self_id` uses `alias` in the notebook `notebook_id`.
pub open spec fn note_alias_used(v: AliasIndexView, alias: Seq<char>, self_id: u128, notebook_id: u128) -> bool {
    exists|id: u128|
        id != self_id && #[trigger] v.notes.contains_key(id) && v.notes[id] == (alias, notebook_id)
}

/// Whether a notebook other than `self_id` uses `alias`.
pub open spec fn notebook_alias_used(v: AliasIndexView, alias: Seq<char>, self_id: u128) -> bool {
    exists|id: u128| id != self_id && #[trigger] v.notebooks.contains_key(id) && v.notebooks[id] == alias
}

/// Whether `id` is a note with alias `alias` outside the Inbox, in the notebook `filter`
/// when one is given.
pub open spec fn note_cand(v: AliasIndexView, alias: Seq<char>, filter: Option<u128>, id: u128) -> bool {
    &&& v.notes.contains_key(id)
    &&& v.notes[id].0 == alias
    &&& v.notes[id].1 != 0
    &&& match filter {
        Some(nb) => v.notes[id].1 == nb,
        None => true,
    }
}

/// Whether `m` is the smallest id of the candidates.
pub open spec fn is_least_note(v: AliasIndexView, alias: Seq<char>, filter: Option<u128>, m: u128) -> bool {
    note_cand(v, alias, filter, m) && forall|x: u128| #[trigger] note_cand(v, alias, filter, x) ==> m <= x
}

/// The smallest id of the candidates, if there is one.
pub open spec fn least_note(v: AliasIndexView, alias: Seq<char>, filter: Option<u128>) -> Option<u128> {
    if exists|m: u128| is_least_note(v, alias, filter, m) {
        Some(choose|m: u128| is_least_note(v, alias, filter, m))
    } else {
        None
    }
}

/// Whether exactly one note has the alias outside the Inbox.
pub open spec fn single_note(v: AliasIndexView, alias: Seq<char>) -> bool {
    exists|m: u128|
        note_cand(v, alias, None, m) && forall|x: u128| #[trigger] note_cand(v, alias, None, x) ==> x == m
}

/// Whether `m` is the smallest id of the notebooks with the alias.
pub open spec fn is_least_notebook(v: AliasIndexView, alias: Seq<char>, m: u128) -> bool {
    &&& v.notebooks.contains_key(m)
    &&& v.notebooks[m] == alias
    &&& forall|x: u128| #[trigger] v.notebooks.contains_key(x) && v.notebooks[x] == alias ==> m <= x
}

/// The smallest id of the notebooks with the alias, if there is one.
pub open spec fn least_notebook(v: AliasIndexView, alias: Seq<char>) -> Option<u128> {
    if exists|m: u128| is_least_notebook(v, alias, m) {
        Some(choose|m: u128| is_least_notebook(v, alias, m))
    } else {
        None
    }
}

/// Whether an entry is a candidate.
pub open spec fn entry_cand(e: (u128, (Seq<char>, u128)), alias: Seq<char>, filter: Option<u128>) -> bool {
    &&& e.1.0 == alias
    &&& e.1.1 != 0
    &&& match filter {
        Some(nb) => e.1.1 == nb,
        None => true,
    }
}

/// The index that holds nothing.
pub open spec fn empty_index() -> AliasIndexView {
    AliasIndexView {
        notes: Map::<u128, (Seq<char>, u128)>::empty(),
        notebooks: Map::<u128, Seq<char>>::empty(),
    }
}

/// `v` after indexing the notes of `ns` in order.
pub open spec fn index_notes(v: AliasIndexView, ns: Seq<Note>) -> AliasIndexView
    decreases ns.len(),
{
    if ns.len() == 0 {
        v
    } else {
        let n = ns.last();
        spec_upsert_note(index_notes(v, ns.drop_last()), n.id, n.deleted_at is Some, n.notebook_id, opt_text(n.alias))
    }
}

/// `v` after indexing the notebooks of `bs` in order.
pub open spec fn index_notebooks(v: AliasIndexView, bs: Seq<Notebook>) -> AliasIndexView
    decreases bs.len(),
{
    if bs.len() == 0 {
        v
    } else {
        let b = bs.last();
        spec_upsert_notebook(index_notebooks(v, bs.drop_last()), b.id, b.deleted_at is Some, opt_text(b.alias))
    }
}

/// The index of a snapshot of the notes and notebooks, each indexed in order.
pub open spec fn snapshot_index(notes: Seq<Note>, notebooks: Seq<Notebook>) -> AliasIndexView {
    index_notebooks(index_notes(empty_index(), notes), notebooks)
}

impl AliasIndex {
    /// The index of the given notes and notebooks.
    pub fn from_snapshots(notes: &[Note], notebooks: &[Notebook]) -> (r: AliasIndex)
        ensures
            r@ == snapshot_index(notes@, notebooks@),
    {
        let mut idx = AliasIndex::new();
        let mut i: usize = 0;
        while i < notes.len()
            invariant
                0 <= i <= notes@.len(),
                idx@ == index_notes(empty_index(), notes@.take(i as int)),
            decreases notes@.len() - i,
        {
            proof {
                assert(notes@.take(i as int + 1).drop_last() == notes@.take(i as int));
            }
            idx.upsert_note(&notes[i]);
            i = i + 1;
        }
        assert(notes@.take(i as int) == notes@);
        let ghost base = idx@;
        let mut j: usize = 0;
        while j < notebooks.len()
            invariant
                0 <= j <= notebooks@.len(),
                idx@ == index_notebooks(base, notebooks@.take(j as int)),
            decreases notebooks@.len() - j,
        {
            proof {
                assert(notebooks@.take(j as int + 1).drop_last() == notebooks@.take(j as int));
            }
            idx.upsert_notebook(&notebooks[j]);
            j = j + 1;
        }
        assert(notebooks@.take(j as int) == notebooks@);
        idx
    }

    /// A note is a candidate exactly when one of the entries is.
    proof fn lemma_note_cand(&self, list: Seq<(u128, String, u128)>, alias: Seq<char>, filter: Option<u128>, id: u128)
        requires
            keys_unique(note_entries(list)),
            assoc_map(note_entries(list)) == self@.notes,
        ensures
            note_cand(self@, alias, filter, id) <==> exists|j: int|
                0 <= j < list.len() && #[trigger] note_entries(list)[j].0 == id
                    && entry_cand(note_entries(list)[j], alias, filter),
    {
        let e = note_entries(list);
        lemma_assoc_contains(e, id);
        if self@.notes.contains_key(id) {
            let j = choose|j: int| 0 <= j < e.len() && #[trigger] e[j].0 == id;
            lemma_assoc_index(e, j);
        }
        if exists|j: int| 0 <= j < list.len() && #[trigger] e[j].0 == id && entry_cand(e[j], alias, filter) {
            let j = choose|j: int| 0 <= j < list.len() && #[trigger] e[j].0 == id && entry_cand(e[j], alias, filter);
            lemma_assoc_index(e, j);
        }
    }

    /// Whether a note other than `self_id` uses `alias` in the notebook `notebook_id`.
    pub fn note_alias_taken(&self, alias: &str, self_id: u128, notebook_id: u128) -> (r: bool)
        ensures
            r == note_alias_used(self@, alias@, self_id, notebook_id),
    {
        let list = self.note_list();
        let a = alias.to_owned();
        let ghost e = note_entries(list@);
        let mut i: usize = 0;
        while i < list.len()
            invariant
                0 <= i <= list@.len(),
                e == note_entries(list@),
                assoc_map(e) == self@.notes,
                keys_unique(e),
                a@ == alias@,
                forall|j: int| 0 <= j < i ==> !(#[trigger] e[j].0 != self_id && e[j].1 == (alias@, notebook_id)),
            decreases list@.len() - i,
        {
            if list[i].0 != self_id && list[i].1 == a && list[i].2 == notebook_id {
                proof {
                    lemma_assoc_index(e, i as int);
                    assert(self@.notes.contains_key(e[i as int].0));
                }
                return true;
            }
            i = i + 1;
        }
        proof {
            if note_alias_used(self@, alias@, self_id, notebook_id) {
                let id = choose|id: u128| id != self_id && #[trigger] self@.notes.contains_key(id) && self@.notes[id] == (alias@, notebook_id);
                lemma_assoc_contains(e, id);
                let j = choose|j: int| 0 <= j < e.len() && #[trigger] e[j].0 == id;
                lemma_assoc_index(e, j);
            }
        }
        false
    }

    /// Whether a notebook other than `self_id` uses `alias`.
    pub fn notebook_alias_taken(&self, alias: &str, self_id: u128) -> (r: bool)
        ensures
            r == notebook_alias_used(self@, alias@, self_id),
    {
        let list = self.notebook_list();
        let a = alias.to_owned();
        let ghost e = notebook_entries(list@);
        let mut i: usize = 0;
        while i < list.len()
            invariant
                0 <= i <= list@.len(),
                e == notebook_entries(list@),
                assoc_map(e) == self@.notebooks,
                keys_unique(e),
                a@ == alias@,
                forall|j: int| 0 <= j < i ==> !(#[trigger] e[j].0 != self_id && e[j].1 == alias@),
            decreases list@.len() - i,
        {
            if list[i].0 != self_id && list[i].1 == a {
                proof {
                    lemma_assoc_index(e, i as int);
                    assert(self@.notebooks.contains_key(e[i as int].0));
                }
                return true;
            }
            i = i + 1;
        }
        proof {
            if notebook_alias_used(self@, alias@, self_id) {
                let id = choose|id: u128| id != self_id && #[trigger] self@.notebooks.contains_key(id) && self@.notebooks[id] == alias@;
                lemma_assoc_contains(e, id);
                let j = choose|j: int| 0 <= j < e.len() && #[trigger] e[j].0 == id;
                lemma_assoc_index(e, j);
            }
        }
        false
    }
}

impl AliasIndex {
    /// The smallest candidate id for an alias, and how many candidates there are, counted
    /// up to two.
    fn least_note_exec(&self, alias: &String, filter: Option<u128>) -> (r: (Option<u128>, usize))
        ensures
            r.0 == least_note(self@, alias@, filter),
            r.1 <= 2,
            r.1 == 0 <==> r.0 is None,
            filter is None ==> ((r.1 == 1) == single_note(self@, alias@)),
    {
        let list = self.note_list();
        let ghost e = note_entries(list@);
        let mut best: Option<u128> = None;
        let mut count: usize = 0;
        let mut k: usize = 0;
        while k < list.len()
            invariant
                0 <= k <= list@.len(),
                e == note_entries(list@),
                assoc_map(e) == self@.notes,
                keys_unique(e),
                count <= 2,
                (count == 0) == (best is None),
                best is None ==> forall|j: int| 0 <= j < k ==> !entry_cand(#[trigger] e[j], alias@, filter),
                best matches Some(m) ==> (exists|j: int| 0 <= j < k && #[trigger] e[j].0 == m && entry_cand(e[j], alias@, filter))
                    && forall|j: int| 0 <= j < k && entry_cand(#[trigger] e[j], alias@, filter) ==> m <= e[j].0,
                count == 1 ==> forall|j: int| 0 <= j < k && entry_cand(#[trigger] e[j], alias@, filter) ==> best == Some(e[j].0),
                count == 2 ==> exists|j1: int, j2: int| 0 <= j1 < k && 0 <= j2 < k && j1 != j2
                    && entry_cand(#[trigger] e[j1], alias@, filter) && entry_cand(#[trigger] e[j2], alias@, filter),
            decreases list@.len() - k,
        {
            let (id, a, nb) = (list[k].0, &list[k].1, list[k].2);
            assert(e[k as int] == (id, (a@, nb)));
            let matches_filter = match filter {
                Some(f) => nb == f,
                None => true,
            };
            if *a == *alias && nb != 0 && matches_filter {
                let ghost prev_best = best;
                let ghost prev_count = count;
                match best {
                    Some(m) => {
                        if id < m {
                            best = Some(id);
                        }
                    },
                    None => {
                        best = Some(id);
                    },
                }
                proof {
                    if prev_count >= 1 {
                        let j0 = choose|j: int| 0 <= j < k && #[trigger] e[j].0 == prev_best->0 && entry_cand(e[j], alias@, filter);
                        assert(j0 != k);
                        if prev_count == 2 {
                            let (j1, j2) = choose|j1: int, j2: int| 0 <= j1 < k && 0 <= j2 < k && j1 != j2
                                && entry_cand(#[trigger] e[j1], alias@, filter) && entry_cand(#[trigger] e[j2], alias@, filter);
                            assert(0 <= j1 < k + 1 && 0 <= j2 < k + 1 && j1 != j2);
                        } else {
                            assert(0 <= j0 < k + 1 && 0 <= k < k + 1 && j0 != k as int
                                && entry_cand(e[j0], alias@, filter) && entry_cand(e[k as int], alias@, filter));
                        }
                    }
                }
                if count < 2 {
                    count = count + 1;
                }
                proof {
                    let m = best->0;
                    if m == id {
                        assert(0 <= k < k + 1 && e[k as int].0 == m && entry_cand(e[k as int], alias@, filter));
                    } else {
                        let j0 = choose|j: int| 0 <= j < k && #[trigger] e[j].0 == m && entry_cand(e[j], alias@, filter);
                        assert(0 <= j0 < k + 1 && e[j0].0 == m && entry_cand(e[j0], alias@, filter));
                    }
                }
            } else {
                proof {
                    if best is Some {
                        let m = best->0;
                        let j0 = choose|j: int| 0 <= j < k && #[trigger] e[j].0 == m && entry_cand(e[j], alias@, filter);
                        assert(0 <= j0 < k + 1 && e[j0].0 == m && entry_cand(e[j0], alias@, filter));
                    }
                    if count == 2 {
                        let (j1, j2) = choose|j1: int, j2: int| 0 <= j1 < k && 0 <= j2 < k && j1 != j2
                            && entry_cand(#[trigger] e[j1], alias@, filter) && entry_cand(#[trigger] e[j2], alias@, filter);
                        assert(0 <= j1 < k + 1 && 0 <= j2 < k + 1 && j1 != j2);
                    }
                }
            }
            k = k + 1;
        }
        proof {
            assert forall|x: u128| note_cand(self@, alias@, filter, x) implies exists|j: int|
                0 <= j < list@.len() && #[trigger] e[j].0 == x && entry_cand(e[j], alias@, filter) by {
                self.lemma_note_cand(list@, alias@, filter, x);
            }
            match best {
                Some(m) => {
                    let j = choose|j: int| 0 <= j < k && #[trigger] e[j].0 == m && entry_cand(e[j], alias@, filter);
                    self.lemma_note_cand(list@, alias@, filter, m);
                    assert(note_cand(self@, alias@, filter, m));
                    assert forall|x: u128| #[trigger] note_cand(self@, alias@, filter, x) implies m <= x by {
                        let jx = choose|jx: int| 0 <= jx < list@.len() && #[trigger] e[jx].0 == x && entry_cand(e[jx], alias@, filter);
                    }
                    assert(is_least_note(self@, alias@, filter, m));
                    let c = choose|c: u128| is_least_note(self@, alias@, filter, c);
                    assert(c <= m && m <= c);
                    if filter is None {
                        if count == 1 {
                            assert forall|x: u128| #[trigger] note_cand(self@, alias@, None, x) implies x == m by {
                                let jx = choose|jx: int| 0 <= jx < list@.len() && #[trigger] e[jx].0 == x && entry_cand(e[jx], alias@, filter);
                            }
                            assert(single_note(self@, alias@));
                        } else {
                            let (j1, j2) = choose|j1: int, j2: int| 0 <= j1 < k && 0 <= j2 < k && j1 != j2
                                && entry_cand(#[trigger] e[j1], alias@, filter) && entry_cand(#[trigger] e[j2], alias@, filter);
                            self.lemma_note_cand(list@, alias@, filter, e[j1].0);
                            self.lemma_note_cand(list@, alias@, filter, e[j2].0);
                            assert(e[j1].0 != e[j2].0);
                            if single_note(self@, alias@) {
                                let w = choose|w: u128| note_cand(self@, alias@, None, w) && forall|x: u128| #[trigger] note_cand(self@, alias@, None, x) ==> x == w;
                                assert(note_cand(self@, alias@, None, e[j1].0));
                                assert(note_cand(self@, alias@, None, e[j2].0));
                            }
                        }
                    }
                },
                None => {
                    if exists|m: u128| is_least_note(self@, alias@, filter, m) {
                        let m = choose|m: u128| is_least_note(self@, alias@, filter, m);
                        let jx = choose|jx: int| 0 <= jx < list@.len() && #[trigger] e[jx].0 == m && entry_cand(e[jx], alias@, filter);
                    }
                    if single_note(self@, alias@) {
                        let w = choose|w: u128| note_cand(self@, alias@, None, w) && forall|x: u128| #[trigger] note_cand(self@, alias@, None, x) ==> x == w;
                        let jx = choose|jx: int| 0 <= jx < list@.len() && #[trigger] e[jx].0 == w && entry_cand(e[jx], alias@, None);
                    }
                },
            }
        }
        (best, count)
    }
}

/// What a notebook segment of a link names: the identifier it spells, else the notebook
/// with that alias and the smallest id.
pub open spec fn spec_resolve_notebook_seg(v: AliasIndexView, seg: Seq<char>) -> Option<u128> {
    match uuid_parse(seg) {
        Some(id) => Some(id),
        None => least_notebook(v, seg),
    }
}

/// What a note segment of a link names: the identifier it spells; else, among the notes
/// outside the Inbox with that alias, the one in the named notebook (none when that
/// notebook cannot be resolved or is the Inbox), the only one, the one in the source
/// notebook, or the one with the smallest id, in that order; several in one notebook
/// resolve to the smallest id.
pub open spec fn spec_resolve_note_seg(
    v: AliasIndexView,
    seg: Seq<char>,
    notebook_seg: Option<Seq<char>>,
    source: Option<u128>,
) -> Option<u128> {
    match uuid_parse(seg) {
        Some(id) => Some(id),
        None => if least_note(v, seg, None) is None {
            None
        } else {
            match notebook_seg {
                Some(ns) => match spec_resolve_notebook_seg(v, ns) {
                    None => None,
                    Some(nb) => if nb == 0 {
                        None
                    } else {
                        least_note(v, seg, Some(nb))
                    },
                },
                None => if single_note(v, seg) {
                    least_note(v, seg, None)
                } else {
                    match source {
                        Some(src) => least_note(v, seg, Some(src)),
                        None => least_note(v, seg, None),
                    }
                },
            }
        },
    }
}

pub open spec fn opt_seg(o: Option<&str>) -> Option<Seq<char>> {
    match o {
        Some(s) => Some(s@),
        None => None,
    }
}

impl AliasIndex {
    /// The notebook with the alias and the smallest id, if there is one.
    fn least_notebook_exec(&self, alias: &String) -> (r: Option<u128>)
        ensures
            r == least_notebook(self@, alias@),
    {
        let list = self.notebook_list();
        let ghost e = notebook_entries(list@);
        let mut best: Option<u128> = None;
        let mut k: usize = 0;
        while k < list.len()
            invariant
                0 <= k <= list@.len(),
                e == notebook_entries(list@),
                assoc_map(e) == self@.notebooks,
                keys_unique(e),
                best is None ==> forall|j: int| 0 <= j < k ==> (#[trigger] e[j]).1 != alias@,
                best matches Some(m) ==> (exists|j: int| 0 <= j < k && #[trigger] e[j].0 == m && e[j].1 == alias@)
                    && forall|j: int| 0 <= j < k && (#[trigger] e[j]).1 == alias@ ==> m <= e[j].0,
            decreases list@.len() - k,
        {
            let (id, a) = (list[k].0, &list[k].1);
            assert(e[k as int] == (id, a@));
            if *a == *alias {
                match best {
                    Some(m) => {
                        if id < m {
                            best = Some(id);
                        }
                    },
                    None => {
                        best = Some(id);
                    },
                }
                proof {
                    let m = best->0;
                    if m == id {
                        assert(0 <= k < k + 1 && e[k as int].0 == m && e[k as int].1 == alias@);
                    } else {
                        let j0 = choose|j: int| 0 <= j < k && #[trigger] e[j].0 == m && e[j].1 == alias@;
                        assert(0 <= j0 < k + 1 && e[j0].0 == m);
                    }
                }
            } else {
                proof {
                    if best is Some {
                        let m = best->0;
                        let j0 = choose|j: int| 0 <= j < k && #[trigger] e[j].0 == m && e[j].1 == alias@;
                        assert(0 <= j0 < k + 1 && e[j0].0 == m);
                    }
                }
            }
            k = k + 1;
        }
        proof {
            let v = self@;
            assert forall|x: u128| #[trigger] v.notebooks.contains_key(x) && v.notebooks[x] == alias@ implies exists|j: int|
                0 <= j < e.len() && #[trigger] e[j].0 == x && e[j].1 == alias@ by {
                lemma_assoc_contains(e, x);
                let j = choose|j: int| 0 <= j < e.len() && #[trigger] e[j].0 == x;
                lemma_assoc_index(e, j);
            }
            match best {
                Some(m) => {
                    let j = choose|j: int| 0 <= j < k && #[trigger] e[j].0 == m && e[j].1 == alias@;
                    lemma_assoc_index(e, j);
                    assert forall|x: u128| #[trigger] v.notebooks.contains_key(x) && v.notebooks[x] == alias@ implies m <= x by {
                        let jx = choose|jx: int| 0 <= jx < e.len() && #[trigger] e[jx].0 == x && e[jx].1 == alias@;
                    }
                    assert(is_least_notebook(v, alias@, m));
                    let c = choose|c: u128| is_least_notebook(v, alias@, c);
                    assert(c <= m && m <= c);
                },
                None => {
                    if exists|m: u128| is_least_notebook(v, alias@, m) {
                        let m = choose|m: u128| is_least_notebook(v, alias@, m);
                        let jx = choose|jx: int| 0 <= jx < e.len() && #[trigger] e[jx].0 == m && e[jx].1 == alias@;
                    }
                },
            }
        }
        best
    }

    /// What a notebook segment of a link names.
    pub fn resolve_notebook_seg(&self, seg: &str) -> (r: Option<u128>)
        ensures
            r == spec_resolve_notebook_seg(self@, seg@),
    {
        if let Ok(id) = parse_uuid(seg) {
            return Some(id);
        }
        self.least_notebook_exec(&seg.to_owned())
    }

    /// What a note segment of a link names, given the notebook segment before it, if
    /// any, and the notebook of the linking note, if known.
    pub fn resolve_note_seg(&self, seg: &str, notebook_seg: Option<&str>, source_notebook: Option<u128>) -> (r: Option<u128>)
        ensures
            r == spec_resolve_note_seg(self@, seg@, opt_seg(notebook_seg), source_notebook),
    {
        if let Ok(id) = parse_uuid(seg) {
            return Some(id);
        }
        let alias = seg.to_owned();
        let (any, count) = self.least_note_exec(&alias, None);
        if any.is_none() {
            return None;
        }
        if let Some(ns) = notebook_seg {
            let nb = match self.resolve_notebook_seg(ns) {
                Some(nb) => nb,
                None => {
                    return None;
                },
            };
            if nb == 0 {
                return None;
            }
            let (r, _) = self.least_note_exec(&alias, Some(nb));
            return r;
        }
        if count == 1 {
            return any;
        }
        if let Some(src) = source_notebook {
            let (r, _) = self.least_note_exec(&alias, Some(src));
            return r;
        }
        any
    }
}

/// What a raw link `#…` points at: the note its segments name and the bookmark segment,
/// if any. One segment names a note; two name a note in a notebook, or else a note and
/// a bookmark in it; three name a notebook, a note and a bookmark. An empty segment, or
/// more than three, name nothing.
pub open spec fn spec_resolve_target(v: AliasIndexView, raw: Seq<char>, source: Option<u128>) -> Option<
    (u128, Option<Seq<char>>),
> {
    if raw.len() == 0 || raw[0] != '#' {
        None
    } else {
        let segs = split_on(raw.skip(1), '#');
        if exists|k: int| 0 <= k < segs.len() && (#[trigger] segs[k]).len() == 0 {
            None
        } else if segs.len() == 1 {
            match spec_resolve_note_seg(v, segs[0], None, source) {
                Some(id) => Some((id, None)),
                None => None,
            }
        } else if segs.len() == 2 {
            match spec_resolve_note_seg(v, segs[1], Some(segs[0]), source) {
                Some(id) => Some((id, None)),
                None => match spec_resolve_note_seg(v, segs[0], None, source) {
                    Some(id) => Some((id, Some(segs[1]))),
                    None => None,
                },
            }
        } else if segs.len() == 3 {
            match spec_resolve_note_seg(v, segs[1], Some(segs[0]), source) {
                Some(id) => Some((id, Some(segs[2]))),
                None => None,
            }
        } else {
            None
        }
    }
}

pub open spec fn opt_target(o: Option<(u128, Option<String>)>) -> Option<(u128, Option<Seq<char>>)> {
    match o {
        Some((id, b)) => Some((id, opt_text(b))),
        None => None,
    }
}

impl AliasIndex {
    /// What a raw link points at, for a note in the notebook `source_notebook`, if known.
    pub fn resolve_target(&self, raw: &str, source_notebook: Option<u128>) -> (r: Option<(u128, Option<String>)>)
        ensures
            opt_target(r) == spec_resolve_target(self@, raw@, source_notebook),
    {
        let cs = chars_of(raw);
        if cs.len() == 0 || cs[0] != '#' {
            return None;
        }
        let rest = copy_range(cs.as_slice(), 1, cs.len());
        assert(rest@ =~= raw@.skip(1));
        let segs = split_chars(rest.as_slice(), '#');
        let ghost sv = segs@.map_values(|v: Vec<char>| v@);
        assert(sv == split_on(raw@.skip(1), '#'));
        assert(raw@.len() > 0 && raw@[0] == '#');
        let mut k: usize = 0;
        while k < segs.len()
            invariant
                0 <= k <= segs@.len(),
                sv == segs@.map_values(|v: Vec<char>| v@),
                sv == split_on(raw@.skip(1), '#'),
                raw@.len() > 0 && raw@[0] == '#',
                forall|j: int| 0 <= j < k ==> (#[trigger] sv[j]).len() > 0,
            decreases segs@.len() - k,
        {
            if segs[k].len() == 0 {
                assert(sv[k as int].len() == 0);
                assert(exists|j: int| 0 <= j < sv.len() && (#[trigger] sv[j]).len() == 0);
                return None;
            }
            k = k + 1;
        }
        let n = segs.len();
        if n == 1 {
            let s0 = string_of(segs[0].as_slice());
            return match self.resolve_note_seg(s0.as_str(), None, source_notebook) {
                Some(id) => Some((id, None)),
                None => None,
            };
        }
        if n == 2 {
            let s0 = string_of(segs[0].as_slice());
            let s1 = string_of(segs[1].as_slice());
            if let Some(id) = self.resolve_note_seg(s1.as_str(), Some(s0.as_str()), source_notebook) {
                return Some((id, None));
            }
            return match self.resolve_note_seg(s0.as_str(), None, source_notebook) {
                Some(id) => Some((id, Some(s1))),
                None => None,
            };
        }
        if n == 3 {
            let s0 = string_of(segs[0].as_slice());
            let s1 = string_of(segs[1].as_slice());
            let s2 = string_of(segs[2].as_slice());
            return match self.resolve_note_seg(s1.as_str(), Some(s0.as_str()), source_notebook) {
                Some(id) => Some((id, Some(s2))),
                None => None,
            };
        }
        None
    }
}

/// A bookmark as its number, text and alias.
pub open spec fn bookmark_view(b: Bookmark) -> (u32, Seq<char>, Seq<char>) {
    (b.number, b.text@, b.alias@)
}

/// A link as its source, raw text and target.
pub open spec fn link_view(l: NoteLink) -> (LinkSource, Seq<char>, Option<u128>) {
    (l.source, l.raw@, l.target_note_id)
}

/// The bookmarks of a body, numbered from 1 in order; a bookmark without an alias, or
/// with an empty one, takes its text as alias.
pub open spec fn numbered_bookmarks(ds: Seq<(Seq<char>, Option<Seq<char>>)>) -> Seq<
    (u32, Seq<char>, Seq<char>),
> {
    Seq::new(
        ds.len(),
        |i: int|
            (
                (i + 1) as u32,
                ds[i].0,
                match ds[i].1 {
                    Some(a) => if a.len() > 0 {
                        a
                    } else {
                        ds[i].0
                    },
                    None => ds[i].0,
                },
            ),
    )
}

/// The links added by hand, in order.
pub open spec fn manual_links(ls: Seq<NoteLink>) -> Seq<(LinkSource, Seq<char>, Option<u128>)>
    decreases ls.len(),
{
    if ls.len() == 0 {
        Seq::empty()
    } else if ls.last().source == LinkSource::Manual {
        manual_links(ls.drop_last()).push(link_view(ls.last()))
    } else {
        manual_links(ls.drop_last())
    }
}

/// The links of raw texts that are well-formed references, as unresolved content links.
pub open spec fn content_links(raws: Seq<Seq<char>>) -> Seq<(LinkSource, Seq<char>, Option<u128>)>
    decreases raws.len(),
{
    if raws.len() == 0 {
        Seq::empty()
    } else if spec_parse_link_ref(raws.last()) is Some {
        content_links(raws.drop_last()).push((LinkSource::Content, raws.last(), None))
    } else {
        content_links(raws.drop_last())
    }
}

/// Re-derives a note's bookmarks and content links from its body; links added by hand
/// stay.
pub fn refresh(note: &mut Note)
    ensures
        final(note).bookmarks@.map_values(|b: Bookmark| bookmark_view(b)) == numbered_bookmarks(
            scan_bookmarks(old(note).body@, 0),
        ),
        final(note).links@.map_values(|l: NoteLink| link_view(l)) == manual_links(old(note).links@)
            + content_links(scan_content_links(old(note).body@, 0)),
        final(note).id == old(note).id,
        final(note).body == old(note).body,
        final(note).notebook_id == old(note).notebook_id,
        final(note).alias == old(note).alias,
        final(note).deleted_at == old(note).deleted_at,
{
    let derived = parse_bookmarks(note.body.as_str());
    let ghost ds = scan_bookmarks(note.body@, 0);
    let mut bookmarks: Vec<Bookmark> = Vec::new();
    let mut i: usize = 0;
    while i < derived.len()
        invariant
            0 <= i <= derived@.len(),
            derived@.map_values(|b: DerivedBookmark| derived_view(b)) == ds,
            bookmarks@.map_values(|b: Bookmark| bookmark_view(b)) == numbered_bookmarks(ds).take(i as int),
        decreases derived@.len() - i,
    {
        let d = &derived[i];
        assert(ds[i as int] == derived_view(*d));
        let alias = match &d.alias {
            Some(a) => if a.as_str().is_empty() {
                d.text.clone()
            } else {
                a.clone()
            },
            None => d.text.clone(),
        };
        let ghost before = bookmarks@;
        let b = Bookmark { number: (i + 1) as u32, text: d.text.clone(), alias };
        bookmarks.push(b);
        assert(bookmarks@.map_values(|b: Bookmark| bookmark_view(b)) =~= before.map_values(
            |b: Bookmark| bookmark_view(b),
        ).push(bookmark_view(b)));
        assert(numbered_bookmarks(ds).take(i + 1) =~= numbered_bookmarks(ds).take(i as int).push(
            numbered_bookmarks(ds)[i as int],
        ));
        i = i + 1;
    }
    assert(numbered_bookmarks(ds).take(i as int) =~= numbered_bookmarks(ds));
    let mut links: Vec<NoteLink> = Vec::new();
    let ghost old_links = note.links@;
    let mut j: usize = 0;
    while j < note.links.len()
        invariant
            0 <= j <= note.links@.len(),
            old_links == note.links@,
            links@.map_values(|l: NoteLink| link_view(l)) == manual_links(old_links.take(j as int)),
        decreases note.links@.len() - j,
    {
        let l = &note.links[j];
        assert(old_links.take(j + 1).drop_last() =~= old_links.take(j as int));
        match l.source {
            LinkSource::Manual => {
                let ghost before = links@;
                let c = NoteLink { source: l.source, raw: l.raw.clone(), target_note_id: l.target_note_id };
                links.push(c);
                assert(links@.map_values(|l: NoteLink| link_view(l)) =~= before.map_values(
                    |l: NoteLink| link_view(l),
                ).push(link_view(c)));
            },
            LinkSource::Content => {},
        }
        j = j + 1;
    }
    assert(old_links.take(j as int) =~= old_links);
    let raws = parse_content_links(note.body.as_str());
    let ghost rs = raws@.map_values(|d: String| d@);
    let ghost manual = manual_links(old_links);
    let mut k: usize = 0;
    assert(manual + content_links(rs.take(0)) =~= manual);
    while k < raws.len()
        invariant
            0 <= k <= raws@.len(),
            rs == raws@.map_values(|d: String| d@),
            links@.map_values(|l: NoteLink| link_view(l)) == manual + content_links(rs.take(k as int)),
        decreases raws@.len() - k,
    {
        assert(rs.take(k + 1).drop_last() =~= rs.take(k as int));
        assert(rs[k as int] == raws@[k as int]@);
        match NoteLink::from_raw(raws[k].as_str(), LinkSource::Content) {
            Some(link) => {
                let ghost before = links@;
                links.push(link);
                assert(links@.map_values(|l: NoteLink| link_view(l)) =~= before.map_values(
                    |l: NoteLink| link_view(l),
                ).push(link_view(link)));
            },
            None => {},
        }
        k = k + 1;
    }
    assert(rs.take(k as int) =~= rs);
    note.bookmarks = bookmarks;
    note.links = links;
}

/// Unresolved work of preparing a note's links: the target found for each link, in
/// order, and the found targets that the index does not know to be outside the Inbox.
#[derive(Debug, Clone)]
pub struct LinkPlan {
    pub targets: Vec<Option<u128>>,
    pub unverified: Vec<u128>,
}

/// The message of a note alias that is taken.
pub open spec fn alias_taken_message(alias: Seq<char>) -> Seq<char> {
    "note alias '"@ + alias + "' is already in use"@
}

/// The links of a note after re-deriving them from its body.
pub open spec fn refreshed_links(old_links: Seq<NoteLink>, body: Seq<char>) -> Seq<
    (LinkSource, Seq<char>, Option<u128>),
> {
    manual_links(old_links) + content_links(scan_content_links(body, 0))
}

/// Links without targets.
pub open spec fn cleared(ls: Seq<(LinkSource, Seq<char>, Option<u128>)>) -> Seq<
    (LinkSource, Seq<char>, Option<u128>),
> {
    ls.map_values(|l: (LinkSource, Seq<char>, Option<u128>)| (l.0, l.1, None::<u128>))
}

/// The note each link resolves to in the index, for a note in `notebook_id`.
pub open spec fn link_targets(
    v: AliasIndexView,
    ls: Seq<(LinkSource, Seq<char>, Option<u128>)>,
    notebook_id: u128,
) -> Seq<Option<u128>> {
    ls.map_values(
        |l: (LinkSource, Seq<char>, Option<u128>)|
            match spec_resolve_target(v, l.1, Some(notebook_id)) {
                Some((id, _)) => Some(id),
                None => None,
            },
    )
}

/// The found targets that the index holds no alias entry for, in order.
pub open spec fn unverified_targets(v: AliasIndexView, ts: Seq<Option<u128>>) -> Seq<u128>
    decreases ts.len(),
{
    if ts.len() == 0 {
        Seq::empty()
    } else {
        let prev = unverified_targets(v, ts.drop_last());
        match ts.last() {
            Some(id) => if v.notes.contains_key(id) {
                prev
            } else {
                prev.push(id)
            },
            None => prev,
        }
    }
}

impl AliasIndex {
    /// Whether the index holds an alias entry for a note.
    fn has_note(&self, id: u128) -> (r: bool)
        ensures
            r == self@.notes.contains_key(id),
    {
        let list = self.note_list();
        let ghost e = note_entries(list@);
        let mut i: usize = 0;
        while i < list.len()
            invariant
                0 <= i <= list@.len(),
                e == note_entries(list@),
                assoc_map(e) == self@.notes,
                forall|j: int| 0 <= j < i ==> #[trigger] e[j].0 != id,
            decreases list@.len() - i,
        {
            if list[i].0 == id {
                proof {
                    lemma_assoc_contains(e, id);
                    assert(e[i as int].0 == id);
                }
                return true;
            }
            i = i + 1;
        }
        proof {
            lemma_assoc_contains(e, id);
        }
        false
    }
}

/// What preparing a note for a write decides before reading the store: the note's
/// bookmarks and links are re-derived from its body; a note in the Inbox loses its alias
/// and its links' targets and needs nothing more; a note without alias and links needs
/// nothing more; a note whose alias another note of its notebook uses is refused; any
/// other note gets its links' targets resolved in the index.
pub fn plan_links(note: &mut Note, idx: &AliasIndex) -> (r: Result<Option<LinkPlan>, StorageError>)
    ensures
        final(note).bookmarks@.map_values(|b: Bookmark| bookmark_view(b)) == numbered_bookmarks(
            scan_bookmarks(old(note).body@, 0),
        ),
        final(note).id == old(note).id,
        final(note).body == old(note).body,
        final(note).notebook_id == old(note).notebook_id,
        old(note).notebook_id == 0 ==> {
            &&& r matches Ok(None)
            &&& final(note).alias is None
            &&& final(note).links@.map_values(|l: NoteLink| link_view(l)) == cleared(
                refreshed_links(old(note).links@, old(note).body@),
            )
        },
        old(note).notebook_id != 0 ==> {
            &&& final(note).alias == old(note).alias
            &&& final(note).links@.map_values(|l: NoteLink| link_view(l)) == refreshed_links(
                old(note).links@,
                old(note).body@,
            )
            &&& if old(note).alias is None && refreshed_links(old(note).links@, old(note).body@).len()
                == 0 {
                r matches Ok(None)
            } else if old(note).alias is Some && note_alias_used(
                idx@,
                old(note).alias->0@,
                old(note).id,
                old(note).notebook_id,
            ) {
                r matches Err(StorageError::Conflict(m)) && m@ == alias_taken_message(
                    old(note).alias->0@,
                )
            } else {
                r matches Ok(Some(plan)) && plan.targets@ == link_targets(
                    idx@,
                    refreshed_links(old(note).links@, old(note).body@),
                    old(note).notebook_id,
                ) && plan.unverified@ == unverified_targets(idx@, plan.targets@)
            }
        },
{
    refresh(note);
    let ghost rl = refreshed_links(old(note).links@, old(note).body@);
    if note.notebook_id == 0 {
        note.alias = None;
        let mut i: usize = 0;
        let ghost start = note.links@;
        let ghost snap = *note;
        while i < note.links.len()
            invariant
                0 <= i <= note.links@.len(),
                note.id == snap.id,
                note.body == snap.body,
                note.notebook_id == snap.notebook_id,
                note.alias == snap.alias,
                note.bookmarks == snap.bookmarks,
                note.links@.len() == start.len(),
                start.map_values(|l: NoteLink| link_view(l)) == rl,
                forall|j: int| 0 <= j < i ==> #[trigger] link_view(note.links@[j]) == (rl[j].0, rl[j].1, None::<u128>),
                forall|j: int| i <= j < note.links@.len() ==> #[trigger] note.links@[j] == start[j],
            decreases note.links@.len() - i,
        {
            let l = &note.links[i];
            let c = NoteLink { source: l.source, raw: l.raw.clone(), target_note_id: None };
            note.links.set(i, c);
            assert(rl[i as int] == link_view(start[i as int]));
            i = i + 1;
        }
        assert(note.links@.map_values(|l: NoteLink| link_view(l)) =~= cleared(rl));
        return Ok(None);
    }
    if note.alias.is_none() && note.links.len() == 0 {
        assert(note.links@.map_values(|l: NoteLink| link_view(l)).len() == 0);
        return Ok(None);
    }
    match &note.alias {
        Some(a) => {
            if idx.note_alias_taken(a.as_str(), note.id, note.notebook_id) {
                let mut m = "note alias '".to_owned();
                m.append(a.as_str());
                m.append("' is already in use");
                return Err(StorageError::Conflict(m));
            }
        },
        None => {},
    }
    let mut targets: Vec<Option<u128>> = Vec::new();
    let mut i: usize = 0;
    while i < note.links.len()
        invariant
            0 <= i <= note.links@.len(),
            note.links@.map_values(|l: NoteLink| link_view(l)) == rl,
            targets@ == link_targets(idx@, rl, note.notebook_id).take(i as int),
        decreases note.links@.len() - i,
    {
        assert(rl[i as int].1 == note.links@[i as int].raw@);
        let t = match idx.resolve_target(note.links[i].raw.as_str(), Some(note.notebook_id)) {
            Some((id, _)) => Some(id),
            None => None,
        };
        targets.push(t);
        assert(targets@ =~= link_targets(idx@, rl, note.notebook_id).take(i + 1));
        i = i + 1;
    }
    assert(link_targets(idx@, rl, note.notebook_id).take(i as int) =~= link_targets(idx@, rl, note.notebook_id));
    let mut unverified: Vec<u128> = Vec::new();
    let mut k: usize = 0;
    while k < targets.len()
        invariant
            0 <= k <= targets@.len(),
            unverified@ == unverified_targets(idx@, targets@.take(k as int)),
        decreases targets@.len() - k,
    {
        assert(targets@.take(k + 1).drop_last() =~= targets@.take(k as int));
        match targets[k] {
            Some(id) => {
                if !idx.has_note(id) {
                    unverified.push(id);
                }
            },
            None => {},
        }
        k = k + 1;
    }
    assert(targets@.take(k as int) =~= targets@);
    Ok(Some(LinkPlan { targets, unverified }))
}

/// Whether a stored link target is a live note in the Inbox, which no link may point at.
pub fn is_live_inbox_target(n: &Note) -> (r: bool)
    ensures
        r == (n.deleted_at is None && n.notebook_id == 0),
{
    n.deleted_at.is_none() && is_inbox(n.notebook_id)
}

/// Sets each link's target to the found one, unless that note is in the Inbox; links
/// beyond the found targets keep theirs.
pub fn apply_link_targets(note: &mut Note, targets: &Vec<Option<u128>>, inbox_targets: &Vec<u128>)
    ensures
        final(note).links@.len() == old(note).links@.len(),
        forall|i: int|
            0 <= i < old(note).links@.len() ==> #[trigger] final(note).links@[i].source == old(
                note,
            ).links@[i].source && final(note).links@[i].raw == old(note).links@[i].raw,
        forall|i: int|
            0 <= i < old(note).links@.len() ==> #[trigger] final(note).links@[i].target_note_id == if i
                < targets@.len() {
                match targets@[i] {
                    Some(t) => if inbox_targets@.contains(t) {
                        None
                    } else {
                        Some(t)
                    },
                    None => None,
                }
            } else {
                old(note).links@[i].target_note_id
            },
        final(note).id == old(note).id,
        final(note).body == old(note).body,
        final(note).alias == old(note).alias,
        final(note).notebook_id == old(note).notebook_id,
{
    let ghost start = note.links@;
    let ghost snap = *note;
    let mut i: usize = 0;
    while i < note.links.len() && i < targets.len()
        invariant
            0 <= i <= note.links@.len(),
            i <= targets@.len(),
            start == old(note).links@,
            note.id == snap.id,
            note.body == snap.body,
            note.notebook_id == snap.notebook_id,
            note.alias == snap.alias,
            snap.id == old(note).id,
            snap.body == old(note).body,
            snap.notebook_id == old(note).notebook_id,
            snap.alias == old(note).alias,
            note.links@.len() == start.len(),
            forall|j: int| 0 <= j < note.links@.len() ==> #[trigger] note.links@[j].source == start[j].source
                && note.links@[j].raw == start[j].raw,
            forall|j: int| i <= j < note.links@.len() ==> #[trigger] note.links@[j].target_note_id == start[j].target_note_id,
            forall|j: int| 0 <= j < i && j < targets@.len() ==> #[trigger] note.links@[j].target_note_id == match targets@[j] {
                Some(t) => if inbox_targets@.contains(t) {
                    None
                } else {
                    Some(t)
                },
                None => None,
            },
        decreases note.links@.len() - i,
    {
        let t = match targets[i] {
            Some(t) => if contains_u128(inbox_targets, t) {
                None
            } else {
                Some(t)
            },
            None => None,
        };
        let l = &note.links[i];
        let c = NoteLink { source: l.source, raw: l.raw.clone(), target_note_id: t };
        note.links.set(i, c);
        i = i + 1;
    }
    assert forall|j: int| 0 <= j < start.len() implies #[trigger] note.links@[j].target_note_id == if j
        < targets@.len() {
        match targets@[j] {
            Some(t) => if inbox_targets@.contains(t) {
                None
            } else {
                Some(t)
            },
            None => None,
        }
    } else {
        start[j].target_note_id
    } by {
        if j < i {
        } else {
            assert(note.links@[j].target_note_id == start[j].target_note_id);
        }
    }
}

/// Whether `ids` holds `id`.
fn contains_u128(ids: &Vec<u128>, id: u128) -> (r: bool)
    ensures
        r == ids@.contains(id),
{
    let mut i: usize = 0;
    while i < ids.len()
        invariant
            0 <= i <= ids@.len(),
            forall|j: int| 0 <= j < i ==> ids@[j] != id,
        decreases ids@.len() - i,
    {
        if ids[i] == id {
            assert(ids@[i as int] == id);
            return true;
        }
        i = i + 1;
    }
    false
}

/// A bare alias that exactly one note outside the Inbox uses resolves to that note,
/// whichever notebook the link comes from.
pub proof fn lemma_unique_alias_resolves(
    v: AliasIndexView,
    alias: Seq<char>,
    id: u128,
    source: Option<u128>,
)
    requires
        uuid_parse(alias) is None,
        note_cand(v, alias, None, id),
        forall|x: u128| #[trigger] note_cand(v, alias, None, x) ==> x == id,
    ensures
        spec_resolve_note_seg(v, alias, None, source) == Some(id),
{
    assert(is_least_note(v, alias, None, id));
    let c = choose|c: u128| is_least_note(v, alias, None, c);
    assert(c == id);
    assert(single_note(v, alias));
}

/// Indexing a live note outside the Inbox that has an alias makes the alias taken, in
/// its notebook, for every other note.
pub proof fn lemma_indexed_alias_is_taken(
    v: AliasIndexView,
    id: u128,
    notebook_id: u128,
    alias: Seq<char>,
    other: u128,
)
    requires
        notebook_id != 0,
        other != id,
    ensures
        note_alias_used(
            spec_upsert_note(v, id, false, notebook_id, Some(alias)),
            alias,
            other,
            notebook_id,
        ),
{
    let w = spec_upsert_note(v, id, false, notebook_id, Some(alias));
    assert(w.notes.contains_key(id) && w.notes[id] == (alias, notebook_id));
}

/// Indexing a deleted note, or one in the Inbox, leaves no entry for it, so its alias
/// no longer counts as used by it.
pub proof fn lemma_deleted_or_inbox_note_frees_alias(
    v: AliasIndexView,
    id: u128,
    deleted: bool,
    notebook_id: u128,
    alias: Option<Seq<char>>,
)
    requires
        deleted || notebook_id == 0,
    ensures
        !spec_upsert_note(v, id, deleted, notebook_id, alias).notes.contains_key(id),
        spec_upsert_note(v, id, deleted, notebook_id, alias).notebooks == v.notebooks,
{
}

/// A raw link resolved against the notes and notebooks: the note it names and, where a
/// bookmark segment names one of that note's bookmarks, the bookmark's number.
#[derive(Debug, Clone, PartialEq, Eq)]
pub struct ResolvedReference {
    pub note_id: u128,
    pub bookmark_number: Option<u32>,
}

/// The first note of `ns` with the identifier `id`.
pub open spec fn first_note_with_id(ns: Seq<Note>, id: u128) -> Option<Note>
    decreases ns.len(),
{
    if ns.len() == 0 {
        None
    } else if ns[0].id == id {
        Some(ns[0])
    } else {
        first_note_with_id(ns.drop_first(), id)
    }
}

/// The number of the first bookmark of `bs` whose alias is `a`.
pub open spec fn bookmark_number_by_alias(bs: Seq<Bookmark>, a: Seq<char>) -> Option<u32>
    decreases bs.len(),
{
    if bs.len() == 0 {
        None
    } else if bs[0].alias@ == a {
        Some(bs[0].number)
    } else {
        bookmark_number_by_alias(bs.drop_first(), a)
    }
}

/// Which bookmark of the note `note_id` a segment names: a number from 1 names the
/// bookmark with that number, anything else the first bookmark with that alias. Nothing
/// when the note is not among `notes` or has no such bookmark.
pub open spec fn spec_resolve_bookmark_seg(seg: Seq<char>, note_id: u128, notes: Seq<Note>) -> Option<u32> {
    match first_note_with_id(notes, note_id) {
        None => None,
        Some(n) => match spec_bookmark_ref(seg) {
            BookmarkRefView::Number(k) => if exists|j: int| 0 <= j < n.bookmarks@.len() && (#[trigger] n.bookmarks@[j]).number == k {
                Some(k)
            } else {
                None
            },
            BookmarkRefView::Alias(a) => bookmark_number_by_alias(n.bookmarks@, a),
        },
    }
}

/// Finds the bookmark of the note `note_id` that a segment names.
pub fn resolve_bookmark_seg(seg: &str, note_id: u128, notes: &[Note]) -> (r: Option<u32>)
    ensures
        r == spec_resolve_bookmark_seg(seg@, note_id, notes@),
{
    let mut i: usize = 0;
    proof {
        assert(notes@.skip(0) == notes@);
    }
    let mut found = false;
    while !found && i < notes.len()
        invariant
            0 <= i <= notes@.len(),
            first_note_with_id(notes@, note_id) == first_note_with_id(notes@.skip(i as int), note_id),
            found ==> i < notes@.len() && notes@[i as int].id == note_id,
        decreases notes@.len() - i + (if found { 0int } else { 1int }),
    {
        assert(notes@.skip(i as int).drop_first() == notes@.skip(i as int + 1));
        if notes[i].id == note_id {
            found = true;
        } else {
            i = i + 1;
        }
    }
    if !found {
        assert(notes@.skip(i as int).len() == 0);
        return None;
    }
    let note = &notes[i];
    assert(notes@.skip(i as int)[0] == notes@[i as int]);
    assert(first_note_with_id(notes@, note_id) == Some(*note));
    let bs = &note.bookmarks;
    let parsed = BookmarkRef::parse(seg);
    match parsed {
        BookmarkRef::Number(k) => {
            assert(spec_bookmark_ref(seg@) == BookmarkRefView::Number(k));
            let mut j: usize = 0;
            while j < bs.len()
                invariant
                    0 <= j <= bs@.len(),
                    bs@ == note.bookmarks@,
                    first_note_with_id(notes@, note_id) == Some(*note),
                    spec_bookmark_ref(seg@) == BookmarkRefView::Number(k),
                    forall|t: int| 0 <= t < j ==> (#[trigger] bs@[t]).number != k,
                decreases bs@.len() - j,
            {
                if bs[j].number == k {
                    assert(bs@[j as int].number == k);
                    return Some(k);
                }
                j = j + 1;
            }
            None
        },
        BookmarkRef::Alias(a) => {
            assert(spec_bookmark_ref(seg@) == BookmarkRefView::Alias(a@));
            assert(bs@.skip(0) == bs@);
            let mut j: usize = 0;
            while j < bs.len()
                invariant
                    0 <= j <= bs@.len(),
                    bs@ == note.bookmarks@,
                    first_note_with_id(notes@, note_id) == Some(*note),
                    spec_bookmark_ref(seg@) == BookmarkRefView::Alias(a@),
                    bookmark_number_by_alias(bs@, a@) == bookmark_number_by_alias(bs@.skip(j as int), a@),
                decreases bs@.len() - j,
            {
                assert(bs@.skip(j as int).drop_first() == bs@.skip(j as int + 1));
                if bs[j].alias == a {
                    assert(bs@.skip(j as int)[0] == bs@[j as int]);
                    return Some(bs[j].number);
                }
                j = j + 1;
            }
            assert(bs@.skip(j as int).len() == 0);
            None
        },
    }
}

/// What a raw link names among `notes` and `notebooks`: the note that its segments
/// resolve to (none when that note is in the Inbox), and the bookmark that a bookmark
/// segment names.
pub open spec fn spec_resolve_ref(raw: Seq<char>, notes: Seq<Note>, notebooks: Seq<Notebook>) -> Option<
    (u128, Option<u32>),
> {
    match spec_resolve_target(snapshot_index(notes, notebooks), raw, None) {
        None => None,
        Some((id, seg)) => if exists|k: int| 0 <= k < notes.len() && (#[trigger] notes[k]).id == id && notes[k].notebook_id == 0 {
            None
        } else {
            Some(
                (
                    id,
                    match seg {
                        Some(s) => spec_resolve_bookmark_seg(s, id, notes),
                        None => None,
                    },
                ),
            )
        },
    }
}

/// Resolves a raw link against the notes and notebooks.
pub fn resolve_ref(raw: &str, notes: &[Note], notebooks: &[Notebook]) -> (r: Option<ResolvedReference>)
    ensures
        match r {
            Some(rr) => spec_resolve_ref(raw@, notes@, notebooks@) == Some((rr.note_id, rr.bookmark_number)),
            None => spec_resolve_ref(raw@, notes@, notebooks@) is None,
        },
{
    let idx = AliasIndex::from_snapshots(notes, notebooks);
    let target = idx.resolve_target(raw, None);
    assert(idx@ == snapshot_index(notes@, notebooks@));
    let (note_id, seg) = match target {
        Some(t) => t,
        None => {
            assert(spec_resolve_target(snapshot_index(notes@, notebooks@), raw@, None) is None);
            return None;
        },
    };
    let ghost tv = spec_resolve_target(snapshot_index(notes@, notebooks@), raw@, None);
    assert(tv == Some((note_id, opt_text(seg))));
    let mut k: usize = 0;
    while k < notes.len()
        invariant
            0 <= k <= notes@.len(),
            tv == spec_resolve_target(snapshot_index(notes@, notebooks@), raw@, None),
            tv == Some((note_id, opt_text(seg))),
            forall|t: int| 0 <= t < k ==> !((#[trigger] notes@[t]).id == note_id && notes@[t].notebook_id == 0),
        decreases notes@.len() - k,
    {
        if notes[k].id == note_id && is_inbox(notes[k].notebook_id) {
            assert(notes@[k as int].id == note_id && notes@[k as int].notebook_id == 0);
            return None;
        }
        k = k + 1;
    }
    let bookmark_number = match &seg {
        Some(s) => resolve_bookmark_seg(s.as_str(), note_id, notes),
        None => None,
    };
    Some(ResolvedReference { note_id, bookmark_number })
}

/// Whether a note has a link to the note `target`.
pub open spec fn links_to(n: Note, target: u128) -> bool {
    exists|k: int| 0 <= k < n.links@.len() && (#[trigger] n.links@[k]).target_note_id == Some(target)
}

/// The notes of `ns` that link to `target`, in order.
pub open spec fn backlinking(ns: Seq<Note>, target: u128) -> Seq<Note>
    decreases ns.len(),
{
    if ns.len() == 0 {
        Seq::empty()
    } else if links_to(ns.last(), target) {
        backlinking(ns.drop_last(), target).push(ns.last())
    } else {
        backlinking(ns.drop_last(), target)
    }
}

/// Whether a note links to the note `target`.
pub fn note_links_to(n: &Note, target: u128) -> (r: bool)
    ensures
        r == links_to(*n, target),
{
    let mut k: usize = 0;
    while k < n.links.len()
        invariant
            0 <= k <= n.links@.len(),
            forall|j: int| 0 <= j < k ==> (#[trigger] n.links@[j]).target_note_id != Some(target),
        decreases n.links@.len() - k,
    {
        if n.links[k].target_note_id == Some(target) {
            assert(n.links@[k as int].target_note_id == Some(target));
            return true;
        }
        k = k + 1;
    }
    false
}

/// The notes that link to `target`, in the order given: the backlinks of a note before
/// they are paged.
pub fn backlinks_among(notes: Vec<Note>, target: u128) -> (r: Vec<Note>)
    ensures
        r@ == backlinking(notes@, target),
{
    let ghost all = notes@;
    let n = notes.len();
    let mut rest = notes;
    let mut out: Vec<Note> = Vec::new();
    let mut i: usize = 0;
    while rest.len() > 0
        invariant
            i + rest@.len() == all.len(),
            all.len() == n,
            rest@ == all.skip(i as int),
            out@ == backlinking(all.take(i as int), target),
        decreases rest@.len(),
    {
        let x = rest.remove(0);
        proof {
            assert(x == all[i as int]);
            assert(all.take(i as int + 1).drop_last() =~= all.take(i as int));
            assert(rest@ =~= all.skip(i as int + 1));
        }
        if note_links_to(&x, target) {
            out.push(x);
        }
        i = i + 1;
    }
    assert(all.take(i as int) =~= all);
    out
}

/// The refusal of a deleted entity: its identifier was not found among the live ones.
pub open spec fn not_found(r: Result<(), StorageError>, id: u128) -> bool {
    r matches Err(StorageError::NotFound(m)) && m@ == uuid_text(id)
}

/// Why an Inbox note cannot carry an alias.
pub const INBOX_ALIAS_REFUSAL: &'static str = "an Inbox note cannot carry an alias";

/// Sets or clears the alias of a live note; a note in the Inbox cannot take one.
pub fn set_note_alias(note: &mut Note, alias: Option<String>) -> (r: Result<(), StorageError>)
    ensures
        old(note).deleted_at is Some ==> not_found(r, old(note).id) && *final(note) == *old(note),
        old(note).deleted_at is None && alias is Some && old(note).notebook_id == 0 ==> (r matches Err(
            StorageError::InvalidInput(m),
        ) && m@ == INBOX_ALIAS_REFUSAL@) && *final(note) == *old(note),
        old(note).deleted_at is None && !(alias is Some && old(note).notebook_id == 0) ==> r is Ok
            && *final(note) == (Note { alias: alias, ..*old(note) }),
{
    if note.deleted_at.is_some() {
        return Err(StorageError::NotFound(uuid_to_string(note.id)));
    }
    if alias.is_some() && is_inbox(note.notebook_id) {
        return Err(StorageError::InvalidInput(INBOX_ALIAS_REFUSAL.to_owned()));
    }
    note.alias = alias;
    Ok(())
}

/// Sets or clears the alias of a live notebook.
pub fn set_notebook_alias(notebook: &mut Notebook, alias: Option<String>) -> (r: Result<(), StorageError>)
    ensures
        old(notebook).deleted_at is Some ==> not_found(r, old(notebook).id) && *final(notebook) == *old(
            notebook,
        ),
        old(notebook).deleted_at is None ==> r is Ok && *final(notebook) == (Notebook {
            alias: alias,
            ..*old(notebook)
        }),
{
    if notebook.deleted_at.is_some() {
        return Err(StorageError::NotFound(uuid_to_string(notebook.id)));
    }
    notebook.alias = alias;
    Ok(())
}

/// The refusal of a text that is not a link reference.
pub open spec fn invalid_link_message(raw: Seq<char>) -> Seq<char> {
    "invalid link reference '"@ + raw + "'"@
}

/// Adds a link by hand to a live note; the text must be a well-formed reference, and the
/// link starts unresolved.
pub fn add_manual_link(note: &mut Note, raw: &str) -> (r: Result<(), StorageError>)
    ensures
        spec_parse_link_ref(raw@) is None ==> (r matches Err(StorageError::InvalidState(m)) && m@
            == invalid_link_message(raw@)) && *final(note) == *old(note),
        spec_parse_link_ref(raw@) is Some && old(note).deleted_at is Some ==> not_found(r, old(note).id)
            && *final(note) == *old(note),
        spec_parse_link_ref(raw@) is Some && old(note).deleted_at is None ==> r is Ok && exists|l: NoteLink|
            {
                &&& l.source == LinkSource::Manual
                &&& l.raw@ == raw@
                &&& l.target_note_id is None
                &&& *final(note) == (Note { links: final(note).links, ..*old(note) })
                &&& final(note).links@ == old(note).links@.push(l)
            },
{
    let link = match NoteLink::from_raw(raw, LinkSource::Manual) {
        Some(l) => l,
        None => {
            let mut m = String::new();
            m.append("invalid link reference '");
            m.append(raw);
            m.append("'");
            return Err(StorageError::InvalidState(m));
        },
    };
    if note.deleted_at.is_some() {
        return Err(StorageError::NotFound(uuid_to_string(note.id)));
    }
    let ghost l = link;
    note.links.push(link);
    assert(note.links@ == old(note).links@.push(l));
    Ok(())
}

/// The refusal of a link index past the end of a note's links.
pub open spec fn missing_link_message(index: usize, note_id: u128) -> Seq<char> {
    "link "@ + decimal(index as nat) + " in note "@ + uuid_text(note_id)
}

/// Removes the link at `index` from a live note.
pub fn remove_link(note: &mut Note, index: usize) -> (r: Result<(), StorageError>)
    ensures
        old(note).deleted_at is Some ==> not_found(r, old(note).id) && *final(note) == *old(note),
        old(note).deleted_at is None && index >= old(note).links@.len() ==> (r matches Err(
            StorageError::NotFound(m),
        ) && m@ == missing_link_message(index, old(note).id)) && *final(note) == *old(note),
        old(note).deleted_at is None && index < old(note).links@.len() ==> r is Ok && *final(note) == (
        Note { links: final(note).links, ..*old(note) }) && final(note).links@ == old(note).links@.remove(
            index as int,
        ),
{
    if note.deleted_at.is_some() {
        return Err(StorageError::NotFound(uuid_to_string(note.id)));
    }
    if index >= note.links.len() {
        let mut m = String::new();
        m.append("link ");
        push_decimal(&mut m, index as u64);
        m.append(" in note ");
        let idt = uuid_to_string(note.id);
        m.append(idt.as_str());
        return Err(StorageError::NotFound(m));
    }
    note.links.remove(index);
    Ok(())
}

/// The refusal of a notebook alias that another notebook uses.
pub open spec fn notebook_alias_taken_message(alias: Seq<char>) -> Seq<char> {
    "notebook alias '"@ + alias + "' is already in use"@
}

/// Checks that a notebook's alias, if it has one, is used by no other notebook.
pub fn ensure_notebook_alias_free(idx: &AliasIndex, notebook: &Notebook) -> (r: Result<(), StorageError>)
    ensures
        match notebook.alias {
            Some(a) => if notebook_alias_used(idx@, a@, notebook.id) {
                r matches Err(StorageError::Conflict(m)) && m@ == notebook_alias_taken_message(a@)
            } else {
                r is Ok
            },
            None => r is Ok,
        },
{
    match &notebook.alias {
        Some(a) => {
            if idx.notebook_alias_taken(a.as_str(), notebook.id) {
                let mut m = String::new();
                m.append("notebook alias '");
                m.append(a.as_str());
                m.append("' is already in use");
                Err(StorageError::Conflict(m))
            } else {
                Ok(())
            }
        },
        None => Ok(()),
    }
}

} // verus!
