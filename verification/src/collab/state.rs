use vstd::prelude::*;
use vstd::string::*;

use crate::assoc::{
    assoc_map, keys_unique, lemma_assoc_contains, lemma_assoc_finite, lemma_assoc_index,
    lemma_assoc_push_fresh, lemma_assoc_update,
};
use crate::collab::protocol::{LineOp, LineOpView, LineSnapshot, LineView, NoteLinesSnapshot};
use crate::text::{chars_of, lemma_split_on_nonempty, split_on, string_of};
use crate::version_vector::{bump, count_of, merge_into, vv_bump, vv_merge, VersionVector};
use crate::format::{check_body, check_body_result, LimitViolation};
use crate::links::split_chars;
use crate::models::{new_id, now};
use crate::ids::{RANDOM_ID_MASK, RANDOM_ID_TAG};
use crate::collab::protocol::{ops_view, ops_wf};
use crate::collab::diff_law::lemma_diff_keeps_order_distinct;
use crate::collab::diff_law::lemma_diff_shows_body;

verus! {

/// A note's lines as this client mirrors them: the order of line ids, the lines by id,
/// and the version vector of the order.
#[derive(Debug, Clone)]
pub struct NoteLines {
    pub order: Vec<u128>,
    pub lines: Vec<LineSnapshot>,
    pub vv: VersionVector,
}

/// A [`NoteLines`] as an order, a map from ids to lines, and a version vector.
pub struct NoteLinesView {
    pub order: Seq<u128>,
    pub lines: Map<u128, LineView>,
    pub vv: Map<Seq<char>, u64>,
}

/// The lines of a list as id and line pairs.
pub open spec fn line_entries(s: Seq<LineSnapshot>) -> Seq<(u128, LineView)> {
    s.map_values(|l: LineSnapshot| (l.id, l@))
}

impl View for NoteLines {
    type V = NoteLinesView;

    open spec fn view(&self) -> NoteLinesView {
        NoteLinesView {
            order: self.order@,
            lines: assoc_map(line_entries(self.lines@)),
            vv: self.vv@,
        }
    }
}

/// Every line of the list is well formed.
pub open spec fn lines_wf(s: Seq<LineSnapshot>) -> bool {
    forall|i: int| 0 <= i < s.len() ==> (#[trigger] s[i]).wf()
}

impl NoteLines {
    /// No id names two lines, and every version vector is well formed.
    pub open spec fn wf(&self) -> bool {
        &&& keys_unique(line_entries(self.lines@))
        &&& lines_wf(self.lines@)
        &&& self.vv.wf()
    }
}

/// Index of the first occurrence of `x` in `s`, or `s.len()` when it does not occur.
pub open spec fn first_index(s: Seq<u128>, x: u128) -> int
    decreases s.len(),
{
    if s.len() == 0 {
        0
    } else if s[0] == x {
        0
    } else {
        1 + first_index(s.skip(1), x)
    }
}

/// Where lines placed after `after` go in `order`: at the start for no anchor, right
/// after the anchor's first occurrence, or at the end when the anchor is not there.
pub open spec fn anchor_pos(order: Seq<u128>, after: Option<u128>) -> int {
    match after {
        None => 0,
        Some(a) => if first_index(order, a) < order.len() {
            first_index(order, a) + 1
        } else {
            order.len() as int
        },
    }
}

/// `s` without the ids that `ids` holds.
pub open spec fn without_ids(s: Seq<u128>, ids: Seq<u128>) -> Seq<u128>
    decreases s.len(),
{
    if s.len() == 0 {
        Seq::empty()
    } else if ids.contains(s.last()) {
        without_ids(s.drop_last(), ids)
    } else {
        without_ids(s.drop_last(), ids).push(s.last())
    }
}

/// What applying one op does to a note's lines.
pub open spec fn spec_apply(v: NoteLinesView, op: LineOpView) -> NoteLinesView {
    match op {
        LineOpView::Insert { after_line_id, line_id, content, vv, last_writer, updated_at } => {
            NoteLinesView {
                order: v.order.insert(anchor_pos(v.order, after_line_id), line_id),
                lines: v.lines.insert(
                    line_id,
                    LineView {
                        id: line_id,
                        content: content,
                        created_at: updated_at,
                        updated_at: updated_at,
                        deleted_at: None,
                        vv: vv,
                        last_writer: last_writer,
                    },
                ),
                vv: vv_merge(v.vv, vv),
            }
        },
        LineOpView::Update { line_id, content, vv, last_writer, updated_at } => {
            if v.lines.contains_key(line_id) {
                let l = v.lines[line_id];
                NoteLinesView {
                    lines: v.lines.insert(
                        line_id,
                        LineView {
                            content: content,
                            updated_at: updated_at,
                            deleted_at: None,
                            vv: vv_merge(l.vv, vv),
                            last_writer: last_writer,
                            ..l
                        },
                    ),
                    ..v
                }
            } else {
                v
            }
        },
        LineOpView::Delete { line_id, deleted_at, vv, last_writer, updated_at } => {
            if v.lines.contains_key(line_id) {
                let l = v.lines[line_id];
                NoteLinesView {
                    lines: v.lines.insert(
                        line_id,
                        LineView {
                            deleted_at: Some(deleted_at),
                            updated_at: updated_at,
                            vv: vv_merge(l.vv, vv),
                            last_writer: last_writer,
                            ..l
                        },
                    ),
                    ..v
                }
            } else {
                v
            }
        },
        LineOpView::Move { line_ids, after_line_id, vv, .. } => {
            let kept = without_ids(v.order, line_ids);
            let pos = anchor_pos(kept, after_line_id);
            NoteLinesView {
                order: kept.take(pos) + line_ids + kept.skip(pos),
                vv: vv_merge(v.vv, vv),
                ..v
            }
        },
    }
}

/// What applying ops one after the other does to a note's lines.
pub open spec fn apply_all(v: NoteLinesView, ops: Seq<LineOpView>) -> NoteLinesView
    decreases ops.len(),
{
    if ops.len() == 0 {
        v
    } else {
        spec_apply(apply_all(v, ops.drop_last()), ops.last())
    }
}

/// Index of the first occurrence of `x` in `s`.
fn position(s: &Vec<u128>, x: u128) -> (r: usize)
    ensures
        r == first_index(s@, x),
        r <= s@.len(),
{
    let mut i: usize = 0;
    while i < s.len()
        invariant
            0 <= i <= s@.len(),
            forall|j: int| 0 <= j < i ==> s@[j] != x,
        decreases s@.len() - i,
    {
        if s[i] == x {
            proof {
                lemma_first_index_at(s@, x, i as int);
            }
            return i;
        }
        i = i + 1;
    }
    proof {
        lemma_first_index_at(s@, x, s@.len() as int);
    }
    i
}

/// The first index of `x` is `i` when nothing before `i` is `x` and `i` is `x` or the
/// end.
proof fn lemma_first_index_at(s: Seq<u128>, x: u128, i: int)
    requires
        0 <= i <= s.len(),
        forall|j: int| 0 <= j < i ==> s[j] != x,
        i < s.len() ==> s[i] == x,
    ensures
        first_index(s, x) == i,
    decreases i,
{
    if i > 0 {
        let t = s.skip(1);
        assert forall|j: int| 0 <= j < i - 1 implies t[j] != x by {
            assert(t[j] == s[j + 1]);
        }
        if i - 1 < t.len() {
            assert(t[i - 1] == s[i]);
        }
        lemma_first_index_at(t, x, i - 1);
        assert(s[0] != x);
    }
}

/// Where lines placed after `after` go in `order`.
fn anchor_index(order: &Vec<u128>, after: Option<u128>) -> (r: usize)
    ensures
        r == anchor_pos(order@, after),
        r <= order@.len(),
{
    match after {
        None => 0,
        Some(a) => {
            let i = position(order, a);
            if i < order.len() {
                i + 1
            } else {
                order.len()
            }
        },
    }
}

impl NoteLines {
    /// Index of the line with id `id` in the list, if there is one.
    fn find_line(&self, id: u128) -> (r: Option<usize>)
        requires
            self.wf(),
        ensures
            r is None <==> !self@.lines.contains_key(id),
            r matches Some(j) ==> j < self.lines@.len() && self.lines@[j as int].id == id
                && self@.lines[id] == self.lines@[j as int]@,
    {
        let ghost s = line_entries(self.lines@);
        let mut j: usize = 0;
        while j < self.lines.len()
            invariant
                0 <= j <= self.lines@.len(),
                s == line_entries(self.lines@),
                keys_unique(s),
                forall|k: int| 0 <= k < j ==> #[trigger] s[k].0 != id,
            decreases self.lines@.len() - j,
        {
            if self.lines[j].id == id {
                proof {
                    lemma_assoc_index(s, j as int);
                }
                return Some(j);
            }
            j = j + 1;
        }
        proof {
            lemma_assoc_contains(s, id);
        }
        None
    }

    /// Puts a line under its id, in place of the line that had that id.
    fn put_line(&mut self, line: LineSnapshot)
        requires
            old(self).wf(),
            line.wf(),
        ensures
            final(self).wf(),
            final(self).order@ == old(self).order@,
            final(self).vv@ == old(self).vv@,
            final(self)@.lines == old(self)@.lines.insert(line.id, line@),
    {
        let ghost s = line_entries(self.lines@);
        let ghost lv = line@;
        match self.find_line(line.id) {
            Some(j) => {
                self.lines.set(j, line);
                proof {
                    lemma_assoc_update(s, j as int, lv);
                    assert(line_entries(self.lines@) =~= s.update(j as int, (s[j as int].0, lv)));
                }
            },
            None => {
                proof {
                    lemma_assoc_contains(s, line.id);
                    lemma_assoc_push_fresh(s, line.id, lv);
                }
                let id = line.id;
                self.lines.push(line);
                assert(line_entries(self.lines@) =~= s.push((id, lv)));
            },
        }
    }

    /// Applies one op to the lines.
    pub fn apply(&mut self, op: &LineOp)
        requires
            old(self).wf(),
            op.wf(),
        ensures
            final(self).wf(),
            final(self)@ == spec_apply(old(self)@, op@),
    {
        match op {
            LineOp::Insert { after_line_id, line_id, content, vv, last_writer, updated_at } => {
                let pos = anchor_index(&self.order, *after_line_id);
                self.order.insert(pos, *line_id);
                let line = LineSnapshot {
                    id: *line_id,
                    content: content.clone(),
                    created_at: *updated_at,
                    updated_at: *updated_at,
                    deleted_at: None,
                    vv: vv.duplicate(),
                    last_writer: last_writer.clone(),
                };
                self.put_line(line);
                merge_into(&mut self.vv, vv);
            },
            LineOp::Update { line_id, content, vv, last_writer, updated_at } => {
                if let Some(j) = self.find_line(*line_id) {
                    let old_line = &self.lines[j];
                    let mut new_vv = old_line.vv.duplicate();
                    merge_into(&mut new_vv, vv);
                    let line = LineSnapshot {
                        id: old_line.id,
                        content: content.clone(),
                        created_at: old_line.created_at,
                        updated_at: *updated_at,
                        deleted_at: None,
                        vv: new_vv,
                        last_writer: last_writer.clone(),
                    };
                    self.put_line(line);
                }
            },
            LineOp::Delete { line_id, deleted_at, vv, last_writer, updated_at } => {
                if let Some(j) = self.find_line(*line_id) {
                    let old_line = &self.lines[j];
                    let mut new_vv = old_line.vv.duplicate();
                    merge_into(&mut new_vv, vv);
                    let line = LineSnapshot {
                        id: old_line.id,
                        content: old_line.content.clone(),
                        created_at: old_line.created_at,
                        updated_at: *updated_at,
                        deleted_at: Some(*deleted_at),
                        vv: new_vv,
                        last_writer: last_writer.clone(),
                    };
                    self.put_line(line);
                }
            },
            LineOp::Move { line_ids, after_line_id, vv, .. } => {
                let mut kept: Vec<u128> = Vec::new();
                let mut i: usize = 0;
                while i < self.order.len()
                    invariant
                        0 <= i <= self.order@.len(),
                        kept@ == without_ids(self.order@.take(i as int), line_ids@),
                    decreases self.order@.len() - i,
                {
                    let id = self.order[i];
                    assert(self.order@.take(i + 1).drop_last() =~= self.order@.take(i as int));
                    if !contains_id(line_ids, id) {
                        kept.push(id);
                    }
                    i = i + 1;
                }
                assert(self.order@.take(self.order@.len() as int) =~= self.order@);
                let pos = anchor_index(&kept, *after_line_id);
                let mut order: Vec<u128> = Vec::new();
                let mut k: usize = 0;
                while k < pos
                    invariant
                        0 <= k <= pos <= kept@.len(),
                        order@ == kept@.take(k as int),
                    decreases pos - k,
                {
                    order.push(kept[k]);
                    assert(kept@.take(k + 1) =~= kept@.take(k as int).push(kept@[k as int]));
                    k = k + 1;
                }
                let mut m: usize = 0;
                while m < line_ids.len()
                    invariant
                        0 <= m <= line_ids@.len(),
                        pos <= kept@.len(),
                        order@ == kept@.take(pos as int) + line_ids@.take(m as int),
                    decreases line_ids@.len() - m,
                {
                    order.push(line_ids[m]);
                    assert(line_ids@.take(m + 1) =~= line_ids@.take(m as int).push(
                        line_ids@[m as int],
                    ));
                    m = m + 1;
                }
                assert(line_ids@.take(line_ids@.len() as int) =~= line_ids@);
                let mut k2: usize = pos;
                while k2 < kept.len()
                    invariant
                        pos <= k2 <= kept@.len(),
                        order@ == kept@.take(pos as int) + line_ids@ + kept@.subrange(
                            pos as int,
                            k2 as int,
                        ),
                    decreases kept@.len() - k2,
                {
                    order.push(kept[k2]);
                    assert(kept@.subrange(pos as int, k2 + 1) =~= kept@.subrange(
                        pos as int,
                        k2 as int,
                    ).push(kept@[k2 as int]));
                    k2 = k2 + 1;
                }
                assert(kept@.subrange(pos as int, kept@.len() as int) =~= kept@.skip(pos as int));
                self.order = order;
                merge_into(&mut self.vv, vv);
            },
        }
    }
}

/// Whether `ids` holds `id`.
fn contains_id(ids: &Vec<u128>, id: u128) -> (r: bool)
    ensures
        r == ids@.contains(id),
{
    let mut i: usize = 0;
    while i < ids.len()
        invariant
            0 <= i <= ids@.len(),
            forall|j: int| 0 <= j < i ==> ids@[j] != id,
        decreases ids@.len() - i,
    {
        if ids[i] == id {
            assert(ids@[i as int] == id);
            return true;
        }
        i = i + 1;
    }
    false
}

/// Whether the line of `id` exists and is not deleted.
pub open spec fn alive(lines: Map<u128, LineView>, id: u128) -> bool {
    lines.contains_key(id) && lines[id].deleted_at is None
}

/// The ids of the order whose lines exist and are not deleted, in order.
pub open spec fn live_ids(order: Seq<u128>, lines: Map<u128, LineView>) -> Seq<u128>
    decreases order.len(),
{
    if order.len() == 0 {
        Seq::empty()
    } else if alive(lines, order.last()) {
        live_ids(order.drop_last(), lines).push(order.last())
    } else {
        live_ids(order.drop_last(), lines)
    }
}

/// The contents of the lines of the given ids.
pub open spec fn contents(lines: Map<u128, LineView>, ids: Seq<u128>) -> Seq<Seq<char>> {
    ids.map_values(|id: u128| lines[id].content)
}

/// The texts of the lines a note shows, in order.
pub open spec fn shown(v: NoteLinesView) -> Seq<Seq<char>> {
    contents(v.lines, live_ids(v.order, v.lines))
}

/// Texts joined with newlines between them.
pub open spec fn join_lines(ls: Seq<Seq<char>>) -> Seq<char>
    decreases ls.len(),
{
    if ls.len() == 0 {
        Seq::empty()
    } else if ls.len() == 1 {
        ls[0]
    } else {
        join_lines(ls.drop_last()) + seq!['\n'] + ls.last()
    }
}

/// The lines of a body: none for an empty body, else its pieces between newlines.
pub open spec fn new_lines(body: Seq<char>) -> Seq<Seq<char>> {
    if body.len() == 0 {
        Seq::empty()
    } else {
        split_on(body, '\n')
    }
}

/// Joining the pieces of a text between newlines gives the text back.
pub proof fn lemma_join_split(s: Seq<char>)
    ensures
        join_lines(split_on(s, '\n')) == s,
    decreases s.len(),
{
    lemma_split_on_nonempty(s, '\n');
    if s.len() > 0 {
        let t = s.drop_last();
        lemma_join_split(t);
        lemma_split_on_nonempty(t, '\n');
        let ls = split_on(t, '\n');
        if s.last() == '\n' {
            let ls2 = ls.push(Seq::<char>::empty());
            assert(ls2.drop_last() =~= ls);
            assert(join_lines(ls2) =~= t + seq!['\n']);
        } else {
            let ls2 = ls.update(ls.len() - 1, ls.last().push(s.last()));
            lemma_join_push_char(ls, s.last());
        }
        assert(t.push(s.last()) =~= s);
        assert(t + seq!['\n'] =~= t.push('\n'));
    } else {
        assert(split_on(s, '\n') =~= seq![Seq::<char>::empty()]);
        assert(s =~= Seq::<char>::empty());
    }
}

/// Adding a character to the last text adds it to the end of the joined text.
proof fn lemma_join_push_char(ls: Seq<Seq<char>>, c: char)
    requires
        ls.len() > 0,
    ensures
        join_lines(ls.update(ls.len() - 1, ls.last().push(c))) == join_lines(ls).push(c),
{
    let ls2 = ls.update(ls.len() - 1, ls.last().push(c));
    if ls.len() == 1 {
        assert(ls2[0] == ls[0].push(c));
    } else {
        assert(ls2.drop_last() =~= ls.drop_last());
        assert(join_lines(ls2) =~= join_lines(ls).push(c));
    }
}

/// Joining a body's lines gives the body.
pub proof fn lemma_join_new_lines(body: Seq<char>)
    ensures
        join_lines(new_lines(body)) == body,
{
    if body.len() > 0 {
        lemma_join_split(body);
    } else {
        assert(body =~= Seq::<char>::empty());
    }
}

impl Default for NoteLines {
    /// No lines.
    fn default() -> (r: NoteLines)
        ensures
            r.wf(),
            r@.order == Seq::<u128>::empty(),
            r@.lines == Map::<u128, LineView>::empty(),
            r@.vv == Map::<Seq<char>, u64>::empty(),
    {
        let r = NoteLines { order: Vec::new(), lines: Vec::new(), vv: VersionVector::new() };
        assert(line_entries(r.lines@) =~= Seq::<(u128, LineView)>::empty());
        r
    }
}

impl NoteLines {
    /// The lines of a snapshot; of two lines with one id, the later is kept.
    pub fn from_snapshot(snapshot: NoteLinesSnapshot) -> (r: NoteLines)
        requires
            snapshot.wf(),
        ensures
            r.wf(),
            r@.order == snapshot.order@,
            r@.lines == assoc_map(line_entries(snapshot.lines@)),
            r@.vv == snapshot.vv@,
    {
        let NoteLinesSnapshot { order, lines, vv, .. } = snapshot;
        let mut r = NoteLines { order: order, lines: Vec::new(), vv: vv };
        assert(line_entries(r.lines@) =~= Seq::<(u128, LineView)>::empty());
        let ghost src = line_entries(lines@);
        let mut i: usize = 0;
        while i < lines.len()
            invariant
                0 <= i <= lines@.len(),
                src == line_entries(lines@),
                forall|k: int| 0 <= k < lines@.len() ==> (#[trigger] lines@[k]).wf(),
                r.wf(),
                r.order@ == order@,
                r.vv@ == vv@,
                r@.lines == assoc_map(src.take(i as int)),
            decreases lines@.len() - i,
        {
            let line = lines[i].duplicate();
            r.put_line(line);
            assert(src.take(i + 1).drop_last() =~= src.take(i as int));
            i = i + 1;
        }
        assert(src.take(i as int) =~= src);
        r
    }

    /// The ids of the lines shown, in order.
    fn live(&self) -> (r: Vec<u128>)
        requires
            self.wf(),
        ensures
            r@ == live_ids(self@.order, self@.lines),
    {
        let mut out: Vec<u128> = Vec::new();
        let mut i: usize = 0;
        while i < self.order.len()
            invariant
                0 <= i <= self.order@.len(),
                self.wf(),
                out@ == live_ids(self.order@.take(i as int), self@.lines),
            decreases self.order@.len() - i,
        {
            let id = self.order[i];
            assert(self.order@.take(i + 1).drop_last() =~= self.order@.take(i as int));
            match self.find_line(id) {
                Some(j) => {
                    if self.lines[j].deleted_at.is_none() {
                        out.push(id);
                    }
                },
                None => {},
            }
            i = i + 1;
        }
        assert(self.order@.take(i as int) =~= self.order@);
        out
    }

    /// The note's text: the shown lines joined with newlines.
    pub fn materialize(&self) -> (r: String)
        requires
            self.wf(),
        ensures
            r@ == join_lines(shown(self@)),
    {
        let mut out: Vec<char> = Vec::new();
        let mut any = false;
        let mut i: usize = 0;
        while i < self.order.len()
            invariant
                0 <= i <= self.order@.len(),
                self.wf(),
                any == (live_ids(self.order@.take(i as int), self@.lines).len() > 0),
                out@ == join_lines(contents(self@.lines, live_ids(self.order@.take(i as int), self@.lines))),
            decreases self.order@.len() - i,
        {
            let id = self.order[i];
            let ghost before = live_ids(self.order@.take(i as int), self@.lines);
            assert(self.order@.take(i + 1).drop_last() =~= self.order@.take(i as int));
            match self.find_line(id) {
                Some(j) => {
                    if self.lines[j].deleted_at.is_none() {
                        let cs = chars_of(self.lines[j].content.as_str());
                        let ghost after = before.push(id);
                        let ghost ca = contents(self@.lines, after);
                        assert(ca.drop_last() =~= contents(self@.lines, before));
                        if any {
                            out.push('\n');
                        }
                        any = true;
                        let mut k: usize = 0;
                        let ghost base = out@;
                        while k < cs.len()
                            invariant
                                0 <= k <= cs@.len(),
                                out@ == base + cs@.take(k as int),
                            decreases cs@.len() - k,
                        {
                            out.push(cs[k]);
                            assert(cs@.take(k + 1) =~= cs@.take(k as int).push(cs@[k as int]));
                            k = k + 1;
                        }
                        assert(cs@.take(k as int) =~= cs@);
                        assert(out@ =~= join_lines(ca));
                    }
                },
                None => {},
            }
            i = i + 1;
        }
        assert(self.order@.take(i as int) =~= self.order@);
        string_of(out.as_slice())
    }
}

/// How many texts at the start of `a` and `b` agree, counting from index `i`.
pub open spec fn prefix_match(a: Seq<Seq<char>>, b: Seq<Seq<char>>, i: nat) -> nat
    decreases a.len() - i,
{
    if i < a.len() && i < b.len() && a[i as int] == b[i as int] {
        prefix_match(a, b, i + 1)
    } else {
        i
    }
}

/// How many texts at the end of `a` and `b` agree, counting from `s` and leaving the
/// first `p` of each alone.
pub open spec fn suffix_match(a: Seq<Seq<char>>, b: Seq<Seq<char>>, p: nat, s: nat) -> nat
    decreases a.len() - p - s,
{
    if p + s < a.len() && p + s < b.len() && a[a.len() - 1 - s] == b[b.len() - 1 - s] {
        suffix_match(a, b, p, s + 1)
    } else {
        s
    }
}

/// The shown ids before an edit.
pub open spec fn d_ids(v: NoteLinesView) -> Seq<u128> {
    live_ids(v.order, v.lines)
}

/// The shown texts before an edit.
pub open spec fn d_old(v: NoteLinesView) -> Seq<Seq<char>> {
    contents(v.lines, d_ids(v))
}

/// Number of leading lines an edit keeps.
pub open spec fn d_prefix(v: NoteLinesView, body: Seq<char>) -> nat {
    prefix_match(d_old(v), new_lines(body), 0)
}

/// Number of trailing lines an edit keeps.
pub open spec fn d_suffix(v: NoteLinesView, body: Seq<char>) -> nat {
    suffix_match(d_old(v), new_lines(body), d_prefix(v, body), 0)
}

/// The ids of the old lines between the kept ones.
pub open spec fn d_old_mid(v: NoteLinesView, body: Seq<char>) -> Seq<u128> {
    d_ids(v).subrange(d_prefix(v, body) as int, d_ids(v).len() - d_suffix(v, body))
}

/// The new texts between the kept lines.
pub open spec fn d_new_mid(v: NoteLinesView, body: Seq<char>) -> Seq<Seq<char>> {
    new_lines(body).subrange(
        d_prefix(v, body) as int,
        new_lines(body).len() - d_suffix(v, body),
    )
}

/// Number of old middle lines that are paired with new middle texts.
pub open spec fn d_paired(v: NoteLinesView, body: Seq<char>) -> nat {
    if d_old_mid(v, body).len() < d_new_mid(v, body).len() {
        d_old_mid(v, body).len()
    } else {
        d_new_mid(v, body).len()
    }
}

/// Number of lines an edit inserts.
pub open spec fn insert_count(v: NoteLinesView, body: Seq<char>) -> nat {
    (d_new_mid(v, body).len() - d_paired(v, body)) as nat
}

/// The line the first inserted line goes after: the last paired old line, else the last
/// kept leading line, else none.
pub open spec fn d_anchor(v: NoteLinesView, body: Seq<char>) -> Option<u128> {
    if d_paired(v, body) > 0 {
        Some(d_old_mid(v, body)[d_paired(v, body) - 1])
    } else if d_prefix(v, body) > 0 {
        Some(d_ids(v)[d_prefix(v, body) - 1])
    } else {
        None
    }
}

/// A version vector bumped `k` times for one device.
pub open spec fn bump_times(m: Map<Seq<char>, u64>, d: Seq<char>, k: nat) -> Map<Seq<char>, u64>
    decreases k,
{
    if k == 0 {
        m
    } else {
        vv_bump(bump_times(m, d, (k - 1) as nat), d)
    }
}

/// The updates of an edit for the first `n` paired lines: one for each whose text
/// changes.
pub open spec fn update_ops(
    v: NoteLinesView,
    body: Seq<char>,
    device: Seq<char>,
    t: i128,
    n: nat,
) -> Seq<LineOpView>
    decreases n,
{
    if n == 0 {
        Seq::empty()
    } else {
        let prev = update_ops(v, body, device, t, (n - 1) as nat);
        let id = d_old_mid(v, body)[n - 1];
        let text = d_new_mid(v, body)[n - 1];
        if v.lines[id].content != text {
            prev.push(
                LineOpView::Update {
                    line_id: id,
                    content: text,
                    vv: vv_bump(v.lines[id].vv, device),
                    last_writer: device,
                    updated_at: t,
                },
            )
        } else {
            prev
        }
    }
}

/// The deletions of an edit for the first `n` unpaired old middle lines.
pub open spec fn delete_ops(
    v: NoteLinesView,
    body: Seq<char>,
    device: Seq<char>,
    t: i128,
    n: nat,
) -> Seq<LineOpView>
    decreases n,
{
    if n == 0 {
        Seq::empty()
    } else {
        let id = d_old_mid(v, body)[d_paired(v, body) + n - 1];
        delete_ops(v, body, device, t, (n - 1) as nat).push(
            LineOpView::Delete {
                line_id: id,
                deleted_at: t,
                vv: vv_bump(v.lines[id].vv, device),
                last_writer: device,
                updated_at: t,
            },
        )
    }
}

/// The first `n` insertions of an edit, with the new lines' ids: each goes after the one
/// before it, the first after the anchor.
pub open spec fn insert_ops(
    v: NoteLinesView,
    body: Seq<char>,
    device: Seq<char>,
    t: i128,
    ids: Seq<u128>,
    n: nat,
) -> Seq<LineOpView>
    decreases n,
{
    if n == 0 {
        Seq::empty()
    } else {
        insert_ops(v, body, device, t, ids, (n - 1) as nat).push(
            LineOpView::Insert {
                after_line_id: if n == 1 {
                    d_anchor(v, body)
                } else {
                    Some(ids[n - 2])
                },
                line_id: ids[n - 1],
                content: d_new_mid(v, body)[d_paired(v, body) + n - 1],
                vv: bump_times(v.vv, device, n),
                last_writer: device,
                updated_at: t,
            },
        )
    }
}

/// The ops an edit of the lines to `body` sends, at time `t`, with `ids` for the new
/// lines: updates, then deletions, then insertions.
pub open spec fn diff_ops(
    v: NoteLinesView,
    body: Seq<char>,
    device: Seq<char>,
    t: i128,
    ids: Seq<u128>,
) -> Seq<LineOpView> {
    update_ops(v, body, device, t, d_paired(v, body)) + delete_ops(
        v,
        body,
        device,
        t,
        (d_old_mid(v, body).len() - d_paired(v, body)) as nat,
    ) + insert_ops(v, body, device, t, ids, insert_count(v, body))
}

/// Whether `ids` are new: distinct, in no line and not in the order.
pub open spec fn fresh_ids(v: NoteLinesView, ids: Seq<u128>) -> bool {
    &&& forall|i: int, j: int| 0 <= i < j < ids.len() ==> ids[i] != ids[j]
    &&& forall|i: int| 0 <= i < ids.len() ==> !v.lines.contains_key(#[trigger] ids[i])
    &&& forall|i: int| 0 <= i < ids.len() ==> !v.order.contains(#[trigger] ids[i])
}

/// Whether every id carries the bits that mark a random (version 4) identifier.
pub open spec fn random_tagged(ids: Seq<u128>) -> bool {
    forall|i: int| 0 <= i < ids.len() ==> #[trigger] ids[i] & RANDOM_ID_MASK == RANDOM_ID_TAG
}

/// No id occurs twice in the order.
pub open spec fn order_distinct(order: Seq<u128>) -> bool {
    forall|i: int, j: int| 0 <= i < j < order.len() ==> order[i] != order[j]
}

/// The version-vector counts of `device` leave room for an edit to `body`: every line
/// can count one more edit, and the order as many as the body has lines.
pub open spec fn counts_fit(v: NoteLinesView, device: Seq<char>, body: Seq<char>) -> bool {
    &&& forall|id: u128| #[trigger] v.lines.contains_key(id) ==> count_of(v.lines[id].vv, device) < u64::MAX
    &&& count_of(v.vv, device) + new_lines(body).len() <= u64::MAX
}

/// Whether two character sequences are equal.
fn chars_eq(a: &[char], b: &[char]) -> (r: bool)
    ensures
        r == (a@ == b@),
{
    if a.len() != b.len() {
        return false;
    }
    let mut i: usize = 0;
    while i < a.len()
        invariant
            a@.len() == b@.len(),
            0 <= i <= a@.len(),
            forall|j: int| 0 <= j < i ==> a@[j] == b@[j],
        decreases a@.len() - i,
    {
        if a[i] != b[i] {
            return false;
        }
        i = i + 1;
    }
    assert(a@ =~= b@);
    true
}

/// The texts of character vectors.
pub open spec fn texts_of(v: Seq<Vec<char>>) -> Seq<Seq<char>> {
    v.map_values(|l: Vec<char>| l@)
}

/// Every shown id names a line that is not deleted.
proof fn lemma_live_alive(order: Seq<u128>, lines: Map<u128, LineView>)
    ensures
        forall|k: int|
            0 <= k < live_ids(order, lines).len() ==> alive(lines, #[trigger] live_ids(order, lines)[k]),
        live_ids(order, lines).len() <= order.len(),
    decreases order.len(),
{
    if order.len() > 0 {
        lemma_live_alive(order.drop_last(), lines);
    }
}

impl NoteLines {
    /// The texts of the given lines, which all exist.
    fn texts_of_ids(&self, ids: &Vec<u128>) -> (r: Vec<Vec<char>>)
        requires
            self.wf(),
            forall|k: int| 0 <= k < ids@.len() ==> self@.lines.contains_key(#[trigger] ids@[k]),
        ensures
            texts_of(r@) == contents(self@.lines, ids@),
    {
        let mut out: Vec<Vec<char>> = Vec::new();
        let mut k: usize = 0;
        while k < ids.len()
            invariant
                0 <= k <= ids@.len(),
                self.wf(),
                forall|m: int| 0 <= m < ids@.len() ==> self@.lines.contains_key(#[trigger] ids@[m]),
                texts_of(out@) == contents(self@.lines, ids@.take(k as int)),
            decreases ids@.len() - k,
        {
            let id = ids[k];
            assert(self@.lines.contains_key(ids@[k as int]));
            let j = match self.find_line(id) {
                Some(j) => j,
                None => { return out; },
            };
            let cs = chars_of(self.lines[j].content.as_str());
            let ghost before = out@;
            out.push(cs);
            assert(cs@ == self@.lines[id].content);
            assert(ids@.take(k + 1) =~= ids@.take(k as int).push(id));
            assert(texts_of(out@) =~= texts_of(before).push(cs@));
            assert(contents(self@.lines, ids@.take(k + 1)) =~= contents(
                self@.lines,
                ids@.take(k as int),
            ).push(self@.lines[id].content));
            k = k + 1;
        }
        assert(ids@.take(k as int) =~= ids@);
        out
    }
}

/// The number of leading texts two lists share.
fn common_prefix(a: &Vec<Vec<char>>, b: &Vec<Vec<char>>) -> (r: usize)
    ensures
        r == prefix_match(texts_of(a@), texts_of(b@), 0),
        r <= a@.len(),
        r <= b@.len(),
{
    let ghost ta = texts_of(a@);
    let ghost tb = texts_of(b@);
    let mut p: usize = 0;
    while p < a.len() && p < b.len() && chars_eq(a[p].as_slice(), b[p].as_slice())
        invariant
            ta == texts_of(a@),
            tb == texts_of(b@),
            p <= a@.len(),
            p <= b@.len(),
            prefix_match(ta, tb, 0) == prefix_match(ta, tb, p as nat),
        decreases a@.len() - p,
    {
        assert(ta[p as int] == a@[p as int]@ && tb[p as int] == b@[p as int]@);
        p = p + 1;
    }
    if p < a.len() && p < b.len() {
        assert(ta[p as int] == a@[p as int]@ && tb[p as int] == b@[p as int]@);
    }
    p
}

/// The number of trailing texts two lists share, leaving the first `p` of each alone.
fn common_suffix(a: &Vec<Vec<char>>, b: &Vec<Vec<char>>, p: usize) -> (r: usize)
    requires
        p <= a@.len(),
        p <= b@.len(),
    ensures
        r == suffix_match(texts_of(a@), texts_of(b@), p as nat, 0),
        p + r <= a@.len(),
        p + r <= b@.len(),
{
    let ghost ta = texts_of(a@);
    let ghost tb = texts_of(b@);
    let mut s: usize = 0;
    while s < a.len() - p && s < b.len() - p && chars_eq(
        a[a.len() - 1 - s].as_slice(),
        b[b.len() - 1 - s].as_slice(),
    )
        invariant
            ta == texts_of(a@),
            tb == texts_of(b@),
            p <= a@.len(),
            p <= b@.len(),
            p + s <= a@.len(),
            p + s <= b@.len(),
            suffix_match(ta, tb, p as nat, 0) == suffix_match(ta, tb, p as nat, s as nat),
        decreases a@.len() - p - s,
    {
        assert(ta[a@.len() - 1 - s] == a@[a@.len() - 1 - s]@);
        assert(tb[b@.len() - 1 - s] == b@[b@.len() - 1 - s]@);
        s = s + 1;
    }
    if s < a.len() - p && s < b.len() - p {
        assert(ta[a@.len() - 1 - s] == a@[a@.len() - 1 - s]@);
        assert(tb[b@.len() - 1 - s] == b@[b@.len() - 1 - s]@);
    }
    s
}

/// A version vector bumped `k` times counts `k` more edits of its device.
proof fn lemma_bump_times_count(m: Map<Seq<char>, u64>, d: Seq<char>, k: nat)
    requires
        count_of(m, d) + k <= u64::MAX,
    ensures
        count_of(bump_times(m, d, k), d) == count_of(m, d) + k,
    decreases k,
{
    if k > 0 {
        lemma_bump_times_count(m, d, (k - 1) as nat);
    }
}

impl NoteLines {
    /// Applies the ops of a remote edit in order and returns the note's text after them.
    pub fn apply_ops(&mut self, ops: &Vec<LineOp>) -> (r: String)
        requires
            old(self).wf(),
            ops_wf(ops@),
        ensures
            final(self).wf(),
            final(self)@ == apply_all(old(self)@, ops_view(ops@)),
            r@ == join_lines(shown(final(self)@)),
    {
        let ghost start = self@;
        let mut i: usize = 0;
        while i < ops.len()
            invariant
                0 <= i <= ops@.len(),
                ops_wf(ops@),
                self.wf(),
                self@ == apply_all(start, ops_view(ops@.take(i as int))),
            decreases ops@.len() - i,
        {
            proof {
                assert(ops_view(ops@.take(i as int + 1)).drop_last() =~= ops_view(ops@.take(i as int)));
                assert(ops_view(ops@.take(i as int + 1)).last() == ops@[i as int]@);
            }
            self.apply(&ops[i]);
            i = i + 1;
        }
        assert(ops@.take(i as int) =~= ops@);
        self.materialize()
    }
}

impl NoteLines {
    /// Turns an edit of the whole body into line ops, applies them, and returns them:
    /// lines kept at the start and end are left alone, the lines between are paired in
    /// order and updated where their text changes, old lines left over are deleted and
    /// new texts left over are inserted after the last paired or kept line. A body that
    /// breaks a limit is refused and the lines stay as they were.
    pub fn diff_body(&mut self, body: &str, device: &str) -> (r: Result<Vec<LineOp>, LimitViolation>)
        requires
            old(self).wf(),
            body.spec_bytes().len() < usize::MAX,
            counts_fit(old(self)@, device@, body@),
        ensures
            final(self).wf(),
            match r {
                Err(v) => check_body_result(body@, Err(v)) && final(self)@ == old(self)@,
                Ok(ops) => {
                    &&& check_body_result(body@, Ok(()))
                    &&& ops_wf(ops@)
                    &&& final(self)@ == apply_all(old(self)@, ops_view(ops@))
                    &&& exists|t: i128, ids: Seq<u128>|
                        #![trigger diff_ops(old(self)@, body@, device@, t, ids)]
                        {
                            &&& ops_view(ops@) == diff_ops(old(self)@, body@, device@, t, ids)
                            &&& ids.len() == insert_count(old(self)@, body@)
                            &&& random_tagged(ids)
                            &&& (order_distinct(old(self)@.order) && fresh_ids(old(self)@, ids))
                                ==> shown(final(self)@) == new_lines(body@) && join_lines(
                                shown(final(self)@),
                            ) == body@ && order_distinct(final(self)@.order)
                        }
                },
            },
    {
        match check_body(body) {
            Ok(()) => {},
            Err(v) => {
                return Err(v);
            },
        }
        let ghost o = self@;
        let ghost dv = device@;
        let t = now();
        let cs = chars_of(body);
        let nl: Vec<Vec<char>> = if cs.len() == 0 {
            Vec::new()
        } else {
            split_chars(cs.as_slice(), '\n')
        };
        assert(texts_of(nl@) =~= new_lines(body@));
        let old_ids = self.live();
        proof {
            lemma_live_alive(o.order, o.lines);
        }
        let old_texts = self.texts_of_ids(&old_ids);
        assert(texts_of(old_texts@) == d_old(o));
        assert(old_texts@.len() == texts_of(old_texts@).len());
        assert(old_texts@.len() == old_ids@.len());
        assert(nl@.len() == texts_of(nl@).len());
        let prefix = common_prefix(&old_texts, &nl);
        let suffix = common_suffix(&old_texts, &nl, prefix);
        assert(prefix == d_prefix(o, body@));
        assert(suffix == d_suffix(o, body@));
        let old_len = old_ids.len() - suffix - prefix;
        let new_len = nl.len() - suffix - prefix;
        let paired = if old_len < new_len {
            old_len
        } else {
            new_len
        };
        assert(d_old_mid(o, body@).len() == old_len);
        assert(d_new_mid(o, body@).len() == new_len);
        assert(paired == d_paired(o, body@));
        assert forall|k: int| 0 <= k < old_len implies #[trigger] d_old_mid(o, body@)[k] == old_ids@[prefix + k] by {}
        assert forall|k: int| 0 <= k < new_len implies #[trigger] d_new_mid(o, body@)[k] == nl@[prefix + k]@ by {
            assert(texts_of(nl@)[prefix + k] == nl@[prefix + k]@);
        }
        let mut ops: Vec<LineOp> = Vec::new();
        let mut i: usize = 0;
        assert(prefix + old_len <= old_ids@.len());
        while i < paired
            invariant
                self.wf(),
                self@ == o,
                o.lines == self@.lines,
                dv == device@,
                0 <= i <= paired,
                paired == d_paired(o, body@),
                paired <= old_len,
                paired <= new_len,
                old_ids@ == d_ids(o),
                prefix + old_len <= old_ids@.len(),
                old_ids@.len() <= usize::MAX,
                prefix + new_len <= nl@.len(),
                nl@.len() <= usize::MAX,
                texts_of(old_texts@) == d_old(o),
                forall|k: int| 0 <= k < old_len ==> #[trigger] d_old_mid(o, body@)[k] == old_ids@[prefix + k],
                forall|k: int| 0 <= k < new_len ==> #[trigger] d_new_mid(o, body@)[k] == nl@[prefix + k]@,
                forall|k: int| 0 <= k < old_ids@.len() ==> alive(o.lines, #[trigger] old_ids@[k]),
                counts_fit(o, device@, body@),
                ops_wf(ops@),
                ops_view(ops@) == update_ops(o, body@, device@, t, i as nat),
            decreases paired - i,
        {
            assert(i < paired);
            assert(paired <= old_len);
            assert(prefix + old_len <= old_ids@.len());
            assert(prefix + i < old_ids@.len());
            let idx = prefix + i;
            let id = old_ids[idx];
            assert(alive(o.lines, old_ids@[prefix + i]));
            let j = match self.find_line(id) {
                Some(j) => j,
                None => {
                    return Ok(ops);
                },
            };
            assert(d_old_mid(o, body@)[i as int] == id);
            assert(d_new_mid(o, body@)[i as int] == nl@[prefix + i]@);
            assert(texts_of(old_texts@)[prefix + i] == o.lines[id].content);
            let ghost before = ops@;
            if !chars_eq(old_texts[prefix + i].as_slice(), nl[prefix + i].as_slice()) {
                let mut vv = self.lines[j].vv.duplicate();
                bump(&mut vv, device);
                let op = LineOp::Update {
                    line_id: id,
                    content: string_of(nl[prefix + i].as_slice()),
                    vv: vv,
                    last_writer: device.to_owned(),
                    updated_at: t,
                };
                ops.push(op);
                assert(ops_view(ops@) =~= ops_view(before).push(op@));
            }
            i = i + 1;
        }
        let ghost ups = ops_view(ops@);
        let mut i: usize = paired;
        assert(delete_ops(o, body@, device@, t, 0) =~= Seq::<LineOpView>::empty());
        assert(ups + delete_ops(o, body@, device@, t, 0) =~= ups);
        while i < old_len
            invariant
                self.wf(),
                self@ == o,
                dv == device@,
                paired <= i <= old_len,
                paired == d_paired(o, body@),
                prefix + old_len <= old_ids@.len(),
                old_ids@.len() <= usize::MAX,
                old_len == d_old_mid(o, body@).len(),
                forall|k: int| 0 <= k < old_len ==> #[trigger] d_old_mid(o, body@)[k] == old_ids@[prefix + k],
                forall|k: int| 0 <= k < old_ids@.len() ==> alive(o.lines, #[trigger] old_ids@[k]),
                counts_fit(o, device@, body@),
                ops_wf(ops@),
                ups == update_ops(o, body@, device@, t, paired as nat),
                ops_view(ops@) == ups + delete_ops(o, body@, device@, t, (i - paired) as nat),
            decreases old_len - i,
        {
            assert(prefix + i < old_ids@.len());
            let id = old_ids[prefix + i];
            assert(alive(o.lines, old_ids@[prefix + i]));
            let j = match self.find_line(id) {
                Some(j) => j,
                None => {
                    return Ok(ops);
                },
            };
            assert(d_old_mid(o, body@)[i as int] == id);
            let mut vv = self.lines[j].vv.duplicate();
            bump(&mut vv, device);
            let op = LineOp::Delete {
                line_id: id,
                deleted_at: t,
                vv: vv,
                last_writer: device.to_owned(),
                updated_at: t,
            };
            let ghost before = ops@;
            ops.push(op);
            assert(ops_view(ops@) =~= ops_view(before).push(op@));
            assert(d_paired(o, body@) + (i + 1 - paired) - 1 == i);
            assert(delete_ops(o, body@, device@, t, (i + 1 - paired) as nat) == delete_ops(
                o,
                body@,
                device@,
                t,
                (i - paired) as nat,
            ).push(op@));
            assert(ops_view(ops@) =~= ups + delete_ops(o, body@, device@, t, (i + 1 - paired) as nat));
            i = i + 1;
        }
        let ghost uds = ops_view(ops@);
        let mut anchor: Option<u128> = if paired > 0 {
            Some(old_ids[prefix + paired - 1])
        } else if prefix > 0 {
            Some(old_ids[prefix - 1])
        } else {
            None
        };
        assert(anchor == d_anchor(o, body@));
        let mut order_vv = self.vv.duplicate();
        let ghost mut ids: Seq<u128> = Seq::empty();
        let n_ins = new_len - paired;
        assert(n_ins == insert_count(o, body@));
        let mut k: usize = 0;
        assert(insert_ops(o, body@, device@, t, ids, 0) =~= Seq::<LineOpView>::empty());
        assert(uds + insert_ops(o, body@, device@, t, ids, 0) =~= uds);
        while k < n_ins
            invariant
                self.wf(),
                self@ == o,
                dv == device@,
                0 <= k <= n_ins,
                n_ins == insert_count(o, body@),
                paired == d_paired(o, body@),
                prefix + new_len <= nl@.len(),
                nl@.len() <= usize::MAX,
                new_len == d_new_mid(o, body@).len(),
                paired + n_ins == new_len,
                new_len <= new_lines(body@).len(),
                forall|m: int| 0 <= m < new_len ==> #[trigger] d_new_mid(o, body@)[m] == nl@[prefix + m]@,
                counts_fit(o, device@, body@),
                order_vv.wf(),
                order_vv@ == bump_times(o.vv, device@, k as nat),
                ids.len() == k,
                random_tagged(ids),
                anchor == (if k == 0 {
                    d_anchor(o, body@)
                } else {
                    Some(ids[k - 1])
                }),
                ops_wf(ops@),
                ops_view(ops@) == uds + insert_ops(o, body@, device@, t, ids, k as nat),
            decreases n_ins - k,
        {
            proof {
                lemma_bump_times_count(o.vv, device@, k as nat);
            }
            bump(&mut order_vv, device);
            let line_id = new_id();
            assert(paired + k < new_len);
            assert(prefix + new_len <= nl@.len());
            let text_index = prefix + paired + k;
            let op = LineOp::Insert {
                after_line_id: anchor,
                line_id: line_id,
                content: string_of(nl[text_index].as_slice()),
                vv: order_vv.duplicate(),
                last_writer: device.to_owned(),
                updated_at: t,
            };
            let ghost before = ops@;
            let ghost old_ids_seq = ids;
            ops.push(op);
            proof {
                ids = ids.push(line_id);
                assert forall|m: nat| m <= k implies #[trigger] insert_ops(o, body@, device@, t, ids, m)
                    == insert_ops(o, body@, device@, t, old_ids_seq, m) by {
                    lemma_insert_ops_prefix(o, body@, device@, t, old_ids_seq, ids, m);
                }
                assert(d_new_mid(o, body@)[paired + k] == nl@[text_index as int]@);
                let ins = insert_ops(o, body@, device@, t, ids, (k + 1) as nat);
                assert(ins.drop_last() == insert_ops(o, body@, device@, t, ids, k as nat));
                assert(ids[k as int] == line_id);
                assert(k > 0 ==> ids[k - 1] == old_ids_seq[k - 1]);
                assert(op@ matches LineOpView::Insert { after_line_id, line_id: lid, content, vv, last_writer, updated_at }
                    && after_line_id == (if k == 0 { d_anchor(o, body@) } else { Some(ids[k - 1]) })
                    && lid == ids[k as int]
                    && content == d_new_mid(o, body@)[d_paired(o, body@) + (k + 1) - 1]
                    && vv == bump_times(o.vv, device@, (k + 1) as nat)
                    && last_writer == device@
                    && updated_at == t);
                assert(insert_ops(o, body@, device@, t, ids, (k + 1) as nat) == insert_ops(
                    o,
                    body@,
                    device@,
                    t,
                    old_ids_seq,
                    k as nat,
                ).push(op@));
                assert(ops_view(ops@) =~= ops_view(before).push(op@));
            }
            anchor = Some(line_id);
            k = k + 1;
        }
        let ghost all = ops_view(ops@);
        assert(all == diff_ops(o, body@, device@, t, ids));
        let mut a: usize = 0;
        while a < ops.len()
            invariant
                0 <= a <= ops@.len(),
                ops_wf(ops@),
                all == ops_view(ops@),
                self.wf(),
                self@ == apply_all(o, all.take(a as int)),
            decreases ops@.len() - a,
        {
            assert(all.take(a + 1).drop_last() =~= all.take(a as int));
            self.apply(&ops[a]);
            a = a + 1;
        }
        assert(all.take(a as int) =~= all);
        proof {
            if order_distinct(o.order) && fresh_ids(o, ids) {
                lemma_diff_shows_body(o, body@, device@, t, ids);
                lemma_diff_keeps_order_distinct(o, body@, device@, t, ids);
                lemma_join_new_lines(body@);
            }
        }
        Ok(ops)
    }
}

/// The first `m` insertions depend only on the first ids.
proof fn lemma_insert_ops_prefix(
    v: NoteLinesView,
    body: Seq<char>,
    device: Seq<char>,
    t: i128,
    a: Seq<u128>,
    b: Seq<u128>,
    m: nat,
)
    requires
        m <= a.len(),
        m <= b.len(),
        forall|i: int| 0 <= i < m ==> a[i] == b[i],
    ensures
        insert_ops(v, body, device, t, a, m) == insert_ops(v, body, device, t, b, m),
    decreases m,
{
    if m > 0 {
        lemma_insert_ops_prefix(v, body, device, t, a, b, (m - 1) as nat);
    }
}

} // verus!
