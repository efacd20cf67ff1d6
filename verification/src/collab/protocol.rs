use vstd::prelude::*;

use crate::version_vector::VersionVector;

verus! {

/// One line of a note as the server keeps it. Times are nanoseconds since the Unix
/// epoch.
#[derive(Debug, Clone)]
pub struct LineSnapshot {
    pub id: u128,
    pub content: String,
    pub created_at: i128,
    pub updated_at: i128,
    pub deleted_at: Option<i128>,
    pub vv: VersionVector,
    pub last_writer: String,
}

/// A [`LineSnapshot`] with its texts as character sequences and its version vector as a
/// map.
pub struct LineView {
    pub id: u128,
    pub content: Seq<char>,
    pub created_at: i128,
    pub updated_at: i128,
    pub deleted_at: Option<i128>,
    pub vv: Map<Seq<char>, u64>,
    pub last_writer: Seq<char>,
}

impl View for LineSnapshot {
    type V = LineView;

    open spec fn view(&self) -> LineView {
        LineView {
            id: self.id,
            content: self.content@,
            created_at: self.created_at,
            updated_at: self.updated_at,
            deleted_at: self.deleted_at,
            vv: self.vv@,
            last_writer: self.last_writer@,
        }
    }
}

impl LineSnapshot {
    pub open spec fn wf(&self) -> bool {
        self.vv.wf()
    }

    /// A copy of the line.
    pub fn duplicate(&self) -> (r: LineSnapshot)
        requires
            self.wf(),
        ensures
            r.wf(),
            r@ == self@,
    {
        LineSnapshot {
            id: self.id,
            content: self.content.clone(),
            created_at: self.created_at,
            updated_at: self.updated_at,
            deleted_at: self.deleted_at,
            vv: self.vv.duplicate(),
            last_writer: self.last_writer.clone(),
        }
    }
}

/// The whole line state of a note, as the server sends it on joining.
#[derive(Debug, Clone)]
pub struct NoteLinesSnapshot {
    pub note_id: u128,
    pub order: Vec<u128>,
    pub updated_at: i128,
    pub vv: VersionVector,
    pub last_writer: String,
    pub lines: Vec<LineSnapshot>,
}

impl NoteLinesSnapshot {
    pub open spec fn wf(&self) -> bool {
        &&& self.vv.wf()
        &&& forall|i: int| 0 <= i < self.lines@.len() ==> (#[trigger] self.lines@[i]).wf()
    }
}

/// An edit of a note's lines.
#[derive(Debug, Clone)]
pub enum LineOp {
    Insert {
        after_line_id: Option<u128>,
        line_id: u128,
        content: String,
        vv: VersionVector,
        last_writer: String,
        updated_at: i128,
    },
    Update {
        line_id: u128,
        content: String,
        vv: VersionVector,
        last_writer: String,
        updated_at: i128,
    },
    Delete {
        line_id: u128,
        deleted_at: i128,
        vv: VersionVector,
        last_writer: String,
        updated_at: i128,
    },
    Move {
        line_ids: Vec<u128>,
        after_line_id: Option<u128>,
        vv: VersionVector,
        last_writer: String,
        updated_at: i128,
    },
}

/// A [`LineOp`] with its texts as character sequences and its version vector as a map.
pub enum LineOpView {
    Insert {
        after_line_id: Option<u128>,
        line_id: u128,
        content: Seq<char>,
        vv: Map<Seq<char>, u64>,
        last_writer: Seq<char>,
        updated_at: i128,
    },
    Update {
        line_id: u128,
        content: Seq<char>,
        vv: Map<Seq<char>, u64>,
        last_writer: Seq<char>,
        updated_at: i128,
    },
    Delete {
        line_id: u128,
        deleted_at: i128,
        vv: Map<Seq<char>, u64>,
        last_writer: Seq<char>,
        updated_at: i128,
    },
    Move {
        line_ids: Seq<u128>,
        after_line_id: Option<u128>,
        vv: Map<Seq<char>, u64>,
        last_writer: Seq<char>,
        updated_at: i128,
    },
}

impl View for LineOp {
    type V = LineOpView;

    open spec fn view(&self) -> LineOpView {
        match self {
            LineOp::Insert { after_line_id, line_id, content, vv, last_writer, updated_at } => {
                LineOpView::Insert {
                    after_line_id: *after_line_id,
                    line_id: *line_id,
                    content: content@,
                    vv: vv@,
                    last_writer: last_writer@,
                    updated_at: *updated_at,
                }
            },
            LineOp::Update { line_id, content, vv, last_writer, updated_at } => {
                LineOpView::Update {
                    line_id: *line_id,
                    content: content@,
                    vv: vv@,
                    last_writer: last_writer@,
                    updated_at: *updated_at,
                }
            },
            LineOp::Delete { line_id, deleted_at, vv, last_writer, updated_at } => {
                LineOpView::Delete {
                    line_id: *line_id,
                    deleted_at: *deleted_at,
                    vv: vv@,
                    last_writer: last_writer@,
                    updated_at: *updated_at,
                }
            },
            LineOp::Move { line_ids, after_line_id, vv, last_writer, updated_at } => {
                LineOpView::Move {
                    line_ids: line_ids@,
                    after_line_id: *after_line_id,
                    vv: vv@,
                    last_writer: last_writer@,
                    updated_at: *updated_at,
                }
            },
        }
    }
}

impl LineOp {
    pub open spec fn wf(&self) -> bool {
        match self {
            LineOp::Insert { vv, .. } => vv.wf(),
            LineOp::Update { vv, .. } => vv.wf(),
            LineOp::Delete { vv, .. } => vv.wf(),
            LineOp::Move { vv, .. } => vv.wf(),
        }
    }
}

/// Every op of the sequence is well formed.
pub open spec fn ops_wf(ops: Seq<LineOp>) -> bool {
    forall|i: int| 0 <= i < ops.len() ==> (#[trigger] ops[i]).wf()
}

/// The views of a sequence of ops.
pub open spec fn ops_view(ops: Seq<LineOp>) -> Seq<LineOpView> {
    ops.map_values(|o: LineOp| o@)
}

/// Where a cursor stands: a line and a column in it.
#[derive(Clone, Copy, Debug, PartialEq, Eq)]
pub struct Cursor {
    pub line_id: u128,
    pub column: usize,
}

} // verus!
