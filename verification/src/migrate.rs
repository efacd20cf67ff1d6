use vstd::prelude::*;

verus! {

/// How many entities of each kind a migration between two stores copied.
#[derive(Debug, Clone, Copy, PartialEq, Eq, Structural)]
pub struct MigrationReport {
    pub notebooks: usize,
    pub tags: usize,
    pub notes: usize,
    pub note_tags: usize,
    pub resources: usize,
}

impl Default for MigrationReport {
    fn default() -> (r: MigrationReport)
        ensures
            r.notebooks == 0 && r.tags == 0 && r.notes == 0 && r.note_tags == 0 && r.resources
                == 0,
    {
        MigrationReport { notebooks: 0, tags: 0, notes: 0, note_tags: 0, resources: 0 }
    }
}

} // verus!
