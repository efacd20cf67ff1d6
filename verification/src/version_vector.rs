use vstd::prelude::*;

use crate::assoc::{
    assoc_map, keys_unique, lemma_assoc_contains, lemma_assoc_finite, lemma_assoc_index,
    lemma_assoc_push_fresh, lemma_assoc_update,
};

verus! {

/// A version vector: for each device, how many edits of it have been seen.
#[derive(Debug, Clone)]
pub struct VersionVector {
    entries: Vec<(String, u64)>,
}

/// The entries of a version vector with their device names as character sequences.
pub open spec fn entry_views(s: Seq<(String, u64)>) -> Seq<(Seq<char>, u64)> {
    s.map_values(|e: (String, u64)| (e.0@, e.1))
}

/// The count of a device, zero when the vector has none.
pub open spec fn count_of(m: Map<Seq<char>, u64>, device: Seq<char>) -> u64 {
    if m.contains_key(device) {
        m[device]
    } else {
        0
    }
}

/// The join of two version vectors: every device of either, with the larger count.
pub open spec fn vv_merge(a: Map<Seq<char>, u64>, b: Map<Seq<char>, u64>) -> Map<
    Seq<char>,
    u64,
> {
    Map::new(
        |k: Seq<char>| a.contains_key(k) || b.contains_key(k),
        |k: Seq<char>|
            if b.contains_key(k) && count_of(a, k) < b[k] {
                b[k]
            } else {
                count_of(a, k)
            },
    )
}

/// A version vector with one more edit of `device`.
pub open spec fn vv_bump(m: Map<Seq<char>, u64>, device: Seq<char>) -> Map<Seq<char>, u64> {
    m.insert(device, (count_of(m, device) + 1) as u64)
}

impl View for VersionVector {
    type V = Map<Seq<char>, u64>;

    closed spec fn view(&self) -> Map<Seq<char>, u64> {
        assoc_map(entry_views(self.entries@))
    }
}

impl Default for VersionVector {
    /// The vector that has seen nothing.
    fn default() -> (r: VersionVector)
        ensures
            r.wf(),
            r@ == Map::<Seq<char>, u64>::empty(),
    {
        VersionVector::new()
    }
}

impl VersionVector {
    /// Each device occurs once.
    pub closed spec fn wf(&self) -> bool {
        keys_unique(entry_views(self.entries@))
    }

    /// The vector that has seen nothing.
    pub fn new() -> (r: VersionVector)
        ensures
            r.wf(),
            r@ == Map::<Seq<char>, u64>::empty(),
    {
        let r = VersionVector { entries: Vec::new() };
        assert(entry_views(r.entries@) =~= Seq::<(Seq<char>, u64)>::empty());
        r
    }

    /// The devices of a vector are finitely many.
    pub proof fn lemma_finite(&self)
        ensures
            self@.dom().finite(),
    {
        lemma_assoc_finite(entry_views(self.entries@));
    }

    /// Index of the entry of `device`, if there is one.
    fn find(&self, device: &String) -> (r: Option<usize>)
        requires
            self.wf(),
        ensures
            r is None <==> !self@.contains_key(device@),
            r matches Some(i) ==> i < self.entries@.len() && self.entries@[i as int].0@
                == device@ && self@[device@] == self.entries@[i as int].1,
    {
        let ghost s = entry_views(self.entries@);
        let mut i: usize = 0;
        while i < self.entries.len()
            invariant
                0 <= i <= self.entries@.len(),
                s == entry_views(self.entries@),
                keys_unique(s),
                forall|j: int| 0 <= j < i ==> #[trigger] s[j].0 != device@,
            decreases self.entries@.len() - i,
        {
            if self.entries[i].0 == *device {
                proof {
                    lemma_assoc_index(s, i as int);
                }
                return Some(i);
            }
            i = i + 1;
        }
        proof {
            lemma_assoc_contains(s, device@);
        }
        None
    }

    /// The count of `device`, if the vector has one.
    pub fn get(&self, device: &str) -> (r: Option<u64>)
        requires
            self.wf(),
        ensures
            r == (if self@.contains_key(device@) {
                Some(self@[device@])
            } else {
                None
            }),
    {
        let d = device.to_owned();
        match self.find(&d) {
            Some(i) => Some(self.entries[i].1),
            None => None,
        }
    }

    /// Number of devices.
    pub fn len(&self) -> (r: usize)
        requires
            self.wf(),
        ensures
            r == self@.len(),
    {
        proof {
            self.lemma_len();
        }
        self.entries.len()
    }

    proof fn lemma_len(&self)
        requires
            self.wf(),
        ensures
            self@.len() == self.entries@.len(),
        decreases self.entries@.len(),
    {
        let s = entry_views(self.entries@);
        lemma_assoc_len(s);
    }

    /// Sets the count of `device`.
    fn set_count(&mut self, device: &String, n: u64)
        requires
            old(self).wf(),
        ensures
            final(self).wf(),
            final(self)@ == old(self)@.insert(device@, n),
    {
        let ghost s = entry_views(self.entries@);
        match self.find(device) {
            Some(i) => {
                let d = self.entries[i].0.clone();
                self.entries.set(i, (d, n));
                proof {
                    lemma_assoc_update(s, i as int, n);
                    assert(entry_views(self.entries@) =~= s.update(i as int, (s[i as int].0, n)));
                }
            },
            None => {
                proof {
                    lemma_assoc_contains(s, device@);
                    lemma_assoc_push_fresh(s, device@, n);
                }
                self.entries.push((device.clone(), n));
                assert(entry_views(self.entries@) =~= s.push((device@, n)));
            },
        }
    }

    /// A copy of the vector.
    pub fn duplicate(&self) -> (r: VersionVector)
        requires
            self.wf(),
        ensures
            r.wf(),
            r@ == self@,
    {
        let mut entries: Vec<(String, u64)> = Vec::new();
        let mut i: usize = 0;
        while i < self.entries.len()
            invariant
                0 <= i <= self.entries@.len(),
                entry_views(entries@) == entry_views(self.entries@).take(i as int),
            decreases self.entries@.len() - i,
        {
            let d = self.entries[i].0.clone();
            let ghost before = entries@;
            entries.push((d, self.entries[i].1));
            assert(entries@ == before.push((d, self.entries@[i as int].1)));
            assert(entry_views(entries@) =~= entry_views(before).push((d@, self.entries@[i as int].1)));
            assert(entry_views(self.entries@)[i as int] == (self.entries@[i as int].0@, self.entries@[i as int].1));
            assert(entry_views(entries@) =~= entry_views(self.entries@).take(i + 1));
            i = i + 1;
        }
        assert(entry_views(self.entries@).take(i as int) =~= entry_views(self.entries@));
        VersionVector { entries }
    }
}

/// With unique keys, the map has as many keys as the list has entries.
proof fn lemma_assoc_len(s: Seq<(Seq<char>, u64)>)
    requires
        keys_unique(s),
    ensures
        assoc_map(s).len() == s.len(),
    decreases s.len(),
{
    if s.len() > 0 {
        let t = s.drop_last();
        assert(keys_unique(t)) by {
            assert forall|a: int, b: int|
                0 <= a < t.len() && 0 <= b < t.len() && a != b implies #[trigger] t[a].0
                != #[trigger] t[b].0 by {
                assert(t[a] == s[a] && t[b] == s[b]);
            }
        }
        lemma_assoc_len(t);
        lemma_assoc_finite(t);
        lemma_assoc_contains(t, s.last().0);
        if assoc_map(t).contains_key(s.last().0) {
            let i = choose|i: int| 0 <= i < t.len() && #[trigger] t[i].0 == s.last().0;
            assert(s[i].0 == s[s.len() - 1].0);
        }
    }
}

/// Raises every count of `target` to at least the count of `other`, adding the devices
/// that only `other` has.
pub fn merge_into(target: &mut VersionVector, other: &VersionVector)
    requires
        old(target).wf(),
        other.wf(),
    ensures
        final(target).wf(),
        final(target)@ == vv_merge(old(target)@, other@),
{
    let ghost a = target@;
    let ghost s = entry_views(other.entries@);
    let mut i: usize = 0;
    assert(vv_merge(a, assoc_map(s.take(0))) =~= a) by {
        assert(s.take(0) =~= Seq::<(Seq<char>, u64)>::empty());
    }
    while i < other.entries.len()
        invariant
            0 <= i <= other.entries@.len(),
            s == entry_views(other.entries@),
            keys_unique(s),
            target.wf(),
            target@ == vv_merge(a, assoc_map(s.take(i as int))),
        decreases other.entries@.len() - i,
    {
        let k = &other.entries[i].0;
        let v = other.entries[i].1;
        let cur = match target.find(k) {
            Some(j) => target.entries[j].1,
            None => 0,
        };
        let ghost b = assoc_map(s.take(i as int));
        proof {
            assert(s.take(i + 1).drop_last() =~= s.take(i as int));
            assert(s.take(i + 1).last() == s[i as int]);
            lemma_assoc_contains(s.take(i as int), k@);
            if b.contains_key(k@) {
                let j = choose|j: int| 0 <= j < i && #[trigger] s.take(i as int)[j].0 == k@;
                assert(s[j].0 == s[i as int].0);
            }
            assert(cur == count_of(a, k@));
        }
        if v > cur {
            target.set_count(k, v);
        } else {
            target.set_count(k, cur);
        }
        proof {
            assert(target@ =~= vv_merge(a, assoc_map(s.take(i + 1))));
        }
        i = i + 1;
    }
    assert(s.take(i as int) =~= s);
}

/// Counts one more edit of `device`.
pub fn bump(vv: &mut VersionVector, device: &str)
    requires
        old(vv).wf(),
        count_of(old(vv)@, device@) < u64::MAX,
    ensures
        final(vv).wf(),
        final(vv)@ == vv_bump(old(vv)@, device@),
{
    let d = device.to_owned();
    let cur = match vv.find(&d) {
        Some(j) => vv.entries[j].1,
        None => 0,
    };
    vv.set_count(&d, cur + 1);
}

/// Merging version vectors does not depend on their order.
pub proof fn lemma_merge_commutative(a: Map<Seq<char>, u64>, b: Map<Seq<char>, u64>)
    ensures
        vv_merge(a, b) == vv_merge(b, a),
{
    assert(vv_merge(a, b) =~= vv_merge(b, a));
}

/// Merging version vectors does not depend on their grouping.
pub proof fn lemma_merge_associative(
    a: Map<Seq<char>, u64>,
    b: Map<Seq<char>, u64>,
    c: Map<Seq<char>, u64>,
)
    ensures
        vv_merge(vv_merge(a, b), c) == vv_merge(a, vv_merge(b, c)),
{
    assert(vv_merge(vv_merge(a, b), c) =~= vv_merge(a, vv_merge(b, c)));
}

/// Merging a version vector with itself changes nothing.
pub proof fn lemma_merge_idempotent(a: Map<Seq<char>, u64>)
    ensures
        vv_merge(a, a) == a,
{
    assert(vv_merge(a, a) =~= a);
}

/// A merge has seen at least what each side has seen, and for each device exactly the
/// larger count.
pub proof fn lemma_merge_counts(a: Map<Seq<char>, u64>, b: Map<Seq<char>, u64>, k: Seq<char>)
    ensures
        count_of(vv_merge(a, b), k) == if count_of(a, k) < count_of(b, k) {
            count_of(b, k)
        } else {
            count_of(a, k)
        },
{
}

/// A bump counts one more edit of its device and leaves the others alone.
pub proof fn lemma_bump_counts(m: Map<Seq<char>, u64>, d: Seq<char>, k: Seq<char>)
    requires
        count_of(m, d) < u64::MAX,
    ensures
        count_of(vv_bump(m, d), k) == if k == d {
            count_of(m, d) + 1
        } else {
            count_of(m, k) as int
        },
{
}

} // verus!
