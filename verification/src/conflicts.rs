use vstd::prelude::*;

use crate::linking::{AliasConflict, AliasConflicts};
use crate::models::{Note, Notebook};
use crate::text::chars_of;

verus! {

/// Lexicographic order of texts by character: the order of `str`, since UTF-8 keeps the
/// order of code points byte by byte.
pub open spec fn text_lt(a: Seq<char>, b: Seq<char>) -> bool
    decreases a.len(),
{
    if a.len() == 0 {
        b.len() > 0
    } else if b.len() == 0 {
        false
    } else if a[0] != b[0] {
        a[0] < b[0]
    } else {
        text_lt(a.drop_first(), b.drop_first())
    }
}

/// No text comes before itself.
pub proof fn lemma_text_lt_irreflexive(a: Seq<char>)
    ensures
        !text_lt(a, a),
    decreases a.len(),
{
    if a.len() > 0 {
        lemma_text_lt_irreflexive(a.drop_first());
    }
}

/// The text order is transitive.
pub proof fn lemma_text_lt_transitive(a: Seq<char>, b: Seq<char>, c: Seq<char>)
    requires
        text_lt(a, b),
        text_lt(b, c),
    ensures
        text_lt(a, c),
    decreases a.len(),
{
    if a.len() > 0 && b.len() > 0 && c.len() > 0 && a[0] == b[0] && b[0] == c[0] {
        lemma_text_lt_transitive(a.drop_first(), b.drop_first(), c.drop_first());
    }
}

/// Of two different texts, one comes before the other.
pub proof fn lemma_text_lt_total(a: Seq<char>, b: Seq<char>)
    requires
        a != b,
    ensures
        text_lt(a, b) || text_lt(b, a),
    decreases a.len(),
{
    if a.len() == 0 {
        assert(b.len() > 0) by {
            if b.len() == 0 {
                assert(a =~= b);
            }
        }
    } else if b.len() > 0 && a[0] == b[0] {
        assert(a.drop_first() != b.drop_first()) by {
            if a.drop_first() == b.drop_first() {
                assert(a.drop_first().len() == b.drop_first().len());
                assert(a.len() == b.len());
                assert forall|k: int| 0 <= k < a.len() implies a[k] == b[k] by {
                    if k > 0 {
                        assert(a[k] == a.drop_first()[k - 1]);
                        assert(b[k] == b.drop_first()[k - 1]);
                    }
                }
                assert(a =~= b);
            }
        }
        lemma_text_lt_total(a.drop_first(), b.drop_first());
    }
}

/// Whether `a` comes before `b` when the texts are compared from position `i`, where they
/// agree before it.
proof fn lemma_text_lt_skip(a: Seq<char>, b: Seq<char>, i: int)
    requires
        0 <= i <= a.len(),
        i <= b.len(),
        a.take(i) == b.take(i),
    ensures
        text_lt(a, b) == text_lt(a.skip(i), b.skip(i)),
    decreases i,
{
    if i > 0 {
        assert(a[0] == a.take(i)[0]);
        assert(b[0] == b.take(i)[0]);
        assert(a.drop_first().take(i - 1) =~= a.take(i).drop_first());
        assert(b.drop_first().take(i - 1) =~= b.take(i).drop_first());
        lemma_text_lt_skip(a.drop_first(), b.drop_first(), i - 1);
        assert(a.drop_first().skip(i - 1) =~= a.skip(i));
        assert(b.drop_first().skip(i - 1) =~= b.skip(i));
    } else {
        assert(a.skip(0) =~= a);
        assert(b.skip(0) =~= b);
    }
}

/// Whether text `a` comes before text `b`.
pub fn text_less(a: &str, b: &str) -> (r: bool)
    ensures
        r == text_lt(a@, b@),
{
    let x = chars_of(a);
    let y = chars_of(b);
    let mut i: usize = 0;
    while i < x.len() && i < y.len()
        invariant
            x@ == a@,
            y@ == b@,
            0 <= i <= x@.len(),
            i <= y@.len(),
            x@.take(i as int) == y@.take(i as int),
        decreases x@.len() - i,
    {
        if x[i] != y[i] {
            proof {
                lemma_text_lt_skip(x@, y@, i as int);
                assert(x@.skip(i as int)[0] == x@[i as int]);
                assert(y@.skip(i as int)[0] == y@[i as int]);
            }
            return x[i] < y[i];
        }
        assert(x@.take(i as int + 1) =~= x@.take(i as int).push(x@[i as int]));
        assert(y@.take(i as int + 1) =~= y@.take(i as int).push(y@[i as int]));
        i = i + 1;
    }
    proof {
        lemma_text_lt_skip(x@, y@, i as int);
    }
    i < y.len() && i == x.len()
}

/// The order of alias keys: by alias text, then by scope.
pub open spec fn key_lt(a: (Seq<char>, u128), b: (Seq<char>, u128)) -> bool {
    text_lt(a.0, b.0) || (a.0 == b.0 && a.1 < b.1)
}

/// The key order is a strict total order.
pub proof fn lemma_key_lt_order(a: (Seq<char>, u128), b: (Seq<char>, u128), c: (Seq<char>, u128))
    ensures
        !key_lt(a, a),
        key_lt(a, b) && key_lt(b, c) ==> key_lt(a, c),
        a != b ==> key_lt(a, b) || key_lt(b, a),
        key_lt(a, b) ==> a != b,
{
    lemma_text_lt_irreflexive(a.0);
    if key_lt(a, b) && key_lt(b, c) {
        if text_lt(a.0, b.0) && text_lt(b.0, c.0) {
            lemma_text_lt_transitive(a.0, b.0, c.0);
        }
    }
    if a != b && a.0 != b.0 {
        lemma_text_lt_total(a.0, b.0);
    }
}

/// Whether key `(a, s)` comes before key `(b, t)`.
pub(crate) fn key_less(a: &String, s: u128, b: &String, t: u128) -> (r: bool)
    ensures
        r == key_lt((a@, s), (b@, t)),
{
    if text_less(a.as_str(), b.as_str()) {
        true
    } else {
        *a == *b && s < t
    }
}

/// Entities whose aliases can clash: each has an identifier and, when its alias is in
/// force, a key made of the alias and the scope in which it must be unique.
pub trait AliasKeyed: Sized {
    /// The alias and its scope, when the alias is in force.
    spec fn alias_key(&self) -> Option<(Seq<char>, u128)>;

    /// The entity's identifier.
    spec fn ident(&self) -> u128;

    /// The alias and its scope, when the alias is in force.
    fn get_alias_key(&self) -> (r: Option<(String, u128)>)
        ensures
            match r {
                Some((a, s)) => self.alias_key() == Some((a@, s)),
                None => self.alias_key() is None,
            },
    ;

    /// The entity's identifier.
    fn get_ident(&self) -> (r: u128)
        ensures
            r == self.ident(),
    ;
}

impl AliasKeyed for Note {
    /// A note's alias is unique within its notebook; notes in the Inbox have none in force.
    open spec fn alias_key(&self) -> Option<(Seq<char>, u128)> {
        if self.notebook_id == 0 {
            None
        } else {
            match self.alias {
                Some(a) => Some((a@, self.notebook_id)),
                None => None,
            }
        }
    }

    open spec fn ident(&self) -> u128 {
        self.id
    }

    fn get_alias_key(&self) -> (r: Option<(String, u128)>) {
        if self.notebook_id == 0 {
            return None;
        }
        match &self.alias {
            Some(a) => Some((a.clone(), self.notebook_id)),
            None => None,
        }
    }

    fn get_ident(&self) -> (r: u128) {
        self.id
    }
}

impl AliasKeyed for Notebook {
    /// A notebook's alias is unique among all notebooks (one scope, zero).
    open spec fn alias_key(&self) -> Option<(Seq<char>, u128)> {
        match self.alias {
            Some(a) => Some((a@, 0)),
            None => None,
        }
    }

    open spec fn ident(&self) -> u128 {
        self.id
    }

    fn get_alias_key(&self) -> (r: Option<(String, u128)>) {
        match &self.alias {
            Some(a) => Some((a.clone(), 0)),
            None => None,
        }
    }

    fn get_ident(&self) -> (r: u128) {
        self.id
    }
}

/// The items of `items` under the key `k`, in order.
pub open spec fn keyed<T: AliasKeyed>(items: Seq<T>, k: (Seq<char>, u128)) -> Seq<T>
    decreases items.len(),
{
    if items.len() == 0 {
        Seq::empty()
    } else {
        let g = keyed(items.drop_last(), k);
        if items.last().alias_key() == Some(k) {
            g.push(items.last())
        } else {
            g
        }
    }
}

/// Whether the identifiers of `s` never decrease.
pub open spec fn ids_ascending<T: AliasKeyed>(s: Seq<T>) -> bool {
    forall|i: int, j: int| 0 <= i < j < s.len() ==> s[i].ident() <= s[j].ident()
}

/// The key of a reported conflict: that of its first entity.
pub open spec fn conflict_key<T: AliasKeyed>(c: AliasConflict<T>) -> (Seq<char>, u128) {
    c.entities@[0].alias_key()->0
}

/// `r` reports the alias clashes among `items`: one conflict for each key that two or
/// more items share, in key order, holding those items ordered by identifier.
pub open spec fn reports_conflicts<T: AliasKeyed>(items: Seq<T>, r: Seq<AliasConflict<T>>) -> bool {
    &&& forall|i: int, j: int| 0 <= i < j < r.len() ==> key_lt(conflict_key(r[i]), conflict_key(r[j]))
    &&& forall|i: int| 0 <= i < r.len() ==> {
        let c = #[trigger] r[i];
        &&& c.entities@.len() >= 2
        &&& c.entities@[0].alias_key() is Some
        &&& c.alias@ == conflict_key(c).0
        &&& c.entities@.to_multiset() == keyed(items, conflict_key(c)).to_multiset()
        &&& ids_ascending(c.entities@)
    }
    &&& forall|k: (Seq<char>, u128)| #[trigger] keyed(items, k).len() >= 2 ==> exists|i: int|
        0 <= i < r.len() && conflict_key(r[i]) == k
}

/// The key of a group under construction.
pub open spec fn gk<T>(g: (String, u128, Vec<T>)) -> (Seq<char>, u128) {
    (g.0@, g.1)
}

/// `groups` gathers the items of `seen` by key: in key order, each group non-empty,
/// holding exactly the items under its key, ordered by identifier, and every key in use
/// has its group.
pub open spec fn groups_ok<T: AliasKeyed>(seen: Seq<T>, groups: Seq<(String, u128, Vec<T>)>) -> bool {
    &&& forall|a: int, b: int| 0 <= a < b < groups.len() ==> key_lt(gk(groups[a]), gk(groups[b]))
    &&& forall|a: int| 0 <= a < groups.len() ==> {
        let g = #[trigger] groups[a];
        &&& g.2@.len() > 0
        &&& forall|t: int| 0 <= t < g.2@.len() ==> (#[trigger] g.2@[t]).alias_key() == Some(gk(g))
        &&& g.2@.to_multiset() == keyed(seen, gk(g)).to_multiset()
        &&& ids_ascending(g.2@)
    }
    &&& forall|k: (Seq<char>, u128)| #[trigger] keyed(seen, k).len() > 0 ==> exists|a: int|
        0 <= a < groups.len() && gk(groups[a]) == k
}

/// Adding an item changes only the group of its own key.
proof fn lemma_keyed_push<T: AliasKeyed>(seen: Seq<T>, x: T, k: (Seq<char>, u128))
    ensures
        keyed(seen.push(x), k) == if x.alias_key() == Some(k) {
            keyed(seen, k).push(x)
        } else {
            keyed(seen, k)
        },
{
    assert(seen.push(x).drop_last() =~= seen);
}

/// An item without a key in force leaves the groups as they are.
proof fn lemma_groups_skip<T: AliasKeyed>(seen: Seq<T>, x: T, groups: Seq<(String, u128, Vec<T>)>)
    requires
        groups_ok(seen, groups),
        x.alias_key() is None,
    ensures
        groups_ok(seen.push(x), groups),
{
    let seen2 = seen.push(x);
    assert forall|a: int| 0 <= a < groups.len() implies keyed(seen2, gk(#[trigger] groups[a])) == keyed(seen, gk(groups[a])) by {
        lemma_keyed_push(seen, x, gk(groups[a]));
    }
    assert forall|kk: (Seq<char>, u128)| #[trigger] keyed(seen2, kk).len() > 0 implies exists|a: int|
        0 <= a < groups.len() && gk(groups[a]) == kk by {
        lemma_keyed_push(seen, x, kk);
    }
}

/// Inserting `x` after the items whose identifiers do not exceed its own keeps a sequence
/// ordered by identifier.
proof fn lemma_insert_ascending<T: AliasKeyed>(s: Seq<T>, q: int, x: T)
    requires
        ids_ascending(s),
        0 <= q <= s.len(),
        forall|t: int| 0 <= t < q ==> (#[trigger] s[t]).ident() <= x.ident(),
        q < s.len() ==> s[q].ident() > x.ident(),
    ensures
        ids_ascending(s.insert(q, x)),
{
    let r = s.insert(q, x);
    assert forall|i: int, j: int| 0 <= i < j < r.len() implies r[i].ident() <= r[j].ident() by {
        if j < q {
        } else if j == q {
            assert(r[i] == s[i]);
        } else if i < q {
            assert(r[j] == s[j - 1]);
            assert(s[i].ident() <= s[j - 1].ident());
        } else if i == q {
            assert(r[j] == s[j - 1]);
            assert(s[q].ident() <= s[j - 1].ident());
        } else {
            assert(r[i] == s[i - 1]);
            assert(r[j] == s[j - 1]);
        }
    }
}

/// An item whose key has a group joins that group.
proof fn lemma_groups_join<T: AliasKeyed>(
    seen: Seq<T>,
    x: T,
    groups: Seq<(String, u128, Vec<T>)>,
    p: int,
    g2: (String, u128, Vec<T>),
    q: int,
)
    requires
        groups_ok(seen, groups),
        0 <= p < groups.len(),
        x.alias_key() == Some(gk(groups[p])),
        g2.0 == groups[p].0,
        g2.1 == groups[p].1,
        0 <= q <= groups[p].2@.len(),
        g2.2@ == groups[p].2@.insert(q, x),
        forall|t: int| 0 <= t < q ==> (#[trigger] groups[p].2@[t]).ident() <= x.ident(),
        q < groups[p].2@.len() ==> groups[p].2@[q].ident() > x.ident(),
    ensures
        groups_ok(seen.push(x), groups.update(p, g2)),
{
    let seen2 = seen.push(x);
    let g = groups.update(p, g2);
    let k = gk(groups[p]);
    lemma_keyed_push(seen, x, k);
    let old_mem = groups[p].2@;
    lemma_insert_ascending(old_mem, q, x);
    assert(g2.2@.to_multiset() == keyed(seen2, k).to_multiset()) by {
        vstd::seq_lib::to_multiset_insert(old_mem, q, x);
        vstd::seq_lib::to_multiset_build(keyed(seen, k), x);
    }
    assert forall|t: int| 0 <= t < g2.2@.len() implies (#[trigger] g2.2@[t]).alias_key() == Some(gk(g2)) by {
        if t < q {
            assert(g2.2@[t] == old_mem[t]);
        } else if t > q {
            assert(g2.2@[t] == old_mem[t - 1]);
        }
    }
    assert forall|a: int| 0 <= a < g.len() && a != p implies keyed(seen2, gk(#[trigger] g[a])) == keyed(seen, gk(g[a])) by {
        lemma_keyed_push(seen, x, gk(g[a]));
        lemma_key_lt_order(gk(groups[a]), k, k);
        if a < p {
            assert(key_lt(gk(groups[a]), gk(groups[p])));
        } else {
            assert(key_lt(gk(groups[p]), gk(groups[a])));
            lemma_key_lt_order(k, gk(groups[a]), k);
        }
    }
    assert forall|kk: (Seq<char>, u128)| #[trigger] keyed(seen2, kk).len() > 0 implies exists|a: int|
        0 <= a < g.len() && gk(g[a]) == kk by {
        lemma_keyed_push(seen, x, kk);
        if kk == k {
            assert(gk(g[p]) == kk);
        } else {
            assert(keyed(seen, kk).len() > 0);
            let a = choose|a: int| 0 <= a < groups.len() && gk(groups[a]) == kk;
            assert(gk(g[a]) == kk);
        }
    }
}

/// An item whose key has no group starts one, placed in key order.
proof fn lemma_groups_new<T: AliasKeyed>(
    seen: Seq<T>,
    x: T,
    groups: Seq<(String, u128, Vec<T>)>,
    p: int,
    g2: (String, u128, Vec<T>),
)
    requires
        groups_ok(seen, groups),
        0 <= p <= groups.len(),
        x.alias_key() == Some(gk(g2)),
        forall|u: int| 0 <= u < p ==> key_lt(gk(#[trigger] groups[u]), gk(g2)),
        p < groups.len() ==> key_lt(gk(g2), gk(groups[p])),
        g2.2@ == seq![x],
    ensures
        groups_ok(seen.push(x), groups.insert(p, g2)),
{
    let seen2 = seen.push(x);
    let g = groups.insert(p, g2);
    let k = gk(g2);
    assert forall|a: int| 0 <= a < groups.len() implies gk(#[trigger] groups[a]) != k by {
        lemma_key_lt_order(gk(groups[a]), k, k);
        if a > p {
            assert(key_lt(gk(groups[p]), gk(groups[a])));
            lemma_key_lt_order(k, gk(groups[p]), gk(groups[a]));
            lemma_key_lt_order(k, gk(groups[a]), k);
        } else if a == p {
            lemma_key_lt_order(k, gk(groups[a]), k);
        }
    }
    assert(keyed(seen, k).len() == 0) by {
        if keyed(seen, k).len() > 0 {
            let a = choose|a: int| 0 <= a < groups.len() && gk(groups[a]) == k;
            assert(gk(groups[a]) != k);
        }
    }
    lemma_keyed_push(seen, x, k);
    assert(keyed(seen, k) =~= Seq::<T>::empty());
    assert(keyed(seen2, k) =~= seq![x]);
    assert forall|a: int, b: int| 0 <= a < b < g.len() implies key_lt(gk(g[a]), gk(g[b])) by {
        if b < p {
        } else if b == p {
            assert(g[a] == groups[a]);
        } else if a < p {
            assert(g[b] == groups[b - 1]);
            assert(key_lt(gk(groups[a]), k));
            if b - 1 > p {
                assert(key_lt(gk(groups[p]), gk(groups[b - 1])));
                lemma_key_lt_order(k, gk(groups[p]), gk(groups[b - 1]));
            }
            lemma_key_lt_order(gk(groups[a]), k, gk(groups[b - 1]));
        } else if a == p {
            assert(g[b] == groups[b - 1]);
            if b - 1 > p {
                assert(key_lt(gk(groups[p]), gk(groups[b - 1])));
                lemma_key_lt_order(k, gk(groups[p]), gk(groups[b - 1]));
            }
        } else {
            assert(g[a] == groups[a - 1]);
            assert(g[b] == groups[b - 1]);
        }
    }
    assert forall|a: int| 0 <= a < g.len() && a != p implies keyed(seen2, gk(#[trigger] g[a])) == keyed(seen, gk(g[a])) by {
        let o = if a < p { a } else { a - 1 };
        assert(g[a] == groups[o]);
        lemma_keyed_push(seen, x, gk(g[a]));
    }
    assert forall|a: int| 0 <= a < g.len() implies {
        let h = #[trigger] g[a];
        &&& h.2@.len() > 0
        &&& forall|t: int| 0 <= t < h.2@.len() ==> (#[trigger] h.2@[t]).alias_key() == Some(gk(h))
        &&& h.2@.to_multiset() == keyed(seen2, gk(h)).to_multiset()
        &&& ids_ascending(h.2@)
    } by {
        if a != p {
            let o = if a < p { a } else { a - 1 };
            assert(g[a] == groups[o]);
        } else {
            assert(g[a] == g2);
        }
    }
    assert forall|kk: (Seq<char>, u128)| #[trigger] keyed(seen2, kk).len() > 0 implies exists|a: int|
        0 <= a < g.len() && gk(g[a]) == kk by {
        lemma_keyed_push(seen, x, kk);
        if kk == k {
            assert(gk(g[p]) == kk);
        } else {
            assert(keyed(seen, kk).len() > 0);
            let a = choose|a: int| 0 <= a < groups.len() && gk(groups[a]) == kk;
            if a < p {
                assert(g[a] == groups[a]);
            } else {
                assert(g[a + 1] == groups[a]);
            }
        }
    }
}

/// The conflict that a group reports.
pub open spec fn group_conflict<T>(g: (String, u128, Vec<T>)) -> AliasConflict<T> {
    AliasConflict { alias: g.0, entities: g.2 }
}

/// Reports the aliases that two or more entities share under one key, in key order, each
/// with its entities ordered by identifier.
pub fn group_conflicts<T: AliasKeyed>(items: Vec<T>) -> (r: Vec<AliasConflict<T>>)
    ensures
        reports_conflicts(items@, r@),
{
    let ghost all = items@;
    let n = items.len();
    let mut rest = items;
    let mut groups: Vec<(String, u128, Vec<T>)> = Vec::new();
    let mut i: usize = 0;
    proof {
        assert(all.take(0) =~= Seq::<T>::empty());
        assert forall|k: (Seq<char>, u128)| #[trigger] keyed(all.take(0), k).len() == 0 by {}
    }
    while rest.len() > 0
        invariant
            i + rest@.len() == all.len(),
            all.len() == n,
            rest@ == all.skip(i as int),
            groups_ok(all.take(i as int), groups@),
        decreases rest@.len(),
    {
        let x = rest.remove(0);
        let ghost seen = all.take(i as int);
        proof {
            assert(x == all[i as int]);
            assert(all.take(i as int + 1) =~= seen.push(x));
            assert(rest@ =~= all.skip(i as int + 1));
        }
        match x.get_alias_key() {
            None => {
                proof {
                    lemma_groups_skip(seen, x, groups@);
                }
            },
            Some((a, s)) => {
                let ghost k = (a@, s);
                let mut p: usize = 0;
                let mut stop = false;
                while !stop && p < groups.len()
                    invariant
                        0 <= p <= groups@.len(),
                        forall|u: int| 0 <= u < p ==> key_lt(gk(#[trigger] groups@[u]), k),
                        stop ==> p < groups@.len() && !key_lt(gk(groups@[p as int]), k),
                        k == (a@, s),
                    decreases groups@.len() - p + (if stop { 0int } else { 1int }),
                {
                    if key_less(&groups[p].0, groups[p].1, &a, s) {
                        p = p + 1;
                    } else {
                        stop = true;
                    }
                }
                if p < groups.len() && groups[p].0 == a && groups[p].1 == s {
                    let ghost old_groups = groups@;
                    let (ga, gs, mut mem) = groups.remove(p);
                    let xid = x.get_ident();
                    let mut q: usize = 0;
                    let mut stop2 = false;
                    while !stop2 && q < mem.len()
                        invariant
                            0 <= q <= mem@.len(),
                            forall|t: int| 0 <= t < q ==> (#[trigger] mem@[t]).ident() <= xid,
                            stop2 ==> q < mem@.len() && mem@[q as int].ident() > xid,
                        decreases mem@.len() - q + (if stop2 { 0int } else { 1int }),
                    {
                        if mem[q].get_ident() <= xid {
                            q = q + 1;
                        } else {
                            stop2 = true;
                        }
                    }
                    let ghost old_mem = mem@;
                    mem.insert(q, x);
                    let g2 = (ga, gs, mem);
                    proof {
                        lemma_groups_join(seen, x, old_groups, p as int, g2, q as int);
                    }
                    groups.insert(p, g2);
                    proof {
                        assert(groups@ =~= old_groups.update(p as int, g2));
                    }
                } else {
                    proof {
                        if p < groups@.len() {
                            lemma_key_lt_order(gk(groups@[p as int]), k, k);
                        }
                    }
                    let mut v: Vec<T> = Vec::new();
                    v.push(x);
                    let g2 = (a, s, v);
                    proof {
                        assert(g2.2@ =~= seq![x]);
                        lemma_groups_new(seen, x, groups@, p as int, g2);
                    }
                    groups.insert(p, g2);
                }
            },
        }
        i = i + 1;
    }
    proof {
        assert(all.take(i as int) =~= all);
    }
    let ghost g0 = groups@;
    let ghost mut idx: Seq<int> = Seq::empty();
    let mut out: Vec<AliasConflict<T>> = Vec::new();
    let mut j: usize = 0;
    let m = groups.len();
    while groups.len() > 0
        invariant
            groups_ok(all, g0),
            j + groups@.len() == g0.len(),
            g0.len() == m,
            groups@ == g0.skip(j as int),
            drawn_from(out@, g0, j as int, idx),
        decreases groups@.len(),
    {
        let g = groups.remove(0);
        proof {
            assert(g == g0[j as int]);
            assert(groups@ =~= g0.skip(j as int + 1));
        }
        if g.2.len() >= 2 {
            let (ga, _gs, mem) = g;
            out.push(AliasConflict { alias: ga, entities: mem });
            proof {
                lemma_drawn_take(out@.drop_last(), g0, j as int, idx);
                assert(out@ =~= out@.drop_last().push(group_conflict(g0[j as int])));
                idx = idx.push(j as int);
            }
        } else {
            proof {
                lemma_drawn_skip(out@, g0, j as int, idx);
            }
        }
        j = j + 1;
    }
    proof {
        lemma_report(all, g0, out@, idx);
    }
    out
}

/// `out` holds, in order, the conflicts of the groups among the first `j` of `g0` that
/// have two or more members; `idx` gives the group of each.
pub open spec fn drawn_from<T>(out: Seq<AliasConflict<T>>, g0: Seq<(String, u128, Vec<T>)>, j: int, idx: Seq<int>) -> bool {
    &&& idx.len() == out.len()
    &&& forall|i: int| 0 <= i < out.len() ==> {
        &&& 0 <= #[trigger] idx[i] < j
        &&& out[i] == group_conflict(g0[idx[i]])
        &&& g0[idx[i]].2@.len() >= 2
    }
    &&& forall|i1: int, i2: int| 0 <= i1 < i2 < idx.len() ==> idx[i1] < idx[i2]
    &&& forall|a: int| 0 <= a < j && (#[trigger] g0[a]).2@.len() >= 2 ==> exists|i: int| 0 <= i < idx.len() && idx[i] == a
}

/// Taking a group of two or more members adds its conflict.
proof fn lemma_drawn_take<T>(out: Seq<AliasConflict<T>>, g0: Seq<(String, u128, Vec<T>)>, j: int, idx: Seq<int>)
    requires
        drawn_from(out, g0, j, idx),
        0 <= j < g0.len(),
        g0[j].2@.len() >= 2,
    ensures
        drawn_from(out.push(group_conflict(g0[j])), g0, j + 1, idx.push(j)),
{
    let o2 = out.push(group_conflict(g0[j]));
    let i2 = idx.push(j);
    assert forall|i: int| 0 <= i < o2.len() implies {
        &&& 0 <= #[trigger] i2[i] < j + 1
        &&& o2[i] == group_conflict(g0[i2[i]])
        &&& g0[i2[i]].2@.len() >= 2
    } by {
        if i < out.len() {
            assert(i2[i] == idx[i]);
            assert(o2[i] == out[i]);
        }
    }
    assert forall|a: int| 0 <= a < j + 1 && (#[trigger] g0[a]).2@.len() >= 2 implies exists|i: int| 0 <= i < i2.len() && i2[i] == a by {
        if a < j {
            let i = choose|i: int| 0 <= i < idx.len() && idx[i] == a;
            assert(i2[i] == a);
        } else {
            assert(i2[idx.len() as int] == a);
        }
    }
}

/// Passing over a group of fewer than two members adds nothing.
proof fn lemma_drawn_skip<T>(out: Seq<AliasConflict<T>>, g0: Seq<(String, u128, Vec<T>)>, j: int, idx: Seq<int>)
    requires
        drawn_from(out, g0, j, idx),
        0 <= j < g0.len(),
        g0[j].2@.len() < 2,
    ensures
        drawn_from(out, g0, j + 1, idx),
{
}

/// Conflicts drawn, in order, from the groups with two or more members report the clashes.
proof fn lemma_report<T: AliasKeyed>(all: Seq<T>, g0: Seq<(String, u128, Vec<T>)>, out: Seq<AliasConflict<T>>, idx: Seq<int>)
    requires
        groups_ok(all, g0),
        drawn_from(out, g0, g0.len() as int, idx),
    ensures
        reports_conflicts(all, out),
{
    assert forall|a: int| 0 <= a < g0.len() implies conflict_key(group_conflict(#[trigger] g0[a])) == gk(g0[a]) by {
        assert(g0[a].2@[0].alias_key() == Some(gk(g0[a])));
    }
    assert forall|i1: int, i2: int| 0 <= i1 < i2 < out.len() implies key_lt(conflict_key(out[i1]), conflict_key(out[i2])) by {
        assert(conflict_key(group_conflict(g0[idx[i1]])) == gk(g0[idx[i1]]));
        assert(conflict_key(group_conflict(g0[idx[i2]])) == gk(g0[idx[i2]]));
    }
    assert forall|i1: int| 0 <= i1 < out.len() implies {
        let c = #[trigger] out[i1];
        &&& c.entities@.len() >= 2
        &&& c.entities@[0].alias_key() is Some
        &&& c.alias@ == conflict_key(c).0
        &&& c.entities@.to_multiset() == keyed(all, conflict_key(c)).to_multiset()
        &&& ids_ascending(c.entities@)
    } by {
        let a = idx[i1];
        assert(conflict_key(group_conflict(g0[a])) == gk(g0[a]));
        assert(g0[a].2@[0].alias_key() == Some(gk(g0[a])));
    }
    assert forall|k: (Seq<char>, u128)| #[trigger] keyed(all, k).len() >= 2 implies exists|i1: int|
        0 <= i1 < out.len() && conflict_key(out[i1]) == k by {
        let a = choose|a: int| 0 <= a < g0.len() && gk(g0[a]) == k;
        vstd::seq_lib::to_multiset_len(g0[a].2@);
        vstd::seq_lib::to_multiset_len(keyed(all, k));
        assert(g0[a].2@.len() >= 2);
        let i1 = choose|i: int| 0 <= i < idx.len() && idx[i] == a;
        assert(conflict_key(group_conflict(g0[a])) == gk(g0[a]));
        assert(out[i1] == group_conflict(g0[a]));
    }
}

/// The alias clashes among notes: notes outside the Inbox that share an alias within
/// one notebook.
pub fn group_note_conflicts(notes: Vec<Note>) -> (r: Vec<AliasConflict<Note>>)
    ensures
        reports_conflicts(notes@, r@),
{
    group_conflicts(notes)
}

/// The alias clashes among the notes and among the notebooks.
pub fn find_alias_conflicts(notes: Vec<Note>, notebooks: Vec<Notebook>) -> (r: AliasConflicts)
    ensures
        reports_conflicts(notes@, r.notes@),
        reports_conflicts(notebooks@, r.notebooks@),
{
    AliasConflicts { notes: group_note_conflicts(notes), notebooks: group_conflicts(notebooks) }
}

} // verus!
