use vstd::prelude::*;

use crate::collab::protocol::{LineOpView, LineView};
use crate::collab::state::{
    alive, anchor_pos, apply_all, contents, d_anchor, d_ids, d_new_mid, d_old, d_old_mid,
    d_paired, d_prefix, d_suffix, delete_ops, diff_ops, first_index, fresh_ids, insert_count,
    insert_ops, live_ids, new_lines, order_distinct, prefix_match, shown, spec_apply,
    suffix_match, update_ops, without_ids, NoteLinesView,
};

verus! {

/// Applying one more op applies it to the result of the others.
pub proof fn lemma_apply_all_push(v: NoteLinesView, a: Seq<LineOpView>, x: LineOpView)
    ensures
        apply_all(v, a.push(x)) == spec_apply(apply_all(v, a), x),
{
    assert(a.push(x).drop_last() =~= a);
}

/// Applying two runs of ops is applying the second to the result of the first.
pub proof fn lemma_apply_all_append(v: NoteLinesView, a: Seq<LineOpView>, b: Seq<LineOpView>)
    ensures
        apply_all(v, a + b) == apply_all(apply_all(v, a), b),
    decreases b.len(),
{
    if b.len() == 0 {
        assert(a + b =~= a);
    } else {
        lemma_apply_all_append(v, a, b.drop_last());
        assert((a + b).drop_last() =~= a + b.drop_last());
        assert((a + b).last() == b.last());
    }
}

/// The shown ids of two runs of the order are those of each, one after the other.
pub proof fn lemma_live_append(o1: Seq<u128>, o2: Seq<u128>, l: Map<u128, LineView>)
    ensures
        live_ids(o1 + o2, l) == live_ids(o1, l) + live_ids(o2, l),
    decreases o2.len(),
{
    if o2.len() == 0 {
        assert(o1 + o2 =~= o1);
        assert(live_ids(o1, l) + live_ids(o2, l) =~= live_ids(o1, l));
    } else {
        lemma_live_append(o1, o2.drop_last(), l);
        assert((o1 + o2).drop_last() =~= o1 + o2.drop_last());
        assert((o1 + o2).last() == o2.last());
        if alive(l, o2.last()) {
            assert(live_ids(o1, l) + live_ids(o2, l) =~= (live_ids(o1, l) + live_ids(
                o2.drop_last(),
                l,
            )).push(o2.last()));
        }
    }
}

/// Two maps that agree on which ids of the order are alive show the same ids.
pub proof fn lemma_live_agree(o: Seq<u128>, l1: Map<u128, LineView>, l2: Map<u128, LineView>)
    requires
        forall|k: int| 0 <= k < o.len() ==> alive(l1, #[trigger] o[k]) == alive(l2, o[k]),
    ensures
        live_ids(o, l1) == live_ids(o, l2),
    decreases o.len(),
{
    if o.len() > 0 {
        assert(alive(l1, o[o.len() - 1]) == alive(l2, o[o.len() - 1]));
        lemma_live_agree(o.drop_last(), l1, l2);
    }
}

/// Every shown id is an id of the order.
pub proof fn lemma_live_subset(o: Seq<u128>, l: Map<u128, LineView>)
    ensures
        forall|k: int| 0 <= k < live_ids(o, l).len() ==> o.contains(#[trigger] live_ids(o, l)[k]),
        live_ids(o, l).len() <= o.len(),
    decreases o.len(),
{
    if o.len() > 0 {
        let t = o.drop_last();
        lemma_live_subset(t, l);
        assert forall|k: int| 0 <= k < live_ids(o, l).len() implies o.contains(
            #[trigger] live_ids(o, l)[k],
        ) by {
            if k < live_ids(t, l).len() {
                assert(live_ids(o, l)[k] == live_ids(t, l)[k]);
                let j = choose|j: int| 0 <= j < t.len() && t[j] == live_ids(t, l)[k];
                assert(o[j] == t[j]);
            } else {
                assert(o[o.len() - 1] == live_ids(o, l)[k]);
            }
        }
    }
}

/// The shown ids of an order without repeats have no repeats.
pub proof fn lemma_live_distinct(o: Seq<u128>, l: Map<u128, LineView>)
    requires
        order_distinct(o),
    ensures
        order_distinct(live_ids(o, l)),
    decreases o.len(),
{
    if o.len() > 0 {
        let t = o.drop_last();
        assert(order_distinct(t)) by {
            assert forall|i: int, j: int| 0 <= i < j < t.len() implies t[i] != t[j] by {
                assert(t[i] == o[i] && t[j] == o[j]);
            }
        }
        lemma_live_distinct(t, l);
        lemma_live_subset(t, l);
        let x = o.last();
        if alive(l, x) {
            let s = live_ids(o, l);
            assert forall|i: int, j: int| 0 <= i < j < s.len() implies s[i] != s[j] by {
                if j == s.len() - 1 {
                    assert(s[i] == live_ids(t, l)[i]);
                    assert(t.contains(live_ids(t, l)[i]));
                    let m = choose|m: int| 0 <= m < t.len() && t[m] == live_ids(t, l)[i];
                    assert(o[m] == t[m]);
                    assert(o[m] != o[o.len() - 1]);
                } else {
                    assert(s[i] == live_ids(t, l)[i] && s[j] == live_ids(t, l)[j]);
                }
            }
        }
    }
}

/// When every id of the order is alive, all are shown.
pub proof fn lemma_live_all(o: Seq<u128>, l: Map<u128, LineView>)
    requires
        forall|k: int| 0 <= k < o.len() ==> alive(l, #[trigger] o[k]),
    ensures
        live_ids(o, l) == o,
    decreases o.len(),
{
    if o.len() > 0 {
        assert(alive(l, o[o.len() - 1]));
        lemma_live_all(o.drop_last(), l);
        assert(o.drop_last().push(o.last()) =~= o);
    } else {
        assert(o =~= Seq::<u128>::empty());
    }
}

/// Removing ids from two runs removes them from each.
pub proof fn lemma_without_append(a: Seq<u128>, b: Seq<u128>, k: Seq<u128>)
    ensures
        without_ids(a + b, k) == without_ids(a, k) + without_ids(b, k),
    decreases b.len(),
{
    if b.len() == 0 {
        assert(a + b =~= a);
        assert(without_ids(a, k) + without_ids(b, k) =~= without_ids(a, k));
    } else {
        lemma_without_append(a, b.drop_last(), k);
        assert((a + b).drop_last() =~= a + b.drop_last());
        assert((a + b).last() == b.last());
        if !k.contains(b.last()) {
            assert(without_ids(a, k) + without_ids(b, k) =~= (without_ids(a, k) + without_ids(
                b.drop_last(),
                k,
            )).push(b.last()));
        }
    }
}

/// Removing ids that are all removed leaves nothing; removing ids that none are leaves
/// all.
pub proof fn lemma_without_all_or_none(a: Seq<u128>, k: Seq<u128>)
    ensures
        (forall|i: int| 0 <= i < a.len() ==> k.contains(#[trigger] a[i])) ==> without_ids(a, k)
            == Seq::<u128>::empty(),
        (forall|i: int| 0 <= i < a.len() ==> !k.contains(#[trigger] a[i])) ==> without_ids(a, k)
            == a,
    decreases a.len(),
{
    if a.len() > 0 {
        let t = a.drop_last();
        lemma_without_all_or_none(t, k);
        if forall|i: int| 0 <= i < a.len() ==> k.contains(#[trigger] a[i]) {
            assert(k.contains(a[a.len() - 1]));
            assert forall|i: int| 0 <= i < t.len() implies k.contains(#[trigger] t[i]) by {
                assert(t[i] == a[i]);
            }
        }
        if forall|i: int| 0 <= i < a.len() ==> !k.contains(#[trigger] a[i]) {
            assert(!k.contains(a[a.len() - 1]));
            assert forall|i: int| 0 <= i < t.len() implies !k.contains(#[trigger] t[i]) by {
                assert(t[i] == a[i]);
            }
            assert(t.push(a.last()) =~= a);
        }
    } else {
        assert(a =~= Seq::<u128>::empty());
    }
}

/// Killing the ids of `k` in the map shows the ids shown before, without those of `k`.
pub proof fn lemma_live_kill(
    o: Seq<u128>,
    l1: Map<u128, LineView>,
    l2: Map<u128, LineView>,
    k: Seq<u128>,
)
    requires
        forall|i: int|
            0 <= i < o.len() ==> alive(l2, #[trigger] o[i]) == (alive(l1, o[i]) && !k.contains(
                o[i],
            )),
    ensures
        live_ids(o, l2) == without_ids(live_ids(o, l1), k),
    decreases o.len(),
{
    if o.len() > 0 {
        let t = o.drop_last();
        assert forall|i: int| 0 <= i < t.len() implies alive(l2, #[trigger] t[i]) == (alive(l1, t[i])
            && !k.contains(t[i])) by {
            assert(t[i] == o[i]);
        }
        lemma_live_kill(t, l1, l2, k);
        let x = o.last();
        assert(alive(l2, o[o.len() - 1]) == (alive(l1, o[o.len() - 1]) && !k.contains(
            o[o.len() - 1],
        )));
        if alive(l1, x) {
            assert(live_ids(o, l1).drop_last() =~= live_ids(t, l1));
            assert(live_ids(o, l1).last() == x);
        }
    } else {
        assert(without_ids(Seq::<u128>::empty(), k) =~= Seq::<u128>::empty());
    }
}

/// The first occurrence of an id that occurs at `i` and not before.
pub proof fn lemma_first_index_of(s: Seq<u128>, x: u128, i: int)
    requires
        0 <= i < s.len(),
        s[i] == x,
        forall|j: int| 0 <= j < i ==> s[j] != x,
    ensures
        first_index(s, x) == i,
    decreases i,
{
    if i > 0 {
        let t = s.skip(1);
        assert(t[i - 1] == s[i]);
        assert forall|j: int| 0 <= j < i - 1 implies t[j] != x by {
            assert(t[j] == s[j + 1]);
        }
        lemma_first_index_of(t, x, i - 1);
    }
}

/// The shown ids of the order up to the first occurrence of the `c`-th shown id are the
/// first `c` shown ids.
pub proof fn lemma_live_split(o: Seq<u128>, l: Map<u128, LineView>, c: int)
    requires
        order_distinct(o),
        1 <= c <= live_ids(o, l).len(),
    ensures
        first_index(o, live_ids(o, l)[c - 1]) < o.len(),
        live_ids(o.take(first_index(o, live_ids(o, l)[c - 1]) + 1), l) == live_ids(o, l).take(c),
        live_ids(o.skip(first_index(o, live_ids(o, l)[c - 1]) + 1), l) == live_ids(o, l).skip(c),
{
    let ids = live_ids(o, l);
    let x = ids[c - 1];
    lemma_live_subset(o, l);
    assert(o.contains(x));
    let m = choose|m: int| 0 <= m < o.len() && o[m] == x;
    assert forall|j: int| 0 <= j < m implies o[j] != x by {}
    lemma_first_index_of(o, x, m);
    let a = o.take(m + 1);
    let b = o.skip(m + 1);
    assert(a + b =~= o);
    lemma_live_append(a, b, l);
    lemma_live_alive_of(o, l, c - 1);
    assert(a.drop_last() =~= o.take(m));
    assert(a.last() == x);
    let la = live_ids(a, l);
    assert(la.last() == x);
    lemma_live_distinct(o, l);
    assert(ids[la.len() - 1] == la[la.len() - 1]);
    assert(la.len() == c);
    assert(la =~= ids.take(c));
    assert(live_ids(b, l) =~= ids.skip(c));
}

/// Every shown id is alive.
pub proof fn lemma_live_alive_of(o: Seq<u128>, l: Map<u128, LineView>, k: int)
    requires
        0 <= k < live_ids(o, l).len(),
    ensures
        alive(l, live_ids(o, l)[k]),
    decreases o.len(),
{
    if o.len() > 0 {
        let t = o.drop_last();
        if k < live_ids(t, l).len() {
            lemma_live_alive_of(t, l, k);
            if alive(l, o.last()) {
                assert(live_ids(o, l)[k] == live_ids(t, l)[k]);
            }
        }
    }
}

/// The `k`-th text from the end.
pub open spec fn from_end(a: Seq<Seq<char>>, k: int) -> Seq<char> {
    a[a.len() - 1 - k]
}

/// The texts before index `prefix_match(a, b, i)` agree, and it lies within both.
pub proof fn lemma_prefix_match(a: Seq<Seq<char>>, b: Seq<Seq<char>>, i: nat)
    requires
        i <= a.len(),
        i <= b.len(),
        forall|k: int| 0 <= k < i ==> a[k] == b[k],
    ensures
        i <= prefix_match(a, b, i) <= a.len(),
        prefix_match(a, b, i) <= b.len(),
        forall|k: int| 0 <= k < prefix_match(a, b, i) ==> a[k] == b[k],
    decreases a.len() - i,
{
    if i < a.len() && i < b.len() && a[i as int] == b[i as int] {
        lemma_prefix_match(a, b, i + 1);
    }
}

/// The last `suffix_match(a, b, p, s)` texts agree, and they do not reach into the
/// first `p`.
pub proof fn lemma_suffix_match(a: Seq<Seq<char>>, b: Seq<Seq<char>>, p: nat, s: nat)
    requires
        p + s <= a.len(),
        p + s <= b.len(),
        forall|k: int| 0 <= k < s ==> #[trigger] from_end(a, k) == from_end(b, k),
    ensures
        s <= suffix_match(a, b, p, s),
        p + suffix_match(a, b, p, s) <= a.len(),
        p + suffix_match(a, b, p, s) <= b.len(),
        forall|k: int|
            0 <= k < suffix_match(a, b, p, s) ==> #[trigger] from_end(a, k) == from_end(b, k),
    decreases a.len() - p - s,
{
    if p + s < a.len() && p + s < b.len() && a[a.len() - 1 - s] == b[b.len() - 1 - s] {
        lemma_suffix_match(a, b, p, s + 1);
    }
}

/// What an edit works with: the kept lines agree with the new texts, the middle runs
/// lie between them, and the shown ids are alive and, for an order without repeats,
/// distinct.
pub proof fn lemma_diff_facts(o: NoteLinesView, body: Seq<char>)
    ensures
        d_prefix(o, body) + d_suffix(o, body) <= d_ids(o).len(),
        d_prefix(o, body) + d_suffix(o, body) <= new_lines(body).len(),
        d_old(o).len() == d_ids(o).len(),
        forall|k: int| 0 <= k < d_prefix(o, body) ==> d_old(o)[k] == new_lines(body)[k],
        forall|k: int|
            0 <= k < d_suffix(o, body) ==> #[trigger] from_end(d_old(o), k) == from_end(
                new_lines(body),
                k,
            ),
        d_old_mid(o, body).len() == d_ids(o).len() - d_prefix(o, body) - d_suffix(o, body),
        d_new_mid(o, body).len() == new_lines(body).len() - d_prefix(o, body) - d_suffix(
            o,
            body,
        ),
        forall|j: int|
            0 <= j < d_old_mid(o, body).len() ==> #[trigger] d_old_mid(o, body)[j] == d_ids(o)[d_prefix(
                o,
                body,
            ) + j],
        forall|j: int|
            0 <= j < d_new_mid(o, body).len() ==> #[trigger] d_new_mid(o, body)[j] == new_lines(
                body,
            )[d_prefix(o, body) + j],
        forall|k: int| 0 <= k < d_ids(o).len() ==> alive(o.lines, #[trigger] d_ids(o)[k]),
        order_distinct(o.order) ==> order_distinct(d_ids(o)),
        d_paired(o, body) <= d_old_mid(o, body).len(),
        d_paired(o, body) <= d_new_mid(o, body).len(),
{
    let a = d_old(o);
    let b = new_lines(body);
    lemma_prefix_match(a, b, 0);
    lemma_suffix_match(a, b, d_prefix(o, body), 0);
    assert forall|k: int| 0 <= k < d_ids(o).len() implies alive(o.lines, #[trigger] d_ids(o)[k]) by {
        lemma_live_alive_of(o.order, o.lines, k);
    }
    if order_distinct(o.order) {
        lemma_live_distinct(o.order, o.lines);
    }
}

/// The updates of an edit, for the first `m` paired lines, make each of those lines
/// alive with its new text and leave every other line as it was.
pub proof fn lemma_updates(o: NoteLinesView, body: Seq<char>, device: Seq<char>, t: i128, m: nat)
    requires
        order_distinct(o.order),
        m <= d_paired(o, body),
    ensures
        apply_all(o, update_ops(o, body, device, t, m)).order == o.order,
        apply_all(o, update_ops(o, body, device, t, m)).lines.dom() == o.lines.dom(),
        forall|j: int|
            0 <= j < m ==> alive(
                apply_all(o, update_ops(o, body, device, t, m)).lines,
                #[trigger] d_old_mid(o, body)[j],
            ) && apply_all(o, update_ops(o, body, device, t, m)).lines[d_old_mid(
                o,
                body,
            )[j]].content == d_new_mid(o, body)[j],
        forall|id: u128|
            #[trigger] o.lines.contains_key(id) && !d_old_mid(o, body).take(m as int).contains(id)
                ==> apply_all(o, update_ops(o, body, device, t, m)).lines[id] == o.lines[id],
    decreases m,
{
    lemma_diff_facts(o, body);
    let om = d_old_mid(o, body);
    let nm = d_new_mid(o, body);
    if m > 0 {
        lemma_updates(o, body, device, t, (m - 1) as nat);
        let prev = update_ops(o, body, device, t, (m - 1) as nat);
        let v = apply_all(o, prev);
        let id = om[m - 1];
        assert(alive(o.lines, d_ids(o)[d_prefix(o, body) + m - 1]));
        assert(!om.take(m - 1).contains(id)) by {
            if om.take(m - 1).contains(id) {
                let j = choose|j: int| 0 <= j < m - 1 && #[trigger] om.take(m - 1)[j] == id;
                assert(om[j] == d_ids(o)[d_prefix(o, body) + j]);
            }
        }
        assert(v.lines[id] == o.lines[id]);
        if o.lines[id].content != nm[m - 1] {
            let op = LineOpView::Update {
                line_id: id,
                content: nm[m - 1],
                vv: crate::version_vector::vv_bump(o.lines[id].vv, device),
                last_writer: device,
                updated_at: t,
            };
            assert(update_ops(o, body, device, t, m) == prev.push(op));
            lemma_apply_all_push(o, prev, op);
        }
        let w = apply_all(o, update_ops(o, body, device, t, m));
        assert(w.lines.dom() =~= o.lines.dom());
        assert forall|j: int| 0 <= j < m implies alive(w.lines, #[trigger] om[j])
            && w.lines[om[j]].content == nm[j] by {
            if j < m - 1 {
                assert(om[j] != id) by {
                    assert(om[j] == d_ids(o)[d_prefix(o, body) + j]);
                }
            }
        }
        assert forall|x: u128| #[trigger] o.lines.contains_key(x) && !om.take(m as int).contains(x)
            implies w.lines[x] == o.lines[x] by {
            assert(!om.take(m - 1).contains(x)) by {
                if om.take(m - 1).contains(x) {
                    let j = choose|j: int| 0 <= j < m - 1 && #[trigger] om.take(m - 1)[j] == x;
                    assert(om.take(m as int)[j] == x);
                }
            }
            assert(x != id) by {
                if x == id {
                    assert(om.take(m as int)[m - 1] == x);
                }
            }
        }
    } else {
        assert(update_ops(o, body, device, t, 0) =~= Seq::<LineOpView>::empty());
        assert(o.lines.dom() =~= o.lines.dom());
    }
}

/// The deletions of an edit, for the first `m` unpaired old lines, mark each of them
/// deleted and leave every other line as it was.
pub proof fn lemma_deletes(
    o: NoteLinesView,
    body: Seq<char>,
    device: Seq<char>,
    t: i128,
    s1: NoteLinesView,
    m: nat,
)
    requires
        order_distinct(o.order),
        m <= d_old_mid(o, body).len() - d_paired(o, body),
        s1.lines.dom() == o.lines.dom(),
    ensures
        apply_all(s1, delete_ops(o, body, device, t, m)).order == s1.order,
        apply_all(s1, delete_ops(o, body, device, t, m)).lines.dom() == s1.lines.dom(),
        forall|j: int|
            d_paired(o, body) <= j < d_paired(o, body) + m ==> !alive(
                apply_all(s1, delete_ops(o, body, device, t, m)).lines,
                #[trigger] d_old_mid(o, body)[j],
            ),
        forall|id: u128|
            #[trigger] s1.lines.contains_key(id) && !d_old_mid(o, body).subrange(
                d_paired(o, body) as int,
                (d_paired(o, body) + m) as int,
            ).contains(id) ==> apply_all(s1, delete_ops(o, body, device, t, m)).lines[id]
                == s1.lines[id],
    decreases m,
{
    lemma_diff_facts(o, body);
    let om = d_old_mid(o, body);
    let pd = d_paired(o, body) as int;
    if m > 0 {
        lemma_deletes(o, body, device, t, s1, (m - 1) as nat);
        let prev = delete_ops(o, body, device, t, (m - 1) as nat);
        let v = apply_all(s1, prev);
        let id = om[pd + m - 1];
        assert(alive(o.lines, d_ids(o)[d_prefix(o, body) + pd + m - 1]));
        assert(v.lines.contains_key(id));
        let op = LineOpView::Delete {
            line_id: id,
            deleted_at: t,
            vv: crate::version_vector::vv_bump(o.lines[id].vv, device),
            last_writer: device,
            updated_at: t,
        };
        assert(delete_ops(o, body, device, t, m) == prev.push(op));
        lemma_apply_all_push(s1, prev, op);
        let w = apply_all(s1, delete_ops(o, body, device, t, m));
        assert(w.lines.dom() =~= s1.lines.dom());
        assert forall|j: int| pd <= j < pd + m implies !alive(w.lines, #[trigger] om[j]) by {
            if j < pd + m - 1 {
                assert(om[j] != id) by {
                    assert(om[j] == d_ids(o)[d_prefix(o, body) + j]);
                }
            }
        }
        assert forall|x: u128| #[trigger] s1.lines.contains_key(x) && !om.subrange(pd, pd + m).contains(x)
            implies w.lines[x] == s1.lines[x] by {
            assert(!om.subrange(pd, pd + m - 1).contains(x)) by {
                if om.subrange(pd, pd + m - 1).contains(x) {
                    let j = choose|j: int| 0 <= j < m - 1 && #[trigger] om.subrange(pd, pd + m - 1)[j] == x;
                    assert(om.subrange(pd, pd + m)[j] == x);
                }
            }
            assert(x != id) by {
                if x == id {
                    assert(om.subrange(pd, pd + m)[m - 1] == x);
                }
            }
        }
    } else {
        assert(delete_ops(o, body, device, t, 0) =~= Seq::<LineOpView>::empty());
    }
}

/// The insertions of an edit, for the first `m` new lines, place the new ids one after
/// the other at the anchor, as lines alive with their texts, and leave the other lines
/// as they were.
#[verifier::spinoff_prover]
#[verifier::rlimit(40)]
pub proof fn lemma_inserts(
    o: NoteLinesView,
    body: Seq<char>,
    device: Seq<char>,
    t: i128,
    ids: Seq<u128>,
    s2: NoteLinesView,
    m: nat,
)
    requires
        order_distinct(o.order),
        fresh_ids(o, ids),
        m <= ids.len(),
        ids.len() == insert_count(o, body),
        s2.order == o.order,
        s2.lines.dom() == o.lines.dom(),
    ensures
        anchor_pos(o.order, d_anchor(o, body)) <= o.order.len(),
        apply_all(s2, insert_ops(o, body, device, t, ids, m)).order == o.order.take(
            anchor_pos(o.order, d_anchor(o, body)),
        ) + ids.take(m as int) + o.order.skip(anchor_pos(o.order, d_anchor(o, body))),
        forall|id: u128|
            #[trigger] apply_all(s2, insert_ops(o, body, device, t, ids, m)).lines.contains_key(id)
                <==> (s2.lines.contains_key(id) || ids.take(m as int).contains(id)),
        forall|id: u128|
            #[trigger] s2.lines.contains_key(id) ==> apply_all(
                s2,
                insert_ops(o, body, device, t, ids, m),
            ).lines[id] == s2.lines[id],
        forall|j: int|
            0 <= j < m ==> alive(
                apply_all(s2, insert_ops(o, body, device, t, ids, m)).lines,
                #[trigger] ids[j],
            ) && apply_all(s2, insert_ops(o, body, device, t, ids, m)).lines[ids[j]].content
                == d_new_mid(o, body)[d_paired(o, body) + j],
    decreases m,
{
    lemma_diff_facts(o, body);
    match d_anchor(o, body) {
        Some(x) => lemma_first_index_bound(o.order, x),
        None => {},
    }
    let q = anchor_pos(o.order, d_anchor(o, body));
    assert(0 <= q <= o.order.len());
    let a = o.order.take(q);
    let b = o.order.skip(q);
    if m > 0 {
        lemma_inserts(o, body, device, t, ids, s2, (m - 1) as nat);
        let prev = insert_ops(o, body, device, t, ids, (m - 1) as nat);
        let v = apply_all(s2, prev);
        let after = if m == 1 {
            d_anchor(o, body)
        } else {
            Some(ids[m - 2])
        };
        let op = LineOpView::Insert {
            after_line_id: after,
            line_id: ids[m - 1],
            content: d_new_mid(o, body)[d_paired(o, body) + m - 1],
            vv: crate::collab::state::bump_times(o.vv, device, m),
            last_writer: device,
            updated_at: t,
        };
        assert(insert_ops(o, body, device, t, ids, m) == prev.push(op));
        lemma_apply_all_push(s2, prev, op);
        // where the new id goes
        if m == 1 {
            assert(v.order =~= o.order);
            assert(anchor_pos(v.order, after) == q);
        } else {
            let x = ids[m - 2];
            assert(v.order[q + m - 2] == x);
            assert forall|j: int| 0 <= j < q + m - 2 implies v.order[j] != x by {
                if j < q {
                    assert(v.order[j] == o.order[j]);
                    assert(!o.order.contains(ids[m - 2]));
                } else {
                    assert(v.order[j] == ids[j - q]);
                }
            }
            lemma_first_index_of(v.order, x, q + m - 2);
            assert(anchor_pos(v.order, after) == q + m - 1);
        }
        let w = apply_all(s2, insert_ops(o, body, device, t, ids, m));
        assert(w.order =~= a + ids.take(m as int) + b);
        assert(!s2.lines.contains_key(ids[m - 1]));
        assert(!ids.take(m - 1).contains(ids[m - 1])) by {
            if ids.take(m - 1).contains(ids[m - 1]) {
                let j = choose|j: int| 0 <= j < m - 1 && #[trigger] ids.take(m - 1)[j] == ids[m - 1];
                assert(ids[j] == ids[m - 1]);
            }
        }
        assert forall|id: u128| #[trigger] w.lines.contains_key(id) <==> (s2.lines.contains_key(id)
            || ids.take(m as int).contains(id)) by {
            if ids.take(m as int).contains(id) && id != ids[m - 1] {
                let j = choose|j: int| 0 <= j < m && #[trigger] ids.take(m as int)[j] == id;
                assert(ids.take(m - 1)[j] == id);
            }
            if ids.take(m - 1).contains(id) {
                let j = choose|j: int| 0 <= j < m - 1 && #[trigger] ids.take(m - 1)[j] == id;
                assert(ids.take(m as int)[j] == id);
            }
            if id == ids[m - 1] {
                assert(ids.take(m as int)[m - 1] == id);
            }
        }
        assert forall|j: int| 0 <= j < m implies alive(w.lines, #[trigger] ids[j])
            && w.lines[ids[j]].content == d_new_mid(o, body)[d_paired(o, body) + j] by {
            if j < m - 1 {
                assert(ids[j] != ids[m - 1]);
            }
        }
    } else {
        assert(insert_ops(o, body, device, t, ids, 0) =~= Seq::<LineOpView>::empty());
        assert(a + ids.take(0) + b =~= o.order);
        assert forall|id: u128| #[trigger] s2.lines.contains_key(id) <==> (s2.lines.contains_key(id)
            || ids.take(0).contains(id)) by {}
    }
}

/// The first index of an id lies within the sequence or at its end.
pub proof fn lemma_first_index_bound(s: Seq<u128>, x: u128)
    ensures
        0 <= first_index(s, x) <= s.len(),
        first_index(s, x) < s.len() ==> s[first_index(s, x)] == x,
    decreases s.len(),
{
    if s.len() > 0 && s[0] != x {
        lemma_first_index_bound(s.skip(1), x);
    }
}

/// Editing the lines to a body and applying the edit's ops shows exactly the body's
/// lines, when no id occurs twice in the order and the ids of the new lines are new.
#[verifier::spinoff_prover]
#[verifier::rlimit(80)]
pub proof fn lemma_diff_shows_body(
    o: NoteLinesView,
    body: Seq<char>,
    device: Seq<char>,
    t: i128,
    ids: Seq<u128>,
)
    requires
        order_distinct(o.order),
        fresh_ids(o, ids),
        ids.len() == insert_count(o, body),
    ensures
        shown(apply_all(o, diff_ops(o, body, device, t, ids))) == new_lines(body),
{
    lemma_diff_facts(o, body);
    let ids0 = d_ids(o);
    let n = ids0.len() as int;
    let nl = new_lines(body);
    let p = d_prefix(o, body) as int;
    let sfx = d_suffix(o, body) as int;
    let om = d_old_mid(o, body);
    let nm = d_new_mid(o, body);
    let pd = d_paired(o, body) as int;
    let c = p + pd;
    let u = update_ops(o, body, device, t, pd as nat);
    let dl = delete_ops(o, body, device, t, (om.len() - pd) as nat);
    let ins = insert_ops(o, body, device, t, ids, insert_count(o, body));
    lemma_updates(o, body, device, t, pd as nat);
    let s1 = apply_all(o, u);
    lemma_deletes(o, body, device, t, s1, (om.len() - pd) as nat);
    let s2 = apply_all(s1, dl);
    lemma_inserts(o, body, device, t, ids, s2, ids.len() as nat);
    let s3 = apply_all(s2, ins);
    lemma_apply_all_append(o, u, dl);
    lemma_apply_all_append(o, u + dl, ins);
    assert(diff_ops(o, body, device, t, ids) == u + dl + ins);
    assert(apply_all(o, diff_ops(o, body, device, t, ids)) == s3);
    assert(ids.take(ids.len() as int) =~= ids);
    let pdset = om.take(pd);
    let kset = om.subrange(pd, om.len() as int);
    assert(om.subrange(pd, pd + (om.len() - pd)) =~= kset);
    // the order splits at the anchor
    match d_anchor(o, body) {
        Some(x) => lemma_first_index_bound(o.order, x),
        None => {},
    }
    let q = anchor_pos(o.order, d_anchor(o, body));
    assert(0 <= q <= o.order.len());
    let a = o.order.take(q);
    let b = o.order.skip(q);
    assert(a + b =~= o.order);
    lemma_live_append(a, b, o.lines);
    if c == 0 {
        assert(d_anchor(o, body) is None);
        assert(a =~= Seq::<u128>::empty());
        assert(live_ids(a, o.lines) =~= ids0.take(0));
        assert(live_ids(b, o.lines) =~= ids0.skip(0));
    } else {
        let x = ids0[c - 1];
        if pd > 0 {
            assert(om[pd - 1] == ids0[p + pd - 1]);
        }
        assert(d_anchor(o, body) == Some(x));
        lemma_live_split(o.order, o.lines, c);
        lemma_first_index_bound(o.order, x);
    }
    assert(live_ids(a, o.lines) == ids0.take(c));
    assert(live_ids(b, o.lines) == ids0.skip(c));
    lemma_live_subset(a, o.lines);
    lemma_live_subset(b, o.lines);
    // which lines are alive after the edit
    assert forall|k: int| 0 <= k < a.len() implies alive(s3.lines, #[trigger] a[k]) == alive(
        o.lines,
        a[k],
    ) by {
        let id = a[k];
        assert(id == o.order[k]);
        assert forall|j: int| 0 <= j < ids.len() implies ids[j] != id by {
            assert(!o.order.contains(ids[j]));
        }
        assert(!ids.contains(id));
        if o.lines.contains_key(id) {
            if kset.contains(id) {
                let j = choose|j: int| 0 <= j < kset.len() && #[trigger] kset[j] == id;
                assert(kset[j] == ids0[c + j]);
                assert(ids0.skip(c)[j] == id);
                assert(b.contains(id));
                let m = choose|m: int| 0 <= m < b.len() && b[m] == id;
                assert(o.order[q + m] == id);
            }
            assert(!kset.contains(id));
            assert(s2.lines[id] == s1.lines[id]);
            if pdset.contains(id) {
                let j = choose|j: int| 0 <= j < pd && #[trigger] pdset[j] == id;
                assert(om[j] == id);
                assert(alive(o.lines, ids0[p + j]));
            }
        }
    }
    lemma_live_agree(a, s3.lines, o.lines);
    assert forall|k: int| 0 <= k < ids.len() implies alive(s3.lines, #[trigger] ids[k]) by {}
    lemma_live_all(ids, s3.lines);
    assert forall|k: int| 0 <= k < b.len() implies alive(s3.lines, #[trigger] b[k]) == (alive(
        o.lines,
        b[k],
    ) && !kset.contains(b[k])) by {
        let id = b[k];
        assert(id == o.order[q + k]);
        assert forall|j: int| 0 <= j < ids.len() implies ids[j] != id by {
            assert(!o.order.contains(ids[j]));
        }
        assert(!ids.contains(id));
        if o.lines.contains_key(id) && !kset.contains(id) {
            assert(s2.lines[id] == s1.lines[id]);
            if pdset.contains(id) {
                let j = choose|j: int| 0 <= j < pd && #[trigger] pdset[j] == id;
                assert(om[j] == ids0[p + j]);
                assert(ids0.take(c)[p + j] == id);
                assert(a.contains(id));
                let m = choose|m: int| 0 <= m < a.len() && a[m] == id;
                assert(o.order[m] == id);
            }
        }
    }
    lemma_live_kill(b, o.lines, s3.lines, kset);
    let sf = ids0.skip(n - sfx);
    assert(ids0.skip(c) =~= kset + sf);
    lemma_without_append(kset, sf, kset);
    assert forall|i: int| 0 <= i < kset.len() implies kset.contains(#[trigger] kset[i]) by {}
    lemma_without_all_or_none(kset, kset);
    assert forall|i: int| 0 <= i < sf.len() implies !kset.contains(#[trigger] sf[i]) by {
        if kset.contains(sf[i]) {
            let j = choose|j: int| 0 <= j < kset.len() && #[trigger] kset[j] == sf[i];
            assert(kset[j] == ids0[c + j]);
            assert(sf[i] == ids0[n - sfx + i]);
        }
    }
    lemma_without_all_or_none(sf, kset);
    assert(live_ids(b, s3.lines) == sf) by {
        assert(Seq::<u128>::empty() + sf =~= sf);
    }
    lemma_live_append(a + ids, b, s3.lines);
    lemma_live_append(a, ids, s3.lines);
    assert(s3.order == a + ids + b);
    let shown_ids = ids0.take(c) + ids + sf;
    assert(live_ids(s3.order, s3.lines) == shown_ids);
    // the texts of the shown lines
    let cs = contents(s3.lines, shown_ids);
    assert(cs.len() == nl.len());
    assert forall|k: int| 0 <= k < nl.len() implies cs[k] == nl[k] by {
        if k < p {
            let id = ids0[k];
            assert(shown_ids[k] == id);
            assert(!kset.contains(id)) by {
                if kset.contains(id) {
                    let j = choose|j: int| 0 <= j < kset.len() && #[trigger] kset[j] == id;
                    assert(kset[j] == ids0[c + j]);
                }
            }
            assert(!pdset.contains(id)) by {
                if pdset.contains(id) {
                    let j = choose|j: int| 0 <= j < pd && #[trigger] pdset[j] == id;
                    assert(pdset[j] == ids0[p + j]);
                }
            }
            assert(alive(o.lines, ids0[k]));
            assert(d_old(o)[k] == o.lines[id].content);
        } else if k < c {
            let id = ids0[k];
            assert(shown_ids[k] == id);
            assert(om[k - p] == id);
            assert(!kset.contains(id)) by {
                if kset.contains(id) {
                    let j = choose|j: int| 0 <= j < kset.len() && #[trigger] kset[j] == id;
                    assert(kset[j] == ids0[c + j]);
                }
            }
            assert(alive(o.lines, ids0[k]));
            assert(nm[k - p] == nl[k]);
        } else if k < c + ids.len() {
            assert(shown_ids[k] == ids[k - c]);
            assert(nm[pd + (k - c)] == nl[k]);
        } else {
            let i = k - c - ids.len();
            let id = sf[i];
            assert(shown_ids[k] == id);
            assert(id == ids0[n - sfx + i]);
            assert(!kset.contains(id));
            assert(!pdset.contains(id)) by {
                if pdset.contains(id) {
                    let j = choose|j: int| 0 <= j < pd && #[trigger] pdset[j] == id;
                    assert(pdset[j] == ids0[p + j]);
                }
            }
            assert(alive(o.lines, ids0[n - sfx + i]));
            assert(d_old(o)[n - sfx + i] == o.lines[id].content);
            let kk = sfx - 1 - i;
            assert(from_end(d_old(o), kk) == from_end(nl, kk));
        }
    }
    assert(cs =~= nl);
}

/// An edit keeps every id at most once in the order, when the ids of its new lines are
/// new: so edits can follow one another.
#[verifier::spinoff_prover]
pub proof fn lemma_diff_keeps_order_distinct(
    o: NoteLinesView,
    body: Seq<char>,
    device: Seq<char>,
    t: i128,
    ids: Seq<u128>,
)
    requires
        order_distinct(o.order),
        fresh_ids(o, ids),
        ids.len() == insert_count(o, body),
    ensures
        order_distinct(apply_all(o, diff_ops(o, body, device, t, ids)).order),
{
    lemma_diff_facts(o, body);
    let om = d_old_mid(o, body);
    let pd = d_paired(o, body) as int;
    let u = update_ops(o, body, device, t, pd as nat);
    let dl = delete_ops(o, body, device, t, (om.len() - pd) as nat);
    let ins = insert_ops(o, body, device, t, ids, insert_count(o, body));
    lemma_updates(o, body, device, t, pd as nat);
    let s1 = apply_all(o, u);
    lemma_deletes(o, body, device, t, s1, (om.len() - pd) as nat);
    let s2 = apply_all(s1, dl);
    lemma_inserts(o, body, device, t, ids, s2, ids.len() as nat);
    lemma_apply_all_append(o, u, dl);
    lemma_apply_all_append(o, u + dl, ins);
    assert(diff_ops(o, body, device, t, ids) == u + dl + ins);
    assert(ids.take(ids.len() as int) =~= ids);
    match d_anchor(o, body) {
        Some(x) => lemma_first_index_bound(o.order, x),
        None => {},
    }
    let q = anchor_pos(o.order, d_anchor(o, body));
    assert(0 <= q <= o.order.len());
    let a = o.order.take(q);
    let b = o.order.skip(q);
    let r = apply_all(o, diff_ops(o, body, device, t, ids)).order;
    assert(r == a + ids + b);
    assert forall|i: int, j: int| 0 <= i < j < r.len() implies r[i] != r[j] by {
        let na = a.len() as int;
        let ni = ids.len() as int;
        if j < na {
            assert(r[i] == o.order[i] && r[j] == o.order[j]);
        } else if j < na + ni {
            assert(r[j] == ids[j - na]);
            if i < na {
                assert(r[i] == o.order[i]);
                assert(o.order.contains(o.order[i]));
            } else {
                assert(r[i] == ids[i - na]);
            }
        } else {
            assert(r[j] == o.order[j - ni]);
            if i < na {
                assert(r[i] == o.order[i]);
            } else if i < na + ni {
                assert(r[i] == ids[i - na]);
                assert(o.order.contains(o.order[j - ni]));
            } else {
                assert(r[i] == o.order[i - ni]);
            }
        }
    }
}

/// What is left of a sequence once ids are removed comes from the sequence, holds none
/// of the ids, and holds no id twice when the sequence does not.
pub proof fn lemma_without_ids_kept(s: Seq<u128>, ids: Seq<u128>)
    ensures
        forall|k: int|
            0 <= k < without_ids(s, ids).len() ==> s.contains(#[trigger] without_ids(s, ids)[k])
                && !ids.contains(without_ids(s, ids)[k]),
        order_distinct(s) ==> order_distinct(without_ids(s, ids)),
    decreases s.len(),
{
    if s.len() > 0 {
        let t = s.drop_last();
        lemma_without_ids_kept(t, ids);
        let wt = without_ids(t, ids);
        let w = without_ids(s, ids);
        assert forall|k: int| 0 <= k < wt.len() implies s.contains(#[trigger] wt[k]) by {
            let j = choose|j: int| 0 <= j < t.len() && t[j] == wt[k];
            assert(s[j] == t[j]);
        }
        if !ids.contains(s.last()) {
            assert(w == wt.push(s.last()));
            assert(s.contains(s[s.len() - 1]));
            if order_distinct(s) {
                assert forall|i: int, j: int| 0 <= i < j < w.len() implies w[i] != w[j] by {
                    if j == w.len() - 1 {
                        assert(t.contains(wt[i]));
                        let m = choose|m: int| 0 <= m < t.len() && t[m] == wt[i];
                        assert(s[m] == t[m]);
                    } else {
                        assert(w[i] == wt[i] && w[j] == wt[j]);
                    }
                }
            }
        }
        if order_distinct(s) {
            assert(order_distinct(t)) by {
                assert forall|i: int, j: int| 0 <= i < j < t.len() implies t[i] != t[j] by {
                    assert(t[i] == s[i] && t[j] == s[j]);
                }
            }
        }
    }
}

/// Applying one op keeps every id at most once in the order, when an inserted id is
/// not in the order yet and the ids of a move are distinct.
pub proof fn lemma_apply_keeps_order_distinct(v: NoteLinesView, op: LineOpView)
    requires
        order_distinct(v.order),
        op matches LineOpView::Insert { line_id, .. } ==> !v.order.contains(line_id),
        op matches LineOpView::Move { line_ids, .. } ==> order_distinct(line_ids),
    ensures
        order_distinct(spec_apply(v, op).order),
{
    match op {
        LineOpView::Insert { after_line_id, line_id, .. } => {
            match after_line_id {
                Some(x) => lemma_first_index_bound(v.order, x),
                None => {},
            }
            let q = anchor_pos(v.order, after_line_id);
            let r = spec_apply(v, op).order;
            assert(r == v.order.insert(q, line_id));
            assert forall|i: int, j: int| 0 <= i < j < r.len() implies r[i] != r[j] by {
                if i < q && j < q {
                    assert(r[i] == v.order[i] && r[j] == v.order[j]);
                } else if i < q && j == q {
                    assert(v.order.contains(v.order[i]));
                } else if i < q {
                    assert(r[i] == v.order[i] && r[j] == v.order[j - 1]);
                } else if i == q {
                    assert(r[j] == v.order[j - 1]);
                    assert(v.order.contains(v.order[j - 1]));
                } else {
                    assert(r[i] == v.order[i - 1] && r[j] == v.order[j - 1]);
                }
            }
        },
        LineOpView::Move { line_ids, after_line_id, .. } => {
            let kept = without_ids(v.order, line_ids);
            lemma_without_ids_kept(v.order, line_ids);
            match after_line_id {
                Some(x) => lemma_first_index_bound(kept, x),
                None => {},
            }
            let q = anchor_pos(kept, after_line_id);
            let a = kept.take(q);
            let b = kept.skip(q);
            let r = spec_apply(v, op).order;
            assert(r == a + line_ids + b);
            let na = a.len() as int;
            let ni = line_ids.len() as int;
            assert forall|i: int, j: int| 0 <= i < j < r.len() implies r[i] != r[j] by {
                if j < na {
                    assert(r[i] == kept[i] && r[j] == kept[j]);
                } else if j < na + ni {
                    assert(r[j] == line_ids[j - na]);
                    if i < na {
                        assert(r[i] == kept[i]);
                        assert(line_ids.contains(line_ids[j - na]));
                    } else {
                        assert(r[i] == line_ids[i - na]);
                    }
                } else {
                    assert(r[j] == kept[j - ni]);
                    if i < na {
                        assert(r[i] == kept[i]);
                    } else if i < na + ni {
                        assert(r[i] == line_ids[i - na]);
                        assert(line_ids.contains(line_ids[i - na]));
                    } else {
                        assert(r[i] == kept[i - ni]);
                    }
                }
            }
        },
        _ => {},
    }
}

/// A body has as many lines as the note shows after an edit to it: none for the empty
/// body, else one more than its newlines.
pub proof fn lemma_line_count_is_shown_count(body: Seq<char>)
    ensures
        crate::format::spec_line_count(body) == new_lines(body).len(),
{
}

} // verus!
