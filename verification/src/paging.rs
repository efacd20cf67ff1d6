use vstd::prelude::*;

use crate::conflicts::{key_less, key_lt, lemma_key_lt_order};
use crate::ids::{parse_uuid, uuid_parse, uuid_text, uuid_to_string};
use crate::links::{exec_find_from, find_from, lemma_find_from_bounds};
use crate::text::{chars_of, string_of_range};

verus! {

/// An item to page, with the key that orders the pages: a time text (sortable
/// RFC 3339) and the item's identifier.
#[derive(Debug, Clone)]
pub struct PageItem<T> {
    pub ts: String,
    pub id: u128,
    pub item: T,
}

/// The key of an item.
pub open spec fn page_key<T>(p: PageItem<T>) -> (Seq<char>, u128) {
    (p.ts@, p.id)
}

/// Whether key `a` is at or before key `b`.
pub open spec fn key_le(a: (Seq<char>, u128), b: (Seq<char>, u128)) -> bool {
    key_lt(a, b) || a == b
}

/// Whether the items are in key order.
pub open spec fn keys_sorted<T>(items: Seq<PageItem<T>>) -> bool {
    forall|i: int, j: int| 0 <= i < j < items.len() ==> key_le(page_key(items[i]), page_key(items[j]))
}

/// The token that asks for the page after the key `k`: its time text, `|`, and its
/// identifier in hyphenated form.
pub open spec fn token_of(k: (Seq<char>, u128)) -> Seq<char> {
    k.0 + "|"@ + uuid_text(k.1)
}

/// The key that a page token names: the text before its first `|` and the identifier
/// after it. No token, an empty one, one without `|`, and one whose identifier does not
/// read as one name none.
pub open spec fn spec_cursor(token: Option<Seq<char>>) -> Option<(Seq<char>, u128)> {
    match token {
        Some(t) => if t.len() > 0 && find_from(t, 0, '|') < t.len() {
            match uuid_parse(t.skip(find_from(t, 0, '|') + 1)) {
                Some(id) => Some((t.take(find_from(t, 0, '|')), id)),
                None => None,
            }
        } else {
            None
        },
        None => None,
    }
}

/// How many leading items are at or before the key `k`.
pub open spec fn leading_at_or_before<T>(items: Seq<PageItem<T>>, k: (Seq<char>, u128)) -> int
    decreases items.len(),
{
    if items.len() == 0 {
        0
    } else if key_le(page_key(items[0]), k) {
        1 + leading_at_or_before(items.drop_first(), k)
    } else {
        0
    }
}

/// Where the page that a cursor asks for starts: after every item at or before it.
pub open spec fn page_start<T>(items: Seq<PageItem<T>>, cursor: Option<(Seq<char>, u128)>) -> int {
    match cursor {
        Some(k) => leading_at_or_before(items, k),
        None => 0,
    }
}

/// The items of a sequence of page items.
pub open spec fn items_of<T>(s: Seq<PageItem<T>>) -> Seq<T> {
    s.map_values(|p: PageItem<T>| p.item)
}

/// The page that `token` asks for, of at most `limit` items, and the token of the next
/// page when items are left over.
pub open spec fn spec_page<T>(items: Seq<PageItem<T>>, limit: usize, token: Option<Seq<char>>) -> (
    Seq<T>,
    Option<Seq<char>>,
) {
    let rest = items.skip(page_start(items, spec_cursor(token)));
    let page = if rest.len() > limit {
        rest.take(limit as int)
    } else {
        rest
    };
    (
        items_of(page),
        if rest.len() > limit && limit > 0 {
            Some(token_of(page_key(page.last())))
        } else {
            None
        },
    )
}

/// Whether key `(a, s)` is at or before key `(b, t)`.
fn key_at_or_before(a: &String, s: u128, b: &String, t: u128) -> (r: bool)
    ensures
        r == key_le((a@, s), (b@, t)),
{
    key_less(a, s, b, t) || (*a == *b && s == t)
}

/// Reads the key that a page token names.
fn read_cursor(token: Option<&str>) -> (r: Option<(String, u128)>)
    ensures
        match r {
            Some((ts, id)) => spec_cursor(
                match token {
                    Some(t) => Some(t@),
                    None => None,
                },
            ) == Some((ts@, id)),
            None => spec_cursor(
                match token {
                    Some(t) => Some(t@),
                    None => None,
                },
            ) is None,
        },
{
    let t = match token {
        Some(t) => t,
        None => {
            return None;
        },
    };
    let cs = chars_of(t);
    if cs.len() == 0 {
        return None;
    }
    let bar = exec_find_from(cs.as_slice(), 0, '|');
    if bar >= cs.len() {
        return None;
    }
    let ts = string_of_range(cs.as_slice(), 0, bar);
    let idt = string_of_range(cs.as_slice(), bar + 1, cs.len());
    assert(cs@.subrange(0, bar as int) =~= cs@.take(bar as int));
    assert(cs@.subrange(bar + 1, cs@.len() as int) =~= cs@.skip(bar + 1));
    match parse_uuid(idt.as_str()) {
        Ok(id) => Some((ts, id)),
        Err(_) => None,
    }
}

/// Whether a text has no `|`.
pub open spec fn no_bar(s: Seq<char>) -> bool {
    forall|i: int| 0 <= i < s.len() ==> s[i] != '|'
}

/// The first `c` at or after `i` is at `p` when `s[p]` is `c` and none comes between.
proof fn lemma_find_from_at(s: Seq<char>, i: int, p: int, c: char)
    requires
        0 <= i <= p < s.len(),
        s[p] == c,
        forall|j: int| i <= j < p ==> s[j] != c,
    ensures
        find_from(s, i, c) == p,
    decreases p - i,
{
    if i < p {
        lemma_find_from_at(s, i + 1, p, c);
    }
}

/// The token of a key whose time text has no `|` names that key again, given that the
/// identifier's text reads back as the identifier.
proof fn lemma_token_reads_back(ts: Seq<char>, id: u128, idt: Seq<char>)
    requires
        no_bar(ts),
        uuid_parse(idt) == Some(id),
    ensures
        spec_cursor(Some(ts + "|"@ + idt)) == Some((ts, id)),
{
    let t = ts + "|"@ + idt;
    reveal_strlit("|");
    assert(t[ts.len() as int] == '|');
    lemma_find_from_at(t, 0, ts.len() as int, '|');
    assert(t.take(ts.len() as int) =~= ts);
    assert(t.skip(ts.len() as int + 1) =~= idt);
}

/// One page of items in key order: those after the key that `token` names (all of them
/// for no token or one that names no key), at most `limit` of them, and the token of the
/// next page when items are left over.
pub fn paginate<T>(items: Vec<PageItem<T>>, limit: usize, token: Option<&str>) -> (r: (Vec<T>, Option<String>))
    requires
        keys_sorted(items@),
    ensures
        r.0@ == spec_page(
            items@,
            limit,
            match token {
                Some(t) => Some(t@),
                None => None,
            },
        ).0,
        match r.1 {
            Some(s) => spec_page(
                items@,
                limit,
                match token {
                    Some(t) => Some(t@),
                    None => None,
                },
            ).1 == Some(s@),
            None => spec_page(
                items@,
                limit,
                match token {
                    Some(t) => Some(t@),
                    None => None,
                },
            ).1 is None,
        },
        r.1 matches Some(t) ==> {
            let last = items@.skip(
                page_start(
                    items@,
                    spec_cursor(
                        match token {
                            Some(t) => Some(t@),
                            None => None,
                        },
                    ),
                ),
            )[limit - 1];
            no_bar(last.ts@) ==> spec_cursor(Some(t@)) == Some(page_key(last))
        },
{
    let ghost all = items@;
    let ghost tok = match token {
        Some(t) => Some(t@),
        None => None,
    };
    let cursor = read_cursor(token);
    let n = items.len();
    let mut start: usize = 0;
    match &cursor {
        Some((cts, cid)) => {
            let ghost k = (cts@, *cid);
            proof {
                assert(all.skip(0) =~= all);
            }
            while start < n && key_at_or_before(&items[start].ts, items[start].id, cts, *cid)
                invariant
                    n == items@.len(),
                    items@ == all,
                    k == (cts@, *cid),
                    0 <= start <= n,
                    leading_at_or_before(all, k) == start + leading_at_or_before(all.skip(start as int), k),
                decreases n - start,
            {
                assert(all.skip(start as int).drop_first() =~= all.skip(start as int + 1));
                start = start + 1;
            }
            if start < n {
                assert(all.skip(start as int)[0] == all[start as int]);
            } else {
                assert(all.skip(start as int).len() == 0);
            }
        },
        None => {},
    }
    assert(start == page_start(all, spec_cursor(tok)));
    let mut rest = items;
    let mut i: usize = 0;
    while i < start
        invariant
            i <= start <= n,
            rest@ == all.skip(i as int),
            n == all.len(),
        decreases start - i,
    {
        rest.remove(0);
        assert(rest@ =~= all.skip(i as int + 1));
        i = i + 1;
    }
    let ghost rs = rest@;
    let has_more = rest.len() > limit;
    if has_more {
        rest.truncate(limit);
    }
    let ghost page = rest@;
    assert(page == (if rs.len() > limit { rs.take(limit as int) } else { rs }));
    let next = if has_more && rest.len() > 0 {
        let last = rest.len() - 1;
        let mut t = rest[last].ts.clone();
        t.append("|");
        let idt = uuid_to_string(rest[last].id);
        t.append(idt.as_str());
        proof {
            if no_bar(rest@[last as int].ts@) {
                lemma_token_reads_back(rest@[last as int].ts@, rest@[last as int].id, idt@);
            }
            assert(rest@[last as int] == rs[limit - 1]);
        }
        Some(t)
    } else {
        None
    };
    let mut out: Vec<T> = Vec::new();
    let mut j: usize = 0;
    let m = rest.len();
    while rest.len() > 0
        invariant
            j + rest@.len() == page.len(),
            page.len() == m,
            rest@ == page.skip(j as int),
            out@ == items_of(page.take(j as int)),
        decreases rest@.len(),
    {
        let p = rest.remove(0);
        proof {
            assert(p == page[j as int]);
            assert(items_of(page.take(j as int + 1)) =~= items_of(page.take(j as int)).push(p.item));
            assert(rest@ =~= page.skip(j as int + 1));
        }
        out.push(p.item);
        j = j + 1;
    }
    assert(page.take(j as int) =~= page);
    (out, next)
}

/// Whether the keys of the items strictly increase.
pub open spec fn keys_increasing<T>(items: Seq<PageItem<T>>) -> bool {
    forall|i: int, j: int| 0 <= i < j < items.len() ==> key_lt(page_key(items[i]), page_key(items[j]))
}

/// Counting from position `i`, the items at or before the key of item `j` are those up
/// to `j`.
proof fn lemma_leading_from<T>(items: Seq<PageItem<T>>, i: int, j: int)
    requires
        keys_increasing(items),
        0 <= i <= j + 1,
        0 <= j < items.len(),
    ensures
        leading_at_or_before(items.skip(i), page_key(items[j])) == j + 1 - i,
    decreases j + 1 - i,
{
    let k = page_key(items[j]);
    let t = items.skip(i);
    if i <= j {
        assert(t[0] == items[i]);
        assert(t.drop_first() =~= items.skip(i + 1));
        lemma_leading_from(items, i + 1, j);
    } else if i < items.len() {
        assert(t[0] == items[i]);
        lemma_key_lt_order(k, page_key(items[i]), k);
        lemma_key_lt_order(page_key(items[i]), k, page_key(items[i]));
    }
}

/// Law: where keys are distinct and in order, the page asked for with the key of a
/// page's last item starts with the item right after it.
pub proof fn lemma_next_page_follows<T>(items: Seq<PageItem<T>>, limit: usize, s: int)
    requires
        keys_increasing(items),
        limit > 0,
        0 <= s,
        s + limit <= items.len(),
    ensures
        page_start(items, Some(page_key(items.skip(s)[limit - 1]))) == s + limit,
{
    assert(items.skip(s)[limit - 1] == items[s + limit - 1]);
    lemma_leading_from(items, 0, s + limit - 1);
    assert(items.skip(0) =~= items);
}

/// The items that a walk through the pages yields, starting with the page after the key
/// `cursor` (the first page for none) and following each page's last key while items
/// are left over; `fuel` bounds the number of pages.
pub open spec fn walk<T>(items: Seq<PageItem<T>>, limit: usize, cursor: Option<(Seq<char>, u128)>, fuel: nat) -> Seq<T>
    decreases fuel,
{
    if fuel == 0 {
        Seq::empty()
    } else {
        let rest = items.skip(page_start(items, cursor));
        if rest.len() > limit && limit > 0 {
            items_of(rest.take(limit as int)) + walk(items, limit, Some(page_key(rest[limit - 1])), (fuel - 1) as nat)
        } else {
            items_of(rest)
        }
    }
}

/// A walk from position `s` yields the items from `s` on.
proof fn lemma_walk_from<T>(items: Seq<PageItem<T>>, limit: usize, cursor: Option<(Seq<char>, u128)>, fuel: nat)
    requires
        keys_increasing(items),
        limit > 0,
        0 <= page_start(items, cursor) <= items.len(),
        fuel >= items.len() - page_start(items, cursor) + 1,
    ensures
        walk(items, limit, cursor, fuel) == items_of(items.skip(page_start(items, cursor))),
    decreases items.len() - page_start(items, cursor),
{
    let s = page_start(items, cursor);
    let rest = items.skip(s);
    if rest.len() > limit {
        lemma_next_page_follows(items, limit, s);
        let next = Some(page_key(rest[limit - 1]));
        lemma_walk_from(items, limit, next, (fuel - 1) as nat);
        assert(items.skip(s + limit) =~= rest.skip(limit as int));
        assert(rest =~= rest.take(limit as int) + rest.skip(limit as int));
        assert(items_of(rest) =~= items_of(rest.take(limit as int)) + items_of(rest.skip(limit as int)));
    }
}

/// Law: where keys are distinct and in order, walking the pages from the first, each
/// asked for with the key of the last item of the page before, yields every item once,
/// in order.
pub proof fn lemma_walk_yields_all<T>(items: Seq<PageItem<T>>, limit: usize)
    requires
        keys_increasing(items),
        limit > 0,
    ensures
        walk(items, limit, None, items.len() + 1) == items_of(items),
{
    assert(items.skip(0) =~= items);
    lemma_walk_from(items, limit, None, items.len() + 1);
}

} // verus!
