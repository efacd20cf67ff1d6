use vstd::prelude::*;

use crate::links::{exec_find_from, find_from, lemma_find_from_bounds};
use crate::text::{chars_of, string_of, string_of_range, trim_end_char, trim_end_index};

verus! {

/// The halves of a page token `timestamp|id`, or two empty texts for no token, an empty
/// one, or one without `|`.
pub open spec fn spec_parse_cursor(token: Option<Seq<char>>) -> (Seq<char>, Seq<char>) {
    match token {
        Some(t) => if t.len() > 0 && find_from(t, 0, '|') < t.len() {
            (t.take(find_from(t, 0, '|')), t.skip(find_from(t, 0, '|') + 1))
        } else {
            (Seq::empty(), Seq::empty())
        },
        None => (Seq::empty(), Seq::empty()),
    }
}

pub open spec fn opt_str(o: Option<&str>) -> Option<Seq<char>> {
    match o {
        Some(s) => Some(s@),
        None => None,
    }
}

/// Splits a page token at its first `|` into a timestamp and an id.
pub fn parse_cursor(token: Option<&str>) -> (r: (String, String))
    ensures
        (r.0@, r.1@) == spec_parse_cursor(opt_str(token)),
{
    match token {
        Some(t) => {
            let cs = chars_of(t);
            if cs.len() == 0 {
                return (String::new(), String::new());
            }
            let bar = exec_find_from(cs.as_slice(), 0, '|');
            proof {
                lemma_find_from_bounds(cs@, 0, '|');
            }
            if bar < cs.len() {
                let a = string_of_range(cs.as_slice(), 0, bar);
                let b = string_of_range(cs.as_slice(), bar + 1, cs.len());
                assert(cs@.subrange(0, bar as int) =~= cs@.take(bar as int));
                assert(cs@.subrange(bar + 1, cs@.len() as int) =~= cs@.skip(bar + 1));
                (a, b)
            } else {
                (String::new(), String::new())
            }
        },
        None => (String::new(), String::new()),
    }
}

/// The first `limit` rows, and the token of the last of them when rows were left over.
pub fn build_page<T, F>(rows: Vec<T>, limit: usize, token_fn: F) -> (r: (Vec<T>, Option<String>))
    where
        F: Fn(&T) -> String,
    requires
        rows@.len() > limit && limit > 0 ==> call_requires(token_fn, (&rows@[limit - 1],)),
    ensures
        rows@.len() > limit ==> r.0@ == rows@.take(limit as int),
        rows@.len() <= limit ==> r.0@ == rows@,
        rows@.len() > limit && limit > 0 ==> (r.1 matches Some(tok) && call_ensures(
            token_fn,
            (&rows@[limit - 1],),
            tok,
        )),
        !(rows@.len() > limit && limit > 0) ==> r.1 is None,
{
    let mut rows = rows;
    let has_more = rows.len() > limit;
    if has_more {
        rows.truncate(limit);
    }
    let next_token = if has_more && rows.len() > 0 {
        let last = rows.len() - 1;
        Some(token_fn(&rows[last]))
    } else {
        None
    };
    (rows, next_token)
}

/// Whether `s` starts with the characters of `lit`.
pub fn starts_with_lit(s: &[char], lit: &str) -> (r: bool)
    ensures
        r == (lit@.len() <= s@.len() && s@.take(lit@.len() as int) == lit@),
{
    let l = chars_of(lit);
    if l.len() > s.len() {
        return false;
    }
    let mut i: usize = 0;
    while i < l.len()
        invariant
            l@ == lit@,
            l@.len() <= s@.len(),
            0 <= i <= l@.len(),
            forall|j: int| 0 <= j < i ==> s@[j] == l@[j],
        decreases l@.len() - i,
    {
        if s[i] != l[i] {
            assert(s@.take(l@.len() as int)[i as int] != l@[i as int]);
            return false;
        }
        i = i + 1;
    }
    assert(s@.take(l@.len() as int) =~= lit@);
    true
}

/// Whether `s` ends with the characters of `lit`.
pub fn ends_with_lit(s: &[char], lit: &str) -> (r: bool)
    ensures
        r == (lit@.len() <= s@.len() && s@.skip(s@.len() - lit@.len()) == lit@),
{
    let l = chars_of(lit);
    if l.len() > s.len() {
        return false;
    }
    let off = s.len() - l.len();
    let mut i: usize = 0;
    while i < l.len()
        invariant
            l@ == lit@,
            off + l@.len() == s@.len(),
            s@.len() <= usize::MAX,
            0 <= i <= l@.len(),
            forall|j: int| 0 <= j < i ==> s@[off + j] == l@[j],
        decreases l@.len() - i,
    {
        if s[off + i] != l[i] {
            assert(s@.skip(off as int)[i as int] != l@[i as int]);
            return false;
        }
        i = i + 1;
    }
    assert(s@.skip(off as int) =~= lit@);
    true
}

/// The HTTP base of a sync server's WebSocket address: `wss://` becomes `https://` and
/// `ws://` becomes `http://`, one trailing `/api/sync` and then any trailing slashes are
/// dropped. `None` for any other scheme.
pub open spec fn spec_http_base_of(url: Seq<char>) -> Option<Seq<char>> {
    let (scheme, rest) = if url.len() >= 6 && url.take(6) == "wss://"@ {
        ("https://"@, Some(url.skip(6)))
    } else if url.len() >= 5 && url.take(5) == "ws://"@ {
        ("http://"@, Some(url.skip(5)))
    } else {
        ("http://"@, None)
    };
    match rest {
        Some(r) => {
            let r2 = if r.len() >= 9 && r.skip(r.len() - 9) == "/api/sync"@ {
                r.take(r.len() - 9)
            } else {
                r
            };
            Some(scheme + trim_end_char(r2, '/'))
        },
        None => None,
    }
}

/// The HTTP base of a sync server's WebSocket address.
pub fn http_base_of(server_url: &str) -> (r: Option<String>)
    ensures
        opt_string_view(r) == spec_http_base_of(server_url@),
{
    proof {
        reveal_strlit("wss://");
        reveal_strlit("ws://");
        reveal_strlit("/api/sync");
    }
    let cs = chars_of(server_url);
    let (scheme, start) = if starts_with_lit(cs.as_slice(), "wss://") {
        ("https://", 6)
    } else if starts_with_lit(cs.as_slice(), "ws://") {
        ("http://", 5)
    } else {
        return None;
    };
    let rest = copy_from(cs.as_slice(), start);
    assert(rest@ == cs@.skip(start as int));
    let end = if ends_with_lit(rest.as_slice(), "/api/sync") {
        rest.len() - 9
    } else {
        rest.len()
    };
    let ghost r2 = rest@.take(end as int);
    assert(rest@.len() >= 9 && rest@.skip(rest@.len() - 9) == "/api/sync"@ ==> r2 == rest@.take(
        rest@.len() - 9,
    ));
    assert(rest@.subrange(0, end as int) =~= r2);
    assert(end == rest@.len() ==> r2 =~= rest@);
    let trimmed = trim_end_index(rest.as_slice(), end, '/');
    assert(rest@.subrange(0, trimmed as int) =~= rest@.take(trimmed as int));
    let mut out = chars_of(scheme);
    let mut k: usize = 0;
    let ghost base = out@;
    while k < trimmed
        invariant
            0 <= k <= trimmed <= rest@.len(),
            out@ == base + rest@.take(k as int),
        decreases trimmed - k,
    {
        out.push(rest[k]);
        assert(rest@.take(k + 1) =~= rest@.take(k as int).push(rest@[k as int]));
        k = k + 1;
    }
    assert(rest@.take(trimmed as int) == trim_end_char(r2, '/'));
    assert(base == scheme@);
    let ghost url = server_url@;
    assert(start == 6 ==> url.len() >= 6 && url.take(6) == "wss://"@);
    assert(start == 5 ==> !(url.len() >= 6 && url.take(6) == "wss://"@) && url.len() >= 5
        && url.take(5) == "ws://"@);
    assert(spec_http_base_of(url) == Some(scheme@ + trim_end_char(r2, '/')));
    Some(string_of(out.as_slice()))
}

pub open spec fn opt_string_view(o: Option<String>) -> Option<Seq<char>> {
    match o {
        Some(s) => Some(s@),
        None => None,
    }
}

/// `s[start..]` as a new vector.
fn copy_from(s: &[char], start: usize) -> (r: Vec<char>)
    requires
        start <= s@.len(),
    ensures
        r@ == s@.skip(start as int),
{
    let mut out: Vec<char> = Vec::new();
    let mut i: usize = start;
    while i < s.len()
        invariant
            start <= i <= s@.len(),
            out@ == s@.subrange(start as int, i as int),
        decreases s@.len() - i,
    {
        out.push(s[i]);
        assert(s@.subrange(start as int, i + 1) =~= s@.subrange(start as int, i as int).push(
            s@[i as int],
        ));
        i = i + 1;
    }
    assert(s@.subrange(start as int, s@.len() as int) =~= s@.skip(start as int));
    out
}

/// The entity type of a journal entry that names none.
pub fn default_entity_type() -> (r: String)
    ensures
        r@ == "note"@,
{
    "note".to_owned()
}

} // verus!
