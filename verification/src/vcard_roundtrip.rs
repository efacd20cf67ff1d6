use vstd::prelude::*;

use crate::interop::{
    apply_prop, card_scan, contact_lines, empty_contact, n_family, n_given, nonempty_text,
    prop_lines, spec_from_vcard, text_or_empty, vcard_text, ContactView,
    ascii_upper, is_vcard_value, crlf, escape, escape_char, fit_from, fold, fold_all, fold_rest,
    lemma_fit_from_bounds, spec_split_prop, spec_unfold, strip_cr, unescape, unfold_from,
    unfold_step, FOLD_LIMIT,
};
use crate::links::{find_from, lemma_find_from_bounds};
use crate::text::{
    char_utf8_len, lemma_encode_utf8_append, lemma_split_on_nonempty, lemma_utf8_len_push, split_on,
    utf8_len,
};

verus! {

/// Splitting at a newline splits the two sides apart.
pub proof fn lemma_split_on_newline(x: Seq<char>, y: Seq<char>)
    ensures
        split_on(x + seq!['\n'] + y, '\n') == split_on(x, '\n') + split_on(y, '\n'),
    decreases y.len(),
{
    let z = x + seq!['\n'] + y;
    lemma_split_on_nonempty(x, '\n');
    if y.len() == 0 {
        assert(z.drop_last() =~= x);
        assert(split_on(y, '\n') =~= seq![Seq::<char>::empty()]);
        assert(split_on(z, '\n') =~= split_on(x, '\n') + split_on(y, '\n'));
    } else {
        let y2 = y.drop_last();
        lemma_split_on_newline(x, y2);
        lemma_split_on_nonempty(y2, '\n');
        assert(z.drop_last() =~= x + seq!['\n'] + y2);
        assert(z.last() == y.last());
        let a = split_on(x, '\n');
        let b = split_on(y2, '\n');
        if y.last() == '\n' {
            assert(split_on(z, '\n') =~= (a + b).push(Seq::<char>::empty()));
            assert(split_on(z, '\n') =~= a + split_on(y, '\n'));
        } else {
            assert(split_on(z, '\n') =~= (a + b).update(
                (a + b).len() - 1,
                (a + b).last().push(y.last()),
            ));
            assert(split_on(z, '\n') =~= a + split_on(y, '\n'));
        }
    }
}

/// A text without newlines is one piece.
pub proof fn lemma_split_on_no_newline(x: Seq<char>)
    requires
        !x.contains('\n'),
    ensures
        split_on(x, '\n') == seq![x],
    decreases x.len(),
{
    if x.len() > 0 {
        let x2 = x.drop_last();
        assert(!x2.contains('\n')) by {
            if x2.contains('\n') {
                let k = choose|k: int| 0 <= k < x2.len() && x2[k] == '\n';
                assert(x[k] == '\n');
            }
        }
        lemma_split_on_no_newline(x2);
        assert(x.last() != '\n') by {
            if x.last() == '\n' {
                assert(x[x.len() - 1] == '\n');
            }
        }
        assert(x2.push(x.last()) =~= x);
        assert(split_on(x, '\n') == seq![x2].update(0, x2.push(x.last())));
        assert(split_on(x, '\n') =~= seq![x]);
    } else {
        assert(x =~= Seq::<char>::empty());
    }
}

/// Unfolding two runs of raw lines is unfolding the second onto the first's result.
pub proof fn lemma_unfold_from_append(acc: Seq<Seq<char>>, a: Seq<Seq<char>>, b: Seq<Seq<char>>)
    ensures
        unfold_from(acc, a + b) == unfold_from(unfold_from(acc, a), b),
    decreases b.len(),
{
    if b.len() == 0 {
        assert(a + b =~= a);
    } else {
        lemma_unfold_from_append(acc, a, b.drop_last());
        assert((a + b).drop_last() =~= a + b.drop_last());
        assert((a + b).last() == b.last());
    }
}

/// A line that folding and unfolding give back unchanged: not empty, without newlines,
/// and not starting with a space or tab.
pub open spec fn foldable(l: Seq<char>) -> bool {
    &&& l.len() > 0
    &&& !l.contains('\n')
    &&& l[0] != ' '
    &&& l[0] != '\t'
}

/// The continuation lines of a folded line, split at newlines and unfolded onto an
/// accumulator whose last line is the line's part before index `i`, complete that line.
proof fn lemma_fold_rest_unfolds(l: Seq<char>, i: int, acc: Seq<Seq<char>>)
    requires
        foldable(l),
        0 < i <= l.len(),
        acc.len() > 0,
        acc.last() == l.take(i),
    ensures
        split_on(fold_rest(l, i), '\n').len() >= 1,
        split_on(fold_rest(l, i), '\n').last() == Seq::<char>::empty(),
        unfold_from(acc, split_on(fold_rest(l, i), '\n').drop_last()) == acc.update(
            acc.len() - 1,
            l,
        ),
    decreases l.len() - i,
{
    if i >= l.len() {
        assert(fold_rest(l, i) =~= Seq::<char>::empty());
        assert(split_on(Seq::<char>::empty(), '\n') =~= seq![Seq::<char>::empty()]);
        assert(l.take(i) =~= l);
        assert(acc.update(acc.len() - 1, l) =~= acc);
        assert(seq![Seq::<char>::empty()].drop_last() =~= Seq::<Seq<char>>::empty());
    } else {
        let e = fit_from(l, i, 0, (FOLD_LIMIT - 1) as nat);
        lemma_fit_from_bounds(l, i, 0, (FOLD_LIMIT - 1) as nat);
        let piece = l.subrange(i, e);
        let x = seq![' '] + piece + seq!['\r'];
        assert(fold_rest(l, i) == seq![' '] + piece + crlf() + fold_rest(l, e));
        assert(fold_rest(l, i) =~= x + seq!['\n'] + fold_rest(l, e));
        lemma_split_on_newline(x, fold_rest(l, e));
        assert(!x.contains('\n')) by {
            if x.contains('\n') {
                let k = choose|k: int| 0 <= k < x.len() && x[k] == '\n';
                if 1 <= k < x.len() - 1 {
                    assert(l[i + k - 1] == '\n');
                }
            }
        }
        lemma_split_on_no_newline(x);
        let acc2 = unfold_step(acc, x);
        assert(strip_cr(x) =~= seq![' '] + piece);
        assert((seq![' '] + piece).drop_first() =~= piece);
        assert(acc.last() + piece =~= l.take(e));
        assert(acc2 =~= acc.update(acc.len() - 1, l.take(e)));
        lemma_fold_rest_unfolds(l, e, acc2);
        let r = split_on(fold_rest(l, e), '\n');
        assert(split_on(fold_rest(l, i), '\n') =~= seq![x] + r);
        assert((seq![x] + r).drop_last() =~= seq![x] + r.drop_last());
        lemma_unfold_from_append(acc, seq![x], r.drop_last());
        assert(unfold_from(acc, seq![x]) == unfold_step(unfold_from(acc, seq![x].drop_last()), x));
        assert(seq![x].drop_last() =~= Seq::<Seq<char>>::empty());
        assert(acc2.update(acc2.len() - 1, l) =~= acc.update(acc.len() - 1, l));
    }
}

/// A folded line, split at newlines and unfolded onto any lines, adds exactly that line.
pub proof fn lemma_fold_unfolds(l: Seq<char>, acc: Seq<Seq<char>>)
    requires
        foldable(l),
    ensures
        split_on(fold(l), '\n').len() >= 1,
        split_on(fold(l), '\n').last() == Seq::<char>::empty(),
        unfold_from(acc, split_on(fold(l), '\n').drop_last()) == acc.push(l),
{
    let e0 = fit_from(l, 0, 0, FOLD_LIMIT as nat);
    lemma_fit_from_bounds(l, 0, 0, FOLD_LIMIT as nat);
    let x = if e0 >= l.len() {
        l + seq!['\r']
    } else {
        l.take(e0) + seq!['\r']
    };
    let rest = if e0 >= l.len() {
        Seq::<char>::empty()
    } else {
        fold_rest(l, e0)
    };
    assert(fold(l) =~= x + seq!['\n'] + rest);
    lemma_split_on_newline(x, rest);
    assert(!x.contains('\n')) by {
        if x.contains('\n') {
            let k = choose|k: int| 0 <= k < x.len() && x[k] == '\n';
            if k < x.len() - 1 {
                assert(l[k] == '\n');
            }
        }
    }
    lemma_split_on_no_newline(x);
    let head = if e0 >= l.len() {
        l
    } else {
        l.take(e0)
    };
    assert(strip_cr(x) =~= head);
    assert(head[0] == l[0]);
    let acc2 = unfold_step(acc, x);
    assert(acc2 =~= acc.push(head));
    if e0 >= l.len() {
        assert(split_on(rest, '\n') =~= seq![Seq::<char>::empty()]);
        assert(split_on(fold(l), '\n') =~= seq![x, Seq::<char>::empty()]);
        assert(split_on(fold(l), '\n').drop_last() =~= seq![x]);
        assert(seq![x].drop_last() =~= Seq::<Seq<char>>::empty());
        assert(unfold_from(acc, Seq::<Seq<char>>::empty()) == acc);
        assert(seq![x].last() == x);
        assert(unfold_from(acc, seq![x]) == unfold_step(acc, x));
        assert(acc2 =~= acc.push(l));
    } else {
        lemma_fold_rest_unfolds(l, e0, acc2);
        let r = split_on(rest, '\n');
        assert(split_on(fold(l), '\n') =~= seq![x] + r);
        assert((seq![x] + r).drop_last() =~= seq![x] + r.drop_last());
        lemma_unfold_from_append(acc, seq![x], r.drop_last());
        assert(seq![x].drop_last() =~= Seq::<Seq<char>>::empty());
        assert(unfold_from(acc, Seq::<Seq<char>>::empty()) == acc);
        assert(seq![x].last() == x);
        assert(unfold_from(acc, seq![x]) == acc2);
        assert(acc2.update(acc2.len() - 1, l) =~= acc.push(l));
    }
}

/// Folded lines, split at newlines, unfold to the lines and a final empty one.
proof fn lemma_fold_all_splits(lines: Seq<Seq<char>>)
    requires
        forall|k: int| 0 <= k < lines.len() ==> foldable(#[trigger] lines[k]),
    ensures
        split_on(fold_all(lines), '\n').len() >= 1,
        split_on(fold_all(lines), '\n').last() == Seq::<char>::empty(),
        unfold_from(Seq::empty(), split_on(fold_all(lines), '\n').drop_last()) == lines,
    decreases lines.len(),
{
    if lines.len() == 0 {
        assert(fold_all(lines) =~= Seq::<char>::empty());
        assert(split_on(Seq::<char>::empty(), '\n') =~= seq![Seq::<char>::empty()]);
        assert(seq![Seq::<char>::empty()].drop_last() =~= Seq::<Seq<char>>::empty());
        assert(lines =~= Seq::<Seq<char>>::empty());
    } else {
        let init = lines.drop_last();
        let l = lines.last();
        assert(foldable(lines[lines.len() - 1]));
        lemma_fold_all_splits(init);
        let p = fold_all(init);
        let sp = split_on(p, '\n');
        let f = fold(l);
        lemma_fold_unfolds(l, init);
        let sf = split_on(f, '\n');
        // `p` is empty or ends with a newline: it is `p.drop_last() + "\n"`.
        if p.len() == 0 {
            assert(p + f =~= f);
            assert(sp.drop_last() =~= Seq::<Seq<char>>::empty()) by {
                assert(split_on(p, '\n') =~= seq![Seq::<char>::empty()]);
            }
            assert(split_on(p + f, '\n') =~= sp.drop_last() + sf);
        } else {
            lemma_fold_all_ends_newline(init);
            let q = p.drop_last();
            assert(p =~= q + seq!['\n'] + Seq::<char>::empty());
            lemma_split_on_newline(q, Seq::<char>::empty());
            assert(split_on(Seq::<char>::empty(), '\n') =~= seq![Seq::<char>::empty()]);
            assert(sp.drop_last() =~= split_on(q, '\n'));
            assert(p + f =~= q + seq!['\n'] + f);
            lemma_split_on_newline(q, f);
        }
        assert(fold_all(lines) == p + f);
        let all = split_on(p + f, '\n');
        assert(all =~= sp.drop_last() + sf);
        assert(all.drop_last() =~= sp.drop_last() + sf.drop_last());
        lemma_unfold_from_append(Seq::empty(), sp.drop_last(), sf.drop_last());
        assert(init.push(l) =~= lines);
    }
}

/// Folded lines end with a newline.
proof fn lemma_fold_all_ends_newline(lines: Seq<Seq<char>>)
    requires
        fold_all(lines).len() > 0,
    ensures
        fold_all(lines).last() == '\n',
    decreases lines.len(),
{
    let l = lines.last();
    let e0 = fit_from(l, 0, 0, FOLD_LIMIT as nat);
    lemma_fit_from_bounds(l, 0, 0, FOLD_LIMIT as nat);
    if e0 >= l.len() {
        assert(fold(l).last() == '\n');
    } else {
        lemma_fold_rest_ends_newline(l, e0);
        assert(fold(l) =~= (l.take(e0) + crlf()) + fold_rest(l, e0));
    }
}

proof fn lemma_fold_rest_ends_newline(l: Seq<char>, i: int)
    requires
        0 <= i <= l.len(),
    ensures
        fold_rest(l, i).len() == 0 || fold_rest(l, i).last() == '\n',
    decreases l.len() - i,
{
    if i < l.len() {
        let e = fit_from(l, i, 0, (FOLD_LIMIT - 1) as nat);
        lemma_fit_from_bounds(l, i, 0, (FOLD_LIMIT - 1) as nat);
        lemma_fold_rest_ends_newline(l, e);
        assert(fold_rest(l, i) =~= (seq![' '] + l.subrange(i, e) + crlf()) + fold_rest(l, e));
    }
}

/// Unfolding the folded form of lines gives the lines back.
pub proof fn lemma_unfold_fold_all(lines: Seq<Seq<char>>)
    requires
        forall|k: int| 0 <= k < lines.len() ==> foldable(#[trigger] lines[k]),
    ensures
        spec_unfold(fold_all(lines)) == lines,
{
    lemma_fold_all_splits(lines);
    let s = split_on(fold_all(lines), '\n');
    assert(s.drop_last().push(s.last()) =~= s);
    assert(unfold_from(Seq::empty(), s) == unfold_step(lines, Seq::<char>::empty()));
    assert(strip_cr(Seq::<char>::empty()) =~= Seq::<char>::empty());
    assert(unfold_step(lines, Seq::<char>::empty()) =~= lines.push(Seq::<char>::empty()));
    assert(lines.push(Seq::<char>::empty()).drop_last() =~= lines);
}


/// Escaping writes `c` only where the text has `c`, and never a newline or a carriage
/// return.
pub proof fn lemma_escape_avoids(s: Seq<char>, c: char)
    requires
        c != '\\',
        c != 'n',
        c == '\n' || c == '\r' || !s.contains(c),
    ensures
        !escape(s).contains(c),
    decreases s.len(),
{
    if s.len() > 0 {
        let r = s.skip(1);
        assert(c == '\n' || c == '\r' || !r.contains(c)) by {
            if c != '\n' && c != '\r' && r.contains(c) {
                let k = choose|k: int| 0 <= k < r.len() && r[k] == c;
                assert(s[k + 1] == c);
            }
        }
        lemma_escape_avoids(r, c);
        let e = escape_char(s[0]);
        assert(escape(s) == e + escape(r));
        assert(s[0] == c ==> s.contains(c));
        assert forall|k: int| 0 <= k < escape(s).len() implies escape(s)[k] != c by {
            if k < e.len() {
                assert(escape(s)[k] == e[k]);
            } else {
                assert(escape(s)[k] == escape(r)[k - e.len()]);
            }
        }
    }
}

/// Unescaping an escaped character followed by any text gives the character back.
proof fn lemma_unescape_char(c: char, w: Seq<char>)
    requires
        c != '\r',
    ensures
        unescape(escape_char(c) + w) == seq![c] + unescape(w),
{
    let t = escape_char(c) + w;
    if c == '\\' || c == ',' || c == ';' || c == '\n' {
        assert(t[0] == '\\');
        assert(t.skip(2) =~= w);
    } else {
        assert(t[0] == c);
        assert(t.skip(1) =~= w);
    }
}

/// Unescaping gives back what escaping was given, for a text without carriage returns.
pub proof fn lemma_unescape_escape(s: Seq<char>)
    requires
        !s.contains('\r'),
    ensures
        unescape(escape(s)) == s,
    decreases s.len(),
{
    if s.len() == 0 {
        assert(escape(s) =~= Seq::<char>::empty());
    } else {
        let r = s.skip(1);
        assert(!r.contains('\r')) by {
            if r.contains('\r') {
                let k = choose|k: int| 0 <= k < r.len() && r[k] == '\r';
                assert(s[k + 1] == '\r');
            }
        }
        lemma_unescape_escape(r);
        assert(s[0] != '\r') by {
            if s[0] == '\r' {
                assert(s.contains('\r'));
            }
        }
        lemma_unescape_char(s[0], escape(r));
        assert(seq![s[0]] + r =~= s);
    }
}

/// The first index at or after `i` that holds `c` is `m`, when nothing before it does.
proof fn lemma_find_from_at(s: Seq<char>, i: int, c: char, m: int)
    requires
        0 <= i <= m <= s.len(),
        m < s.len() ==> s[m] == c,
        forall|k: int| i <= k < m ==> s[k] != c,
    ensures
        find_from(s, i, c) == m,
    decreases m - i,
{
    if i < m {
        lemma_find_from_at(s, i + 1, c, m);
    }
}

/// A line made of a name, a colon and a value splits into that name, uppercased, and
/// that value, when the name holds no colon and no semicolon.
pub(crate) proof fn lemma_split_prop_of(name: Seq<char>, w: Seq<char>)
    requires
        !name.contains(':'),
        !name.contains(';'),
    ensures
        spec_split_prop(name + seq![':'] + w) == Some((ascii_upper(name), w)),
{
    let line = name + seq![':'] + w;
    let n = name.len() as int;
    assert forall|k: int| 0 <= k < n implies line[k] != ':' by {
        assert(line[k] == name[k]);
    }
    lemma_find_from_at(line, 0, ':', n);
    let head = line.take(n);
    assert(head =~= name);
    lemma_find_from_at(head, 0, ';', n);
    assert(head.take(n) =~= name);
    assert(line.skip(n + 1) =~= w);
}


/// `lit` is a property name followed by a colon, with a name that is its own uppercase
/// form and holds no colon, semicolon or newline.
pub open spec fn prop_prefix(lit: Seq<char>, name: Seq<char>) -> bool {
    &&& lit == name + seq![':']
    &&& name.len() > 0
    &&& name[0] != ' '
    &&& name[0] != '\t'
    &&& !name.contains(':')
    &&& !name.contains(';')
    &&& !name.contains('\n')
    &&& ascii_upper(name) == name
}

/// A property line of an escaped value splits into its name and the escaped value, can
/// be folded, and its value unescapes to the text.
pub(crate) proof fn lemma_prop_line(lit: Seq<char>, name: Seq<char>, v: Seq<char>)
    requires
        prop_prefix(lit, name),
        !v.contains('\r'),
    ensures
        spec_split_prop(lit + escape(v)) == Some((name, escape(v))),
        foldable(lit + escape(v)),
        unescape(escape(v)) == v,
{
    assert(lit + escape(v) =~= name + seq![':'] + escape(v));
    lemma_split_prop_of(name, escape(v));
    lemma_unescape_escape(v);
    lemma_escape_avoids(v, '\n');
    let l = lit + escape(v);
    assert forall|k: int| 0 <= k < l.len() implies l[k] != '\n' by {
        if k < name.len() {
            assert(l[k] == name[k]);
        } else if k > name.len() {
            assert(l[k] == escape(v)[k - name.len() - 1]);
        }
    }
    assert(l[0] == name[0]);
}

/// Facts about the literals of a vCard.
proof fn lemma_vcard_literals()
    ensures
        prop_prefix("UID:"@, "UID"@),
        prop_prefix("FN:"@, "FN"@),
        prop_prefix("N:"@, "N"@),
        prop_prefix("EMAIL:"@, "EMAIL"@),
        prop_prefix("TEL:"@, "TEL"@),
        prop_prefix("ORG:"@, "ORG"@),
        prop_prefix("NOTE:"@, "NOTE"@),
        spec_split_prop("BEGIN:VCARD"@) == Some(("BEGIN"@, "VCARD"@)),
        spec_split_prop("END:VCARD"@) == Some(("END"@, "VCARD"@)),
        spec_split_prop("VERSION:4.0"@) == Some(("VERSION"@, "4.0"@)),
        foldable("BEGIN:VCARD"@),
        foldable("END:VCARD"@),
        foldable("VERSION:4.0"@),
        is_vcard_value("VCARD"@),
        ";"@ == seq![';'],
        ";;;"@ == seq![';', ';', ';'],
{
    reveal_strlit("UID:");
    reveal_strlit("UID");
    reveal_strlit("FN:");
    reveal_strlit("FN");
    reveal_strlit("N:");
    reveal_strlit("N");
    reveal_strlit("EMAIL:");
    reveal_strlit("EMAIL");
    reveal_strlit("TEL:");
    reveal_strlit("TEL");
    reveal_strlit("ORG:");
    reveal_strlit("ORG");
    reveal_strlit("NOTE:");
    reveal_strlit("NOTE");
    reveal_strlit("BEGIN:VCARD");
    reveal_strlit("BEGIN");
    reveal_strlit("END:VCARD");
    reveal_strlit("END");
    reveal_strlit("VERSION:4.0");
    reveal_strlit("VERSION");
    reveal_strlit("VCARD");
    reveal_strlit("4.0");
    reveal_strlit(";");
    reveal_strlit(";;;");
    assert("UID:"@ =~= "UID"@ + seq![':']);
    assert(ascii_upper("UID"@) =~= "UID"@);
    assert("FN:"@ =~= "FN"@ + seq![':']);
    assert(ascii_upper("FN"@) =~= "FN"@);
    assert("N:"@ =~= "N"@ + seq![':']);
    assert(ascii_upper("N"@) =~= "N"@);
    assert("EMAIL:"@ =~= "EMAIL"@ + seq![':']);
    assert(ascii_upper("EMAIL"@) =~= "EMAIL"@);
    assert("TEL:"@ =~= "TEL"@ + seq![':']);
    assert(ascii_upper("TEL"@) =~= "TEL"@);
    assert("ORG:"@ =~= "ORG"@ + seq![':']);
    assert(ascii_upper("ORG"@) =~= "ORG"@);
    assert("NOTE:"@ =~= "NOTE"@ + seq![':']);
    assert(ascii_upper("NOTE"@) =~= "NOTE"@);
    assert("BEGIN:VCARD"@ =~= "BEGIN"@ + seq![':'] + "VCARD"@);
    assert(ascii_upper("BEGIN"@) =~= "BEGIN"@);
    lemma_split_prop_of("BEGIN"@, "VCARD"@);
    assert("END:VCARD"@ =~= "END"@ + seq![':'] + "VCARD"@);
    assert(ascii_upper("END"@) =~= "END"@);
    lemma_split_prop_of("END"@, "VCARD"@);
    assert("VERSION:4.0"@ =~= "VERSION"@ + seq![':'] + "4.0"@);
    assert(ascii_upper("VERSION"@) =~= "VERSION"@);
    lemma_split_prop_of("VERSION"@, "4.0"@);
    assert(ascii_upper("VCARD"@) =~= "VCARD"@);
}


/// The property names a contact is read from.
pub open spec fn known_name(n: Seq<char>) -> bool {
    ||| n == "VERSION"@
    ||| n == "UID"@
    ||| n == "FN"@
    ||| n == "N"@
    ||| n == "EMAIL"@
    ||| n == "TEL"@
    ||| n == "ORG"@
    ||| n == "NOTE"@
}

proof fn lemma_names_distinct()
    ensures
        "UID"@ != "VERSION"@,
        "FN"@ != "VERSION"@ && "FN"@ != "UID"@,
        "N"@ != "VERSION"@ && "N"@ != "UID"@ && "N"@ != "FN"@,
        "EMAIL"@ != "VERSION"@ && "EMAIL"@ != "UID"@ && "EMAIL"@ != "FN"@ && "EMAIL"@ != "N"@,
        "TEL"@ != "VERSION"@ && "TEL"@ != "UID"@ && "TEL"@ != "FN"@ && "TEL"@ != "N"@
            && "TEL"@ != "EMAIL"@,
        "ORG"@ != "VERSION"@ && "ORG"@ != "UID"@ && "ORG"@ != "FN"@ && "ORG"@ != "N"@
            && "ORG"@ != "EMAIL"@ && "ORG"@ != "TEL"@,
        "NOTE"@ != "VERSION"@ && "NOTE"@ != "UID"@ && "NOTE"@ != "FN"@ && "NOTE"@ != "N"@
            && "NOTE"@ != "EMAIL"@ && "NOTE"@ != "TEL"@ && "NOTE"@ != "ORG"@,
        forall|n: Seq<char>| known_name(n) ==> n != "BEGIN"@ && n != "END"@,
        "END"@ != "BEGIN"@,
{
    reveal_strlit("VERSION");
    reveal_strlit("UID");
    reveal_strlit("FN");
    reveal_strlit("N");
    reveal_strlit("EMAIL");
    reveal_strlit("TEL");
    reveal_strlit("ORG");
    reveal_strlit("NOTE");
    reveal_strlit("BEGIN");
    reveal_strlit("END");
    assert("VERSION"@.len() == 7 && "UID"@.len() == 3 && "FN"@.len() == 2 && "N"@.len() == 1);
    assert("EMAIL"@.len() == 5 && "TEL"@.len() == 3 && "ORG"@.len() == 3 && "NOTE"@.len() == 4);
    assert("BEGIN"@.len() == 5 && "END"@.len() == 3);
    assert("UID"@[0] != "TEL"@[0] && "UID"@[0] != "ORG"@[0] && "TEL"@[0] != "ORG"@[0]);
    assert("EMAIL"@[0] != "BEGIN"@[0]);
    assert("UID"@[0] != "END"@[0] && "TEL"@[0] != "END"@[0] && "ORG"@[0] != "END"@[0]);
}

/// What one unfolded line inside a card does to the contact read so far.
pub open spec fn apply_line(c: ContactView, l: Seq<char>) -> ContactView {
    match spec_split_prop(l) {
        Some((n, v)) => apply_prop(c, n, v, l),
        None => c,
    }
}

/// What unfolded lines inside a card do, one after the other, to the contact read so far.
pub open spec fn apply_lines(c: ContactView, ls: Seq<Seq<char>>) -> ContactView
    decreases ls.len(),
{
    if ls.len() == 0 {
        c
    } else {
        apply_lines(apply_line(c, ls[0]), ls.skip(1))
    }
}

/// A line that neither opens nor closes a card.
pub open spec fn inner_line(l: Seq<char>) -> bool {
    match spec_split_prop(l) {
        Some((n, v)) => !((n == "BEGIN"@ || n == "END"@) && is_vcard_value(v)),
        None => true,
    }
}

/// An extra line that a card gives back as it is: it folds and unfolds unchanged, has a
/// colon, is no property a contact is read from, and neither opens nor closes a card.
pub open spec fn keeps_line(l: Seq<char>) -> bool {
    &&& foldable(l)
    &&& match spec_split_prop(l) {
        Some((n, v)) => !known_name(n),
        None => false,
    }
    &&& inner_line(l)
}

proof fn lemma_apply_lines_append(c: ContactView, a: Seq<Seq<char>>, b: Seq<Seq<char>>)
    ensures
        apply_lines(c, a + b) == apply_lines(apply_lines(c, a), b),
    decreases a.len(),
{
    if a.len() == 0 {
        assert(a + b =~= b);
    } else {
        lemma_apply_lines_append(apply_line(c, a[0]), a.skip(1), b);
        assert((a + b)[0] == a[0]);
        assert((a + b).skip(1) =~= a.skip(1) + b);
    }
}

/// Inside a card, lines that neither open nor close it act one after the other.
proof fn lemma_scan_block(lines: Seq<Seq<char>>, i: int, j: int, c: ContactView)
    requires
        0 <= i <= j <= lines.len(),
        forall|k: int| i <= k < j ==> inner_line(#[trigger] lines[k]),
    ensures
        card_scan(lines, i, true, c) == card_scan(
            lines,
            j,
            true,
            apply_lines(c, lines.subrange(i, j)),
        ),
    decreases j - i,
{
    if i < j {
        assert(inner_line(lines[i]));
        lemma_scan_block(lines, i + 1, j, apply_line(c, lines[i]));
        assert(lines.subrange(i, j)[0] == lines[i]);
        assert(lines.subrange(i, j).skip(1) =~= lines.subrange(i + 1, j));
    } else {
        assert(lines.subrange(i, j) =~= Seq::<Seq<char>>::empty());
    }
}


/// No text of the sequence holds a carriage return.
pub open spec fn no_cr_all(vs: Seq<Seq<char>>) -> bool {
    forall|k: int| 0 <= k < vs.len() ==> !(#[trigger] vs[k]).contains('\r')
}

/// A property line of an escaped value neither opens nor closes a card, and folds.
proof fn lemma_prop_line_inner(lit: Seq<char>, name: Seq<char>, v: Seq<char>)
    requires
        prop_prefix(lit, name),
        known_name(name),
        !v.contains('\r'),
    ensures
        inner_line(lit + escape(v)),
        foldable(lit + escape(v)),
        spec_split_prop(lit + escape(v)) == Some((name, escape(v))),
        unescape(escape(v)) == v,
{
    lemma_prop_line(lit, name, v);
    lemma_names_distinct();
}

/// Email lines, read in a card, add their addresses in order.
proof fn lemma_apply_emails(c: ContactView, vs: Seq<Seq<char>>)
    requires
        no_cr_all(vs),
    ensures
        apply_lines(c, prop_lines("EMAIL:"@, vs)) == (ContactView { emails: c.emails + vs, ..c }),
        forall|k: int|
            0 <= k < vs.len() ==> inner_line(#[trigger] prop_lines("EMAIL:"@, vs)[k]) && foldable(
                prop_lines("EMAIL:"@, vs)[k],
            ),
    decreases vs.len(),
{
    lemma_vcard_literals();
    lemma_names_distinct();
    let ls = prop_lines("EMAIL:"@, vs);
    assert forall|k: int| 0 <= k < vs.len() implies inner_line(#[trigger] ls[k]) && foldable(
        ls[k],
    ) by {
        lemma_prop_line_inner("EMAIL:"@, "EMAIL"@, vs[k]);
    }
    if vs.len() == 0 {
        assert(c.emails + vs =~= c.emails);
    } else {
        lemma_prop_line_inner("EMAIL:"@, "EMAIL"@, vs[0]);
        let c1 = apply_line(c, ls[0]);
        assert(c1 == ContactView { emails: c.emails.push(vs[0]), ..c });
        lemma_apply_emails(c1, vs.skip(1));
        assert(ls.skip(1) =~= prop_lines("EMAIL:"@, vs.skip(1)));
        assert(c.emails.push(vs[0]) + vs.skip(1) =~= c.emails + vs);
    }
}

/// Telephone lines, read in a card, add their numbers in order.
proof fn lemma_apply_phones(c: ContactView, vs: Seq<Seq<char>>)
    requires
        no_cr_all(vs),
    ensures
        apply_lines(c, prop_lines("TEL:"@, vs)) == (ContactView { phones: c.phones + vs, ..c }),
        forall|k: int|
            0 <= k < vs.len() ==> inner_line(#[trigger] prop_lines("TEL:"@, vs)[k]) && foldable(
                prop_lines("TEL:"@, vs)[k],
            ),
    decreases vs.len(),
{
    lemma_vcard_literals();
    lemma_names_distinct();
    let ls = prop_lines("TEL:"@, vs);
    assert forall|k: int| 0 <= k < vs.len() implies inner_line(#[trigger] ls[k]) && foldable(
        ls[k],
    ) by {
        lemma_prop_line_inner("TEL:"@, "TEL"@, vs[k]);
    }
    if vs.len() == 0 {
        assert(c.phones + vs =~= c.phones);
    } else {
        lemma_prop_line_inner("TEL:"@, "TEL"@, vs[0]);
        let c1 = apply_line(c, ls[0]);
        assert(c1 == ContactView { phones: c.phones.push(vs[0]), ..c });
        lemma_apply_phones(c1, vs.skip(1));
        assert(ls.skip(1) =~= prop_lines("TEL:"@, vs.skip(1)));
        assert(c.phones.push(vs[0]) + vs.skip(1) =~= c.phones + vs);
    }
}

/// Extra lines, read in a card, are kept in order.
proof fn lemma_apply_extra(c: ContactView, ls: Seq<Seq<char>>)
    requires
        forall|k: int| 0 <= k < ls.len() ==> keeps_line(#[trigger] ls[k]),
    ensures
        apply_lines(c, ls) == (ContactView { extra: c.extra + ls, ..c }),
    decreases ls.len(),
{
    if ls.len() == 0 {
        assert(c.extra + ls =~= c.extra);
    } else {
        assert(keeps_line(ls[0]));
        let c1 = apply_line(c, ls[0]);
        assert(c1 == ContactView { extra: c.extra.push(ls[0]), ..c });
        lemma_apply_extra(c1, ls.skip(1));
        assert(c.extra.push(ls[0]) + ls.skip(1) =~= c.extra + ls);
    }
}


/// A name part that survives the `N` property: absent, or a nonempty text without
/// semicolons and carriage returns.
pub open spec fn name_part_ok(o: Option<Seq<char>>) -> bool {
    match o {
        Some(t) => t.len() > 0 && !t.contains(';') && !t.contains('\r'),
        None => true,
    }
}

/// An optional text without carriage returns.
pub open spec fn opt_no_cr(o: Option<Seq<char>>) -> bool {
    match o {
        Some(t) => !t.contains('\r'),
        None => true,
    }
}

/// The value of the `N` line of a family and a given name.
pub open spec fn n_value(fam: Seq<char>, giv: Seq<char>) -> Seq<char> {
    escape(fam) + ";"@ + escape(giv) + ";;;"@
}

/// The `N` line reads back as the two name parts, each kept when it is not empty.
proof fn lemma_n_line(fam: Seq<char>, giv: Seq<char>)
    requires
        !fam.contains(';'),
        !fam.contains('\r'),
        !giv.contains(';'),
        !giv.contains('\r'),
    ensures
        spec_split_prop("N:"@ + n_value(fam, giv)) == Some(("N"@, n_value(fam, giv))),
        inner_line("N:"@ + n_value(fam, giv)),
        foldable("N:"@ + n_value(fam, giv)),
        n_family(n_value(fam, giv)) == nonempty_text(fam),
        n_given(n_value(fam, giv)) == nonempty_text(giv),
{
    lemma_vcard_literals();
    lemma_names_distinct();
    let ef = escape(fam);
    let eg = escape(giv);
    let w = n_value(fam, giv);
    assert(w =~= ef + seq![';'] + eg + seq![';', ';', ';']);
    lemma_escape_avoids(fam, ';');
    lemma_escape_avoids(giv, ';');
    lemma_escape_avoids(fam, '\n');
    lemma_escape_avoids(giv, '\n');
    lemma_unescape_escape(fam);
    lemma_unescape_escape(giv);
    let line = "N:"@ + w;
    reveal_strlit("N:");
    reveal_strlit("N");
    assert(known_name("N"@));
    assert(line =~= "N"@ + seq![':'] + w);
    lemma_split_prop_of("N"@, w);
    assert forall|k: int| 0 <= k < line.len() implies line[k] != '\n' by {
        if 2 <= k < 2 + ef.len() {
            assert(line[k] == ef[k - 2]);
        } else if 3 + ef.len() <= k < 3 + ef.len() + eg.len() {
            assert(line[k] == eg[k - 3 - ef.len()]);
        }
    }
    assert(line[0] == "N"@[0]);
    assert forall|k: int| 0 <= k < ef.len() implies w[k] != ';' by {
        assert(w[k] == ef[k]);
    }
    lemma_find_from_at(w, 0, ';', ef.len() as int);
    assert(w.take(ef.len() as int) =~= ef);
    let rest = w.skip(ef.len() as int + 1);
    assert(rest =~= eg + seq![';', ';', ';']);
    assert forall|k: int| 0 <= k < eg.len() implies rest[k] != ';' by {
        assert(rest[k] == eg[k]);
    }
    lemma_find_from_at(rest, 0, ';', eg.len() as int);
    assert(rest.take(eg.len() as int) =~= eg);
}

/// The first three property lines of a card: its version, uid and formatted name.
pub open spec fn header_lines(uid: Seq<char>, fname: Seq<char>) -> Seq<Seq<char>> {
    seq!["VERSION:4.0"@, "UID:"@ + escape(uid), "FN:"@ + escape(fname)]
}

proof fn lemma_apply_header(c: ContactView, uid: Seq<char>, fname: Seq<char>)
    requires
        !uid.contains('\r'),
        !fname.contains('\r'),
    ensures
        apply_lines(c, header_lines(uid, fname)) == (ContactView {
            uid: uid,
            formatted_name: fname,
            ..c
        }),
        forall|k: int|
            0 <= k < 3 ==> inner_line(#[trigger] header_lines(uid, fname)[k]) && foldable(
                header_lines(uid, fname)[k],
            ),
{
    lemma_vcard_literals();
    lemma_names_distinct();
    lemma_prop_line_inner("UID:"@, "UID"@, uid);
    lemma_prop_line_inner("FN:"@, "FN"@, fname);
    let h = header_lines(uid, fname);
    assert(known_name("VERSION"@));
    assert(h[0] == "VERSION:4.0"@);
    assert(h[1] == "UID:"@ + escape(uid));
    assert(h[2] == "FN:"@ + escape(fname));
    let s1 = h.skip(1);
    let s2 = s1.skip(1);
    let s3 = s2.skip(1);
    assert(s1[0] == h[1] && s1.len() == 2);
    assert(s2[0] == h[2] && s2.len() == 1);
    assert(s3.len() == 0);
    let c1 = apply_line(c, h[0]);
    assert(c1 == c);
    let c2 = apply_line(c1, h[1]);
    assert(c2 == ContactView { uid: uid, ..c });
    let c3 = apply_line(c2, h[2]);
    assert(apply_lines(c2, s2) == apply_lines(c3, s3));
    assert(apply_lines(c1, s1) == apply_lines(c2, s2));
    assert(apply_lines(c, h) == apply_lines(c1, s1));
}


/// A one-line block of an optional property, or no line.
pub open spec fn opt_block(lit: Seq<char>, o: Option<Seq<char>>) -> Seq<Seq<char>> {
    match o {
        Some(t) => seq![lit + escape(t)],
        None => Seq::empty(),
    }
}

/// The `N` line of a contact, when it has a name part.
pub open spec fn name_block(c: ContactView) -> Seq<Seq<char>> {
    if c.family_name is Some || c.given_name is Some {
        seq!["N:"@ + n_value(text_or_empty(c.family_name), text_or_empty(c.given_name))]
    } else {
        Seq::empty()
    }
}

/// The property lines of a card, between its `BEGIN` and `END` lines.
pub open spec fn card_body(c: ContactView, uid: Seq<char>) -> Seq<Seq<char>> {
    header_lines(uid, c.formatted_name) + name_block(c) + prop_lines("EMAIL:"@, c.emails)
        + prop_lines("TEL:"@, c.phones) + opt_block("ORG:"@, c.org) + opt_block(
        "NOTE:"@,
        c.note,
    ) + c.extra
}

/// Every line neither opens nor closes a card, and folds.
pub open spec fn all_inner(ls: Seq<Seq<char>>) -> bool {
    forall|k: int| 0 <= k < ls.len() ==> inner_line(#[trigger] ls[k]) && foldable(ls[k])
}

/// A contact whose vCard reads back as the same contact, whatever uid it is written
/// with: texts without carriage returns (escaping drops them), name parts that are
/// absent or nonempty and without semicolons, and extra lines that are kept as they are.
pub open spec fn vcard_faithful(c: ContactView) -> bool {
    &&& !c.formatted_name.contains('\r')
    &&& name_part_ok(c.family_name)
    &&& name_part_ok(c.given_name)
    &&& no_cr_all(c.emails)
    &&& no_cr_all(c.phones)
    &&& opt_no_cr(c.org)
    &&& opt_no_cr(c.note)
    &&& forall|k: int| 0 <= k < c.extra.len() ==> keeps_line(#[trigger] c.extra[k])
}

proof fn lemma_all_inner_concat(a: Seq<Seq<char>>, b: Seq<Seq<char>>)
    requires
        all_inner(a),
        all_inner(b),
    ensures
        all_inner(a + b),
{
    assert forall|k: int| 0 <= k < (a + b).len() implies inner_line(#[trigger] (a + b)[k])
        && foldable((a + b)[k]) by {
        if k < a.len() {
            assert((a + b)[k] == a[k]);
        } else {
            assert((a + b)[k] == b[k - a.len()]);
        }
    }
}

/// An optional property, read in a card, is set to its text.
proof fn lemma_apply_opt(c: ContactView, lit: Seq<char>, name: Seq<char>, o: Option<Seq<char>>)
    requires
        prop_prefix(lit, name),
        known_name(name),
        opt_no_cr(o),
    ensures
        all_inner(opt_block(lit, o)),
        o is Some ==> apply_lines(c, opt_block(lit, o)) == apply_line(c, lit + escape(o->0)),
        o is Some ==> spec_split_prop(lit + escape(o->0)) == Some((name, escape(o->0))),
        o is Some ==> unescape(escape(o->0)) == o->0,
        o is None ==> apply_lines(c, opt_block(lit, o)) == c,
{
    match o {
        Some(t) => {
            lemma_prop_line_inner(lit, name, t);
            let b = opt_block(lit, o);
            assert(b.skip(1) =~= Seq::<Seq<char>>::empty());
            assert(b[0] == lit + escape(t));
            let c1 = apply_line(c, b[0]);
            assert(apply_lines(c1, b.skip(1)) == c1);
            assert(apply_lines(c, b) == apply_lines(c1, b.skip(1)));
        },
        None => {},
    }
}

/// The property lines of a card, read from an empty contact, give the contact with the
/// uid it was written with.
proof fn lemma_apply_body(c: ContactView, uid: Seq<char>)
    requires
        vcard_faithful(c),
        !uid.contains('\r'),
    ensures
        apply_lines(empty_contact(), card_body(c, uid)) == (ContactView { uid: uid, ..c }),
        all_inner(card_body(c, uid)),
{
    lemma_vcard_literals();
    lemma_names_distinct();
    let hb = header_lines(uid, c.formatted_name);
    let nb = name_block(c);
    let eb = prop_lines("EMAIL:"@, c.emails);
    let tb = prop_lines("TEL:"@, c.phones);
    let ob = opt_block("ORG:"@, c.org);
    let ntb = opt_block("NOTE:"@, c.note);
    let xb = c.extra;
    let c0 = empty_contact();
    lemma_apply_header(c0, uid, c.formatted_name);
    let c1 = apply_lines(c0, hb);
    let c2 = apply_lines(c1, nb);
    if nb.len() > 0 {
        let f = text_or_empty(c.family_name);
        let g = text_or_empty(c.given_name);
        lemma_n_line(f, g);
        assert(nb.skip(1) =~= Seq::<Seq<char>>::empty());
        assert(known_name("N"@));
        let d = apply_line(c1, nb[0]);
        assert(apply_lines(d, nb.skip(1)) == d);
        assert(c2 == apply_lines(d, nb.skip(1)));
        assert(nonempty_text(f) == c.family_name);
        assert(nonempty_text(g) == c.given_name);
    }
    assert(c2 == ContactView {
        uid: uid,
        formatted_name: c.formatted_name,
        family_name: c.family_name,
        given_name: c.given_name,
        ..c0
    });
    lemma_apply_emails(c2, c.emails);
    let c3 = apply_lines(c2, eb);
    assert(c0.emails + c.emails =~= c.emails);
    lemma_apply_phones(c3, c.phones);
    let c4 = apply_lines(c3, tb);
    assert(c0.phones + c.phones =~= c.phones);
    assert(known_name("ORG"@) && known_name("NOTE"@));
    lemma_apply_opt(c4, "ORG:"@, "ORG"@, c.org);
    let c5 = apply_lines(c4, ob);
    lemma_apply_opt(c5, "NOTE:"@, "NOTE"@, c.note);
    let c6 = apply_lines(c5, ntb);
    lemma_apply_extra(c6, xb);
    let c7 = apply_lines(c6, xb);
    assert(c0.extra + c.extra =~= c.extra);
    assert(c7 == ContactView { uid: uid, ..c });
    lemma_apply_lines_append(c0, hb, nb);
    lemma_apply_lines_append(c0, hb + nb, eb);
    lemma_apply_lines_append(c0, hb + nb + eb, tb);
    lemma_apply_lines_append(c0, hb + nb + eb + tb, ob);
    lemma_apply_lines_append(c0, hb + nb + eb + tb + ob, ntb);
    lemma_apply_lines_append(c0, hb + nb + eb + tb + ob + ntb, xb);
    // every line neither opens nor closes the card, and folds
    assert(all_inner(hb));
    if nb.len() > 0 {
        lemma_n_line(text_or_empty(c.family_name), text_or_empty(c.given_name));
    }
    assert(all_inner(nb));
    assert(all_inner(eb));
    assert(all_inner(tb));
    assert(all_inner(xb));
    lemma_all_inner_concat(hb, nb);
    lemma_all_inner_concat(hb + nb, eb);
    lemma_all_inner_concat(hb + nb + eb, tb);
    lemma_all_inner_concat(hb + nb + eb + tb, ob);
    lemma_all_inner_concat(hb + nb + eb + tb + ob, ntb);
    lemma_all_inner_concat(hb + nb + eb + tb + ob + ntb, xb);
}


/// A vCard written with any uid without carriage returns reads back as the contact it
/// was written from, with that uid.
#[verifier::spinoff_prover]
#[verifier::rlimit(40)]
pub proof fn lemma_vcard_reads_back(c: ContactView, uid: Seq<char>)
    requires
        vcard_faithful(c),
        !uid.contains('\r'),
    ensures
        spec_from_vcard(vcard_text(c, uid)) == Some(ContactView { uid: uid, ..c }),
{
    lemma_vcard_literals();
    lemma_names_distinct();
    lemma_apply_body(c, uid);
    let body = card_body(c, uid);
    let b = "BEGIN:VCARD"@;
    let e = "END:VCARD"@;
    let lines = contact_lines(c, uid);
    let f = text_or_empty(c.family_name);
    let g = text_or_empty(c.given_name);
    assert("N:"@ + escape(f) + ";"@ + escape(g) + ";;;"@ =~= "N:"@ + n_value(f, g));
    let nb = if c.family_name is Some || c.given_name is Some {
        seq!["N:"@ + escape(f) + ";"@ + escape(g) + ";;;"@]
    } else {
        Seq::empty()
    };
    assert(nb =~= name_block(c));
    let ob = match c.org {
        Some(o) => seq!["ORG:"@ + escape(o)],
        None => Seq::empty(),
    };
    assert(ob =~= opt_block("ORG:"@, c.org));
    let ntb = match c.note {
        Some(o) => seq!["NOTE:"@ + escape(o)],
        None => Seq::empty(),
    };
    assert(ntb =~= opt_block("NOTE:"@, c.note));
    let hd = seq![b, "VERSION:4.0"@, "UID:"@ + escape(uid), "FN:"@ + escape(c.formatted_name)];
    assert(lines == hd + nb + prop_lines("EMAIL:"@, c.emails) + prop_lines("TEL:"@, c.phones)
        + ob + ntb + c.extra + seq![e]);
    assert(hd =~= seq![b] + header_lines(uid, c.formatted_name));
    assert(lines =~= seq![b] + body + seq![e]);
    let n = body.len() as int;
    assert forall|k: int| 0 <= k < lines.len() implies foldable(#[trigger] lines[k]) by {
        if 1 <= k <= n {
            assert(lines[k] == body[k - 1]);
        }
    }
    lemma_unfold_fold_all(lines);
    assert(spec_unfold(vcard_text(c, uid)) == lines);
    let c0 = empty_contact();
    assert(lines[0] == b);
    assert(card_scan(lines, 0, false, c0) == card_scan(lines, 1, true, c0));
    assert forall|k: int| 1 <= k < 1 + n implies inner_line(#[trigger] lines[k]) by {
        assert(lines[k] == body[k - 1]);
    }
    lemma_scan_block(lines, 1, 1 + n, c0);
    assert(lines.subrange(1, 1 + n) =~= body);
    assert(lines[1 + n] == e);
    assert(card_scan(lines, 1 + n, true, ContactView { uid: uid, ..c }) == (
        true,
        ContactView { uid: uid, ..c },
    ));
}

/// A contact with a uid reads back from its vCard as itself: what `Contact::from_vcard`
/// gives on the text of `Contact::to_vcard`.
pub proof fn lemma_contact_vcard_round_trip(c: ContactView)
    requires
        vcard_faithful(c),
        c.uid.len() > 0,
        !c.uid.contains('\r'),
    ensures
        spec_from_vcard(vcard_text(c, c.uid)) == Some(c),
{
    lemma_vcard_reads_back(c, c.uid);
    assert(ContactView { uid: c.uid, ..c } == c);
}

/// Physical lines joined, each ended by CRLF.
pub open spec fn crlf_joined(pieces: Seq<Seq<char>>) -> Seq<char>
    decreases pieces.len(),
{
    if pieces.len() == 0 {
        Seq::empty()
    } else {
        pieces[0] + crlf() + crlf_joined(pieces.skip(1))
    }
}

/// The text that continuation lines carry: each without its leading space.
pub open spec fn continued_text(pieces: Seq<Seq<char>>) -> Seq<char>
    decreases pieces.len(),
{
    if pieces.len() == 0 {
        Seq::empty()
    } else {
        pieces[0].skip(1) + continued_text(pieces.skip(1))
    }
}

/// Whether a text holds no line break character.
pub open spec fn no_break(t: Seq<char>) -> bool {
    forall|j: int| 0 <= j < t.len() ==> t[j] != '\r' && t[j] != '\n'
}

/// The characters that fit from `i` take, with `used`, at most `budget` UTF-8 bytes.
proof fn lemma_fit_from_bytes(s: Seq<char>, i: int, used: nat, budget: nat)
    requires
        0 <= i <= s.len(),
        used <= budget,
    ensures
        used + utf8_len(s.subrange(i, fit_from(s, i, used, budget))) <= budget,
    decreases s.len() - i,
{
    lemma_fit_from_bounds(s, i, used, budget);
    if i < s.len() && used + char_utf8_len(s[i]) <= budget {
        let c = char_utf8_len(s[i]);
        lemma_fit_from_bytes(s, i + 1, used + c, budget);
        lemma_fit_from_bounds(s, i + 1, used + c, budget);
        let e = fit_from(s, i + 1, used + c, budget);
        lemma_encode_utf8_append(seq![s[i]], s.subrange(i + 1, e));
        assert(s.subrange(i, e) =~= seq![s[i]] + s.subrange(i + 1, e));
        lemma_utf8_len_push(Seq::<char>::empty(), s[i]);
        assert(Seq::<char>::empty().push(s[i]) =~= seq![s[i]]);
        assert(utf8_len(Seq::<char>::empty()) == 0) by {
            assert(vstd::utf8::encode_utf8(Seq::<char>::empty()) =~= Seq::<u8>::empty());
        }
    } else {
        assert(s.subrange(i, i) =~= Seq::<char>::empty());
        assert(vstd::utf8::encode_utf8(Seq::<char>::empty()) =~= Seq::<u8>::empty());
    }
}

/// A space followed by a text takes one UTF-8 byte more than the text.
proof fn lemma_space_bytes(t: Seq<char>)
    ensures
        utf8_len(seq![' '] + t) == 1 + utf8_len(t),
{
    lemma_encode_utf8_append(seq![' '], t);
    lemma_utf8_len_push(Seq::<char>::empty(), ' ');
    assert(Seq::<char>::empty().push(' ') =~= seq![' ']);
    assert(vstd::utf8::encode_utf8(Seq::<char>::empty()) =~= Seq::<u8>::empty());
    assert(char_utf8_len(' ') == 1);
}

/// The continuation lines of a folded line from `i` on, each ended by CRLF: each takes
/// at most 75 UTF-8 bytes, starts with a space that one character at least follows, and
/// without their spaces they carry the line's characters from `i` on.
proof fn lemma_fold_rest_lines(s: Seq<char>, i: int) -> (pieces: Seq<Seq<char>>)
    requires
        0 <= i <= s.len(),
    ensures
        fold_rest(s, i) == crlf_joined(pieces),
        forall|k: int|
            0 <= k < pieces.len() ==> utf8_len(#[trigger] pieces[k]) <= FOLD_LIMIT && pieces[k].len()
                >= 2 && pieces[k][0] == ' ',
        continued_text(pieces) == s.subrange(i, s.len() as int),
        no_break(s) ==> forall|k: int| 0 <= k < pieces.len() ==> no_break(#[trigger] pieces[k]),
    decreases s.len() - i,
{
    if i >= s.len() {
        assert(s.subrange(i, s.len() as int) =~= Seq::<char>::empty());
        Seq::empty()
    } else {
        let e = fit_from(s, i, 0, (FOLD_LIMIT - 1) as nat);
        lemma_fit_from_bounds(s, i, 0, (FOLD_LIMIT - 1) as nat);
        lemma_fit_from_bytes(s, i, 0, (FOLD_LIMIT - 1) as nat);
        let rest = lemma_fold_rest_lines(s, e);
        let sub = s.subrange(i, e);
        let p = seq![' '] + sub;
        lemma_space_bytes(sub);
        let pieces = seq![p] + rest;
        assert(pieces.skip(1) =~= rest);
        assert(pieces[0] == p);
        assert(p.skip(1) =~= sub);
        assert(fold_rest(s, i) == p + crlf() + fold_rest(s, e));
        assert(sub + s.subrange(e, s.len() as int) =~= s.subrange(i, s.len() as int));
        assert forall|k: int| 0 <= k < pieces.len() implies utf8_len(#[trigger] pieces[k])
            <= FOLD_LIMIT && pieces[k].len() >= 2 && pieces[k][0] == ' ' by {
            if k > 0 {
                assert(pieces[k] == rest[k - 1]);
            }
        }
        if no_break(s) {
            assert forall|k: int| 0 <= k < pieces.len() implies no_break(#[trigger] pieces[k]) by {
                if k > 0 {
                    assert(pieces[k] == rest[k - 1]);
                } else {
                    assert forall|j: int| 0 <= j < p.len() implies p[j] != '\r' && p[j] != '\n' by {
                        if j > 0 {
                            assert(p[j] == s[i + j - 1]);
                        }
                    }
                }
            }
        }
        pieces
    }
}

/// A folded content line is physical lines each ended by CRLF, each of at most 75 UTF-8
/// bytes (characters are never split); every line after the first starts with a space
/// that one character at least follows, and the first line and the continuations
/// without their spaces give the content line back. A content line without line
/// breaks gives physical lines without line breaks.
pub proof fn lemma_fold_lines(s: Seq<char>) -> (pieces: Seq<Seq<char>>)
    ensures
        pieces.len() >= 1,
        fold(s) == crlf_joined(pieces),
        forall|k: int| 0 <= k < pieces.len() ==> utf8_len(#[trigger] pieces[k]) <= FOLD_LIMIT,
        forall|k: int|
            1 <= k < pieces.len() ==> (#[trigger] pieces[k]).len() >= 2 && pieces[k][0] == ' ',
        pieces[0] + continued_text(pieces.skip(1)) == s,
        no_break(s) ==> forall|k: int| 0 <= k < pieces.len() ==> no_break(#[trigger] pieces[k]),
{
    let e = fit_from(s, 0, 0, FOLD_LIMIT as nat);
    lemma_fit_from_bounds(s, 0, 0, FOLD_LIMIT as nat);
    lemma_fit_from_bytes(s, 0, 0, FOLD_LIMIT as nat);
    if e >= s.len() {
        let pieces = seq![s];
        assert(s.subrange(0, e) =~= s);
        assert(pieces.skip(1) =~= Seq::<Seq<char>>::empty());
        assert(crlf_joined(pieces.skip(1)) =~= Seq::<char>::empty());
        assert(continued_text(pieces.skip(1)) =~= Seq::<char>::empty());
        assert(fold(s) =~= crlf_joined(pieces));
        assert(pieces[0] + continued_text(pieces.skip(1)) =~= s);
        pieces
    } else {
        let rest = lemma_fold_rest_lines(s, e);
        let first = s.take(e);
        assert(s.subrange(0, e) =~= first);
        let pieces = seq![first] + rest;
        assert(pieces.skip(1) =~= rest);
        assert(pieces[0] == first);
        assert(fold(s) == first + crlf() + fold_rest(s, e));
        assert(first + s.subrange(e, s.len() as int) =~= s);
        assert forall|k: int| 1 <= k < pieces.len() implies (#[trigger] pieces[k]).len() >= 2
            && pieces[k][0] == ' ' by {
            assert(pieces[k] == rest[k - 1]);
        }
        assert forall|k: int| 0 <= k < pieces.len() implies utf8_len(#[trigger] pieces[k])
            <= FOLD_LIMIT by {
            if k > 0 {
                assert(pieces[k] == rest[k - 1]);
            }
        }
        if no_break(s) {
            assert forall|k: int| 0 <= k < pieces.len() implies no_break(#[trigger] pieces[k]) by {
                if k > 0 {
                    assert(pieces[k] == rest[k - 1]);
                } else {
                    assert forall|j: int| 0 <= j < first.len() implies first[j] != '\r'
                        && first[j] != '\n' by {
                        assert(first[j] == s[j]);
                    }
                }
            }
        }
        pieces
    }
}

} // verus!
