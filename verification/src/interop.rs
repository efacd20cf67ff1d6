use vstd::prelude::*;
use vstd::string::*;

use crate::links::{exec_find_from, find_from, lemma_find_from_bounds};
use crate::ids::{random_id, uuid_text, uuid_to_string};
use crate::models::Resource;
use crate::text::{
    char_utf8_len, char_width, chars_of, lemma_split_on_step, push_char, split_on, string_of,
};

verus! {

/// MIME type of stored contacts.
pub const MIME_VCARD: &'static str = "text/vcard";

/// MIME type of stored events and to-dos.
pub const MIME_ICALENDAR: &'static str = "text/calendar";

/// What one character becomes in an escaped property value.
pub open spec fn escape_char(c: char) -> Seq<char> {
    if c == '\\' {
        seq!['\\', '\\']
    } else if c == ',' {
        seq!['\\', ',']
    } else if c == ';' {
        seq!['\\', ';']
    } else if c == '\n' {
        seq!['\\', 'n']
    } else if c == '\r' {
        Seq::empty()
    } else {
        seq![c]
    }
}

/// A text escaped for a vCard/iCalendar property value: backslash, comma and semicolon
/// get a backslash, a newline becomes `\n`, a carriage return is dropped.
pub open spec fn escape(s: Seq<char>) -> Seq<char>
    decreases s.len(),
{
    if s.len() == 0 {
        Seq::empty()
    } else {
        escape_char(s[0]) + escape(s.skip(1))
    }
}

/// A property value with its escapes undone: `\n` or `\N` is a newline, a backslash
/// before any other character stands for that character, a final lone backslash stays.
pub open spec fn unescape(s: Seq<char>) -> Seq<char>
    decreases s.len(),
{
    if s.len() == 0 {
        Seq::empty()
    } else if s[0] == '\\' {
        if s.len() == 1 {
            seq!['\\']
        } else {
            (if s[1] == 'n' || s[1] == 'N' {
                seq!['\n']
            } else {
                seq![s[1]]
            }) + unescape(s.skip(2))
        }
    } else {
        seq![s[0]] + unescape(s.skip(1))
    }
}

/// Appends the escaped form of `s` to `out`.
pub fn escape_into(s: &[char], out: &mut Vec<char>)
    ensures
        final(out)@ == old(out)@ + escape(s@),
{
    let mut i: usize = 0;
    assert(s@.skip(0) =~= s@);
    while i < s.len()
        invariant
            0 <= i <= s@.len(),
            out@ + escape(s@.skip(i as int)) == old(out)@ + escape(s@),
        decreases s@.len() - i,
    {
        let ghost before = out@;
        let c = s[i];
        assert(s@.skip(i as int).skip(1) =~= s@.skip(i + 1));
        assert(s@.skip(i as int)[0] == c);
        if c == '\\' {
            out.push('\\');
            out.push('\\');
        } else if c == ',' {
            out.push('\\');
            out.push(',');
        } else if c == ';' {
            out.push('\\');
            out.push(';');
        } else if c == '\n' {
            out.push('\\');
            out.push('n');
        } else if c == '\r' {
        } else {
            out.push(c);
        }
        assert(out@ =~= before + escape_char(c));
        assert(out@ + escape(s@.skip(i + 1)) =~= before + escape(s@.skip(i as int)));
        i = i + 1;
    }
    assert(out@ =~= out@ + escape(s@.skip(i as int)));
}

/// Escapes a text for a property value.
pub fn escape_text(s: &str) -> (r: String)
    ensures
        r@ == escape(s@),
{
    let cs = chars_of(s);
    let mut out: Vec<char> = Vec::new();
    escape_into(cs.as_slice(), &mut out);
    string_of(out.as_slice())
}

/// Undoes the escapes of a property value.
pub fn unescape_chars(s: &[char]) -> (r: Vec<char>)
    ensures
        r@ == unescape(s@),
{
    let mut out: Vec<char> = Vec::new();
    let mut i: usize = 0;
    assert(s@.skip(0) =~= s@);
    assert(out@ + unescape(s@) =~= unescape(s@));
    while i < s.len()
        invariant
            0 <= i <= s@.len(),
            out@ + unescape(s@.skip(i as int)) == unescape(s@),
        decreases s@.len() - i,
    {
        let ghost before = out@;
        let ghost rest = s@.skip(i as int);
        if s[i] == '\\' {
            if i + 1 == s.len() {
                out.push('\\');
                assert(rest =~= seq!['\\']);
                assert(s@.skip(i + 1) =~= Seq::<char>::empty());
                assert(out@ + unescape(s@.skip(i + 1)) =~= before + unescape(rest));
                i = i + 1;
            } else {
                let n = s[i + 1];
                if n == 'n' || n == 'N' {
                    out.push('\n');
                } else {
                    out.push(n);
                }
                assert(rest.skip(2) =~= s@.skip(i + 2));
                assert(rest[1] == n);
                assert(out@ + unescape(s@.skip(i + 2)) =~= before + unescape(rest));
                i = i + 2;
            }
        } else {
            out.push(s[i]);
            assert(rest.skip(1) =~= s@.skip(i + 1));
            assert(out@ + unescape(s@.skip(i + 1)) =~= before + unescape(rest));
            i = i + 1;
        }
    }
    assert(out@ =~= out@ + unescape(s@.skip(i as int)));
    out
}

/// Undoes the escapes of a property value.
pub fn unescape_text(s: &str) -> (r: String)
    ensures
        r@ == unescape(s@),
{
    let cs = chars_of(s);
    let out = unescape_chars(cs.as_slice());
    string_of(out.as_slice())
}

/// A character with ASCII lowercase letters made uppercase.
pub open spec fn upper_char(c: char) -> char {
    if 'a' <= c <= 'z' {
        ((c as u32) - 32) as char
    } else {
        c
    }
}

/// A sequence with its ASCII lowercase letters made uppercase.
pub open spec fn ascii_upper(s: Seq<char>) -> Seq<char> {
    s.map_values(|c: char| upper_char(c))
}

/// `s[lo..hi]` with its ASCII letters made uppercase.
pub fn upper_range(s: &[char], lo: usize, hi: usize) -> (r: Vec<char>)
    requires
        lo <= hi <= s@.len(),
    ensures
        r@ == ascii_upper(s@.subrange(lo as int, hi as int)),
{
    let mut out: Vec<char> = Vec::new();
    let mut i: usize = lo;
    while i < hi
        invariant
            lo <= i <= hi <= s@.len(),
            out@ == ascii_upper(s@.subrange(lo as int, i as int)),
        decreases hi - i,
    {
        let c = s[i];
        let u = if 'a' <= c && c <= 'z' {
            ((c as u8) - 32) as char
        } else {
            c
        };
        out.push(u);
        assert(ascii_upper(s@.subrange(lo as int, i + 1)) =~= ascii_upper(
            s@.subrange(lo as int, i as int),
        ).push(upper_char(c)));
        i = i + 1;
    }
    out
}

/// A content line split at its first colon: the property name (before any `;`
/// parameters, uppercased) and the value after the colon. `None` without a colon.
pub open spec fn spec_split_prop(line: Seq<char>) -> Option<(Seq<char>, Seq<char>)> {
    let colon = find_from(line, 0, ':');
    if colon >= line.len() {
        None
    } else {
        let head = line.take(colon);
        let semi = find_from(head, 0, ';');
        Some((ascii_upper(head.take(semi)), line.skip(colon + 1)))
    }
}

/// Splits a content line into its uppercased property name and the index where its value
/// starts.
pub fn split_prop(line: &[char]) -> (r: Option<(Vec<char>, usize)>)
    ensures
        match (r, spec_split_prop(line@)) {
            (None, None) => true,
            (Some((name, start)), Some((n2, v2))) => name@ == n2 && start <= line@.len()
                && line@.skip(start as int) == v2,
            _ => false,
        },
{
    let colon = exec_find_from(line, 0, ':');
    if colon >= line.len() {
        return None;
    }
    let semi = exec_find_from(line, 0, ';');
    let name_end = if semi < colon {
        semi
    } else {
        colon
    };
    proof {
        let head = line@.take(colon as int);
        lemma_find_from_bounds(line@, 0, ';');
        lemma_find_from_bounds(head, 0, ';');
        lemma_find_from_prefix(line@, colon as int, ';');
        assert(head.take(find_from(head, 0, ';')) =~= line@.subrange(0, name_end as int));
    }
    let name = upper_range(line, 0, name_end);
    Some((name, colon + 1))
}

/// Searching a prefix finds what searching the whole finds, when that lies in the
/// prefix, and else the prefix's end.
pub proof fn lemma_find_from_prefix(s: Seq<char>, n: int, c: char)
    requires
        0 <= n <= s.len(),
    ensures
        find_from(s.take(n), 0, c) == if find_from(s, 0, c) < n {
            find_from(s, 0, c)
        } else {
            n
        },
{
    lemma_find_from_prefix_at(s, n, c, 0);
}

proof fn lemma_find_from_prefix_at(s: Seq<char>, n: int, c: char, i: int)
    requires
        0 <= i <= n <= s.len(),
    ensures
        find_from(s.take(n), i, c) == if find_from(s, i, c) < n {
            find_from(s, i, c)
        } else {
            n
        },
    decreases n - i,
{
    lemma_find_from_bounds(s, i, c);
    if i < n && s[i] != c {
        lemma_find_from_prefix_at(s, n, c, i + 1);
    }
}

/// A raw line without one trailing carriage return.
pub open spec fn strip_cr(raw: Seq<char>) -> Seq<char> {
    if raw.len() > 0 && raw.last() == '\r' {
        raw.drop_last()
    } else {
        raw
    }
}

/// Adds one raw line to the unfolded lines: a line that starts with a space or tab
/// continues the previous line (without that first character); any other starts a new
/// line.
pub open spec fn unfold_step(acc: Seq<Seq<char>>, raw: Seq<char>) -> Seq<Seq<char>> {
    let line = strip_cr(raw);
    if line.len() > 0 && (line[0] == ' ' || line[0] == '\t') && acc.len() > 0 {
        acc.update(acc.len() - 1, acc.last() + line.drop_first())
    } else {
        acc.push(line)
    }
}

/// Unfolds raw lines one by one onto `acc`.
pub open spec fn unfold_from(acc: Seq<Seq<char>>, raws: Seq<Seq<char>>) -> Seq<Seq<char>>
    decreases raws.len(),
{
    if raws.len() == 0 {
        acc
    } else {
        unfold_step(unfold_from(acc, raws.drop_last()), raws.last())
    }
}

/// The logical lines of a folded text, without a final empty line.
pub open spec fn spec_unfold(input: Seq<char>) -> Seq<Seq<char>> {
    let ls = unfold_from(Seq::empty(), split_on(input, '\n'));
    if ls.len() > 0 && ls.last().len() == 0 {
        ls.drop_last()
    } else {
        ls
    }
}

pub open spec fn lines_view(v: Seq<Vec<char>>) -> Seq<Seq<char>> {
    v.map_values(|l: Vec<char>| l@)
}

/// Adds one raw line to the unfolded lines (see [`unfold_step`]).
fn unfold_push(acc: &mut Vec<Vec<char>>, raw: Vec<char>)
    ensures
        lines_view(final(acc)@) == unfold_step(lines_view(old(acc)@), raw@),
{
    let mut line = raw;
    let ghost r = line@;
    if line.len() > 0 && line[line.len() - 1] == '\r' {
        line.pop();
        assert(line@ =~= r.drop_last());
    }
    let n = acc.len();
    if line.len() > 0 && (line[0] == ' ' || line[0] == '\t') && n > 0 {
        let mut last = acc.pop().unwrap();
        let mut k: usize = 1;
        let ghost start = last@;
        while k < line.len()
            invariant
                1 <= k <= line@.len(),
                last@ == start + line@.subrange(1, k as int),
            decreases line@.len() - k,
        {
            last.push(line[k]);
            assert(start + line@.subrange(1, k + 1) =~= (start + line@.subrange(1, k as int)).push(
                line@[k as int],
            ));
            k = k + 1;
        }
        assert(line@.subrange(1, line@.len() as int) =~= line@.drop_first());
        acc.push(last);
        assert(lines_view(acc@) =~= unfold_step(lines_view(old(acc)@), r));
    } else {
        acc.push(line);
        assert(lines_view(acc@) =~= unfold_step(lines_view(old(acc)@), r));
    }
}

/// Splits a folded text into logical lines, joining continuation lines and dropping the
/// carriage returns and a final empty line.
pub fn unfold(input: &[char]) -> (r: Vec<Vec<char>>)
    ensures
        lines_view(r@) == spec_unfold(input@),
{
    let mut acc: Vec<Vec<char>> = Vec::new();
    let mut cur: Vec<char> = Vec::new();
    let mut i: usize = 0;
    proof {
        assert(input@.take(0) =~= Seq::<char>::empty());
        assert(split_on(Seq::<char>::empty(), '\n').drop_last() =~= Seq::<Seq<char>>::empty());
        assert(lines_view(acc@) =~= Seq::<Seq<char>>::empty());
    }
    while i < input.len()
        invariant
            0 <= i <= input@.len(),
            lines_view(acc@) == unfold_from(
                Seq::empty(),
                split_on(input@.take(i as int), '\n').drop_last(),
            ),
            cur@ == split_on(input@.take(i as int), '\n').last(),
            split_on(input@.take(i as int), '\n').len() >= 1,
        decreases input@.len() - i,
    {
        proof {
            lemma_split_on_step(input@, '\n', i as int);
        }
        let ghost p = split_on(input@.take(i as int), '\n');
        if input[i] == '\n' {
            let raw = cur;
            cur = Vec::new();
            unfold_push(&mut acc, raw);
            assert(split_on(input@.take(i + 1), '\n').drop_last() =~= p);
            assert(p.drop_last().push(p.last()) =~= p);
        } else {
            cur.push(input[i]);
            assert(split_on(input@.take(i + 1), '\n').drop_last() =~= p.drop_last());
        }
        i = i + 1;
    }
    proof {
        assert(input@.take(input@.len() as int) =~= input@);
        let p = split_on(input@, '\n');
        assert(p.drop_last().push(p.last()) =~= p);
    }
    unfold_push(&mut acc, cur);
    let n = acc.len();
    if n > 0 && acc[n - 1].len() == 0 {
        let ghost before = acc@;
        acc.pop();
        assert(lines_view(acc@) =~= lines_view(before).drop_last());
    }
    acc
}


/// Byte budget of the first physical line of a folded content line.
pub const FOLD_LIMIT: usize = 75;

/// The line break of a folded text.
pub open spec fn crlf() -> Seq<char> {
    seq!['\r', '\n']
}

/// End of the longest run of characters from `i` whose UTF-8 bytes, added to `used`,
/// stay within `budget`.
pub open spec fn fit_from(s: Seq<char>, i: int, used: nat, budget: nat) -> int
    decreases s.len() - i,
{
    if 0 <= i < s.len() && used + char_utf8_len(s[i]) <= budget {
        fit_from(s, i + 1, used + char_utf8_len(s[i]), budget)
    } else {
        i
    }
}

/// The continuation lines of a folded line from index `i` on: each is a space and then
/// as many characters as fit in 74 bytes.
pub open spec fn fold_rest(s: Seq<char>, i: int) -> Seq<char>
    decreases s.len() - i,
{
    if i < 0 || i >= s.len() {
        Seq::empty()
    } else {
        let e = fit_from(s, i, 0, (FOLD_LIMIT - 1) as nat);
        if i < e <= s.len() {
            seq![' '] + s.subrange(i, e) + crlf() + fold_rest(s, e)
        } else {
            Seq::empty()
        }
    }
}

/// A content line folded to physical lines of at most 75 bytes, each ended by CRLF;
/// continuation lines start with a space and break only between characters.
pub open spec fn fold(s: Seq<char>) -> Seq<char> {
    let e = fit_from(s, 0, 0, FOLD_LIMIT as nat);
    if e >= s.len() {
        s + crlf()
    } else {
        s.take(e) + crlf() + fold_rest(s, e)
    }
}

pub proof fn lemma_fit_from_bounds(s: Seq<char>, i: int, used: nat, budget: nat)
    requires
        0 <= i <= s.len(),
        used <= budget,
    ensures
        i <= fit_from(s, i, used, budget) <= s.len(),
        budget >= used + 4 && i < s.len() ==> fit_from(s, i, used, budget) > i,
    decreases s.len() - i,
{
    if i < s.len() {
        crate::text::lemma_utf8_len_push(Seq::<char>::empty(), s[i]);
        if used + char_utf8_len(s[i]) <= budget {
            lemma_fit_from_bounds(s, i + 1, used + char_utf8_len(s[i]), budget);
        }
    }
}

/// Executable [`fit_from`].
fn exec_fit_from(s: &[char], i: usize, used: usize, budget: usize) -> (r: usize)
    requires
        i <= s@.len(),
        used <= budget,
    ensures
        r == fit_from(s@, i as int, used as nat, budget as nat),
        i <= r <= s@.len(),
    decreases s@.len() - i,
{
    proof {
        lemma_fit_from_bounds(s@, i as int, used as nat, budget as nat);
    }
    if i < s.len() {
        let w = char_width(s[i]);
        if w <= budget - used {
            return exec_fit_from(s, i + 1, used + w, budget);
        }
    }
    i
}

fn push_range(out: &mut Vec<char>, s: &[char], lo: usize, hi: usize)
    requires
        lo <= hi <= s@.len(),
    ensures
        final(out)@ == old(out)@ + s@.subrange(lo as int, hi as int),
{
    let mut k = lo;
    while k < hi
        invariant
            lo <= k <= hi <= s@.len(),
            out@ == old(out)@ + s@.subrange(lo as int, k as int),
        decreases hi - k,
    {
        out.push(s[k]);
        assert(old(out)@ + s@.subrange(lo as int, k + 1) =~= (old(out)@ + s@.subrange(
            lo as int,
            k as int,
        )).push(s@[k as int]));
        k = k + 1;
    }
}

/// Appends a content line to `out`, folded (see [`fold`]): physical lines of at most 75
/// UTF-8 bytes, continuations starting with a space, as
/// `vcard_roundtrip::lemma_fold_lines` proves of `fold`.
pub fn fold_line(line: &[char], out: &mut Vec<char>)
    ensures
        final(out)@ == old(out)@ + fold(line@),
{
    let e0 = exec_fit_from(line, 0, 0, FOLD_LIMIT);
    if e0 >= line.len() {
        push_range(out, line, 0, line.len());
        out.push('\r');
        out.push('\n');
        assert(line@.subrange(0, line@.len() as int) =~= line@);
        assert(out@ =~= old(out)@ + fold(line@));
        return;
    }
    push_range(out, line, 0, e0);
    out.push('\r');
    out.push('\n');
    assert(line@.subrange(0, e0 as int) =~= line@.take(e0 as int));
    let mut start = e0;
    while start < line.len()
        invariant
            e0 <= start <= line@.len(),
            e0 < line@.len(),
            out@ + fold_rest(line@, start as int) == old(out)@ + fold(line@),
        decreases line@.len() - start,
    {
        let ghost before = out@;
        let e = exec_fit_from(line, start, 0, FOLD_LIMIT - 1);
        proof {
            lemma_fit_from_bounds(line@, start as int, 0, (FOLD_LIMIT - 1) as nat);
        }
        out.push(' ');
        push_range(out, line, start, e);
        out.push('\r');
        out.push('\n');
        assert(out@ =~= before + (seq![' '] + line@.subrange(start as int, e as int) + crlf()));
        assert(out@ + fold_rest(line@, e as int) =~= before + fold_rest(line@, start as int));
        start = e;
    }
    assert(out@ =~= out@ + fold_rest(line@, start as int));
}

/// A contact, as a vCard carries it.
#[derive(Debug, Clone, PartialEq, Eq)]
pub struct Contact {
    pub uid: String,
    pub formatted_name: String,
    pub family_name: Option<String>,
    pub given_name: Option<String>,
    pub emails: Vec<String>,
    pub phones: Vec<String>,
    pub org: Option<String>,
    pub note: Option<String>,
    pub extra: Vec<String>,
}

/// A [`Contact`] with its texts as character sequences.
pub struct ContactView {
    pub uid: Seq<char>,
    pub formatted_name: Seq<char>,
    pub family_name: Option<Seq<char>>,
    pub given_name: Option<Seq<char>>,
    pub emails: Seq<Seq<char>>,
    pub phones: Seq<Seq<char>>,
    pub org: Option<Seq<char>>,
    pub note: Option<Seq<char>>,
    pub extra: Seq<Seq<char>>,
}

pub open spec fn opt_text(o: Option<String>) -> Option<Seq<char>> {
    match o {
        Some(s) => Some(s@),
        None => None,
    }
}

pub open spec fn texts(v: Seq<String>) -> Seq<Seq<char>> {
    v.map_values(|s: String| s@)
}

impl View for Contact {
    type V = ContactView;

    open spec fn view(&self) -> ContactView {
        ContactView {
            uid: self.uid@,
            formatted_name: self.formatted_name@,
            family_name: opt_text(self.family_name),
            given_name: opt_text(self.given_name),
            emails: texts(self.emails@),
            phones: texts(self.phones@),
            org: opt_text(self.org),
            note: opt_text(self.note),
            extra: texts(self.extra@),
        }
    }
}

/// The contact with every field empty.
pub open spec fn empty_contact() -> ContactView {
    ContactView {
        uid: Seq::empty(),
        formatted_name: Seq::empty(),
        family_name: None,
        given_name: None,
        emails: Seq::empty(),
        phones: Seq::empty(),
        org: None,
        note: None,
        extra: Seq::empty(),
    }
}

impl Default for Contact {
    fn default() -> (r: Contact)
        ensures
            r@ == empty_contact(),
    {
        let r = Contact {
            uid: String::new(),
            formatted_name: String::new(),
            family_name: None,
            given_name: None,
            emails: Vec::new(),
            phones: Vec::new(),
            org: None,
            note: None,
            extra: Vec::new(),
        };
        assert(texts(r.emails@) =~= Seq::<Seq<char>>::empty());
        assert(texts(r.phones@) =~= Seq::<Seq<char>>::empty());
        assert(texts(r.extra@) =~= Seq::<Seq<char>>::empty());
        r
    }
}

pub open spec fn text_or_empty(o: Option<Seq<char>>) -> Seq<char> {
    match o {
        Some(s) => s,
        None => Seq::empty(),
    }
}

/// Property lines with a prefix and each escaped value, in order.
pub open spec fn prop_lines(prefix: Seq<char>, values: Seq<Seq<char>>) -> Seq<Seq<char>> {
    values.map_values(|v: Seq<char>| prefix + escape(v))
}

/// The content lines of a contact's vCard, given the uid it is written with.
pub open spec fn contact_lines(c: ContactView, uid: Seq<char>) -> Seq<Seq<char>> {
    seq!["BEGIN:VCARD"@, "VERSION:4.0"@, "UID:"@ + escape(uid), "FN:"@ + escape(c.formatted_name)]
        + (if c.family_name is Some || c.given_name is Some {
        seq![
            "N:"@ + escape(text_or_empty(c.family_name)) + ";"@ + escape(
                text_or_empty(c.given_name),
            ) + ";;;"@,
        ]
    } else {
        Seq::empty()
    }) + prop_lines("EMAIL:"@, c.emails) + prop_lines("TEL:"@, c.phones) + (match c.org {
        Some(o) => seq!["ORG:"@ + escape(o)],
        None => Seq::empty(),
    }) + (match c.note {
        Some(n) => seq!["NOTE:"@ + escape(n)],
        None => Seq::empty(),
    }) + c.extra + seq!["END:VCARD"@]
}

/// Content lines, each folded, one after the other.
pub open spec fn fold_all(lines: Seq<Seq<char>>) -> Seq<char>
    decreases lines.len(),
{
    if lines.len() == 0 {
        Seq::empty()
    } else {
        fold_all(lines.drop_last()) + fold(lines.last())
    }
}

/// The vCard text of a contact written with the given uid.
pub open spec fn vcard_text(c: ContactView, uid: Seq<char>) -> Seq<char> {
    fold_all(contact_lines(c, uid))
}

/// Appends the characters of a literal.
pub fn push_lit(out: &mut Vec<char>, lit: &str)
    ensures
        final(out)@ == old(out)@ + lit@,
{
    let mut cs = chars_of(lit);
    out.append(&mut cs);
}

/// A line made of a literal prefix and an escaped value.
fn prop_line(prefix: &str, value: &String) -> (r: Vec<char>)
    ensures
        r@ == prefix@ + escape(value@),
{
    let mut l: Vec<char> = Vec::new();
    push_lit(&mut l, prefix);
    let v = chars_of(value.as_str());
    escape_into(v.as_slice(), &mut l);
    l
}

fn push_prop_lines(lines: &mut Vec<Vec<char>>, prefix: &str, values: &Vec<String>)
    ensures
        lines_view(final(lines)@) == lines_view(old(lines)@) + prop_lines(prefix@, texts(values@)),
{
    let mut i: usize = 0;
    while i < values.len()
        invariant
            0 <= i <= values@.len(),
            lines_view(lines@) == lines_view(old(lines)@) + prop_lines(
                prefix@,
                texts(values@).take(i as int),
            ),
        decreases values@.len() - i,
    {
        let l = prop_line(prefix, &values[i]);
        let ghost before = lines@;
        lines.push(l);
        assert(lines_view(lines@) =~= lines_view(before).push(l@));
        assert(prop_lines(prefix@, texts(values@).take(i + 1)) =~= prop_lines(
            prefix@,
            texts(values@).take(i as int),
        ).push(prefix@ + escape(values@[i as int]@)));
        i = i + 1;
    }
    assert(texts(values@).take(values@.len() as int) =~= texts(values@));
}

impl Contact {
    /// The content lines of this contact's vCard, written with `uid`.
    fn lines_with_uid(&self, uid: &String) -> (r: Vec<Vec<char>>)
        ensures
            lines_view(r@) == contact_lines(self@, uid@),
    {
        let mut lines: Vec<Vec<char>> = Vec::new();
        let mut l0: Vec<char> = Vec::new();
        push_lit(&mut l0, "BEGIN:VCARD");
        lines.push(l0);
        let mut l1: Vec<char> = Vec::new();
        push_lit(&mut l1, "VERSION:4.0");
        lines.push(l1);
        lines.push(prop_line("UID:", uid));
        lines.push(prop_line("FN:", &self.formatted_name));
        let ghost head = lines_view(lines@);
        assert(head =~= seq![
            "BEGIN:VCARD"@,
            "VERSION:4.0"@,
            "UID:"@ + escape(uid@),
            "FN:"@ + escape(self.formatted_name@),
        ]);
        let ghost before_n = lines_view(lines@);
        if self.family_name.is_some() || self.given_name.is_some() {
            let mut l: Vec<char> = Vec::new();
            push_lit(&mut l, "N:");
            match &self.family_name {
                Some(f) => {
                    let fc = chars_of(f.as_str());
                    escape_into(fc.as_slice(), &mut l);
                },
                None => {
                    assert(escape(Seq::<char>::empty()) =~= Seq::<char>::empty());
                },
            }
            push_lit(&mut l, ";");
            match &self.given_name {
                Some(g) => {
                    let gc = chars_of(g.as_str());
                    escape_into(gc.as_slice(), &mut l);
                },
                None => {
                    assert(escape(Seq::<char>::empty()) =~= Seq::<char>::empty());
                },
            }
            push_lit(&mut l, ";;;");
            lines.push(l);
        }
        assert(lines_view(lines@) =~= before_n + (if self@.family_name is Some
            || self@.given_name is Some {
            seq![
                "N:"@ + escape(text_or_empty(self@.family_name)) + ";"@ + escape(
                    text_or_empty(self@.given_name),
                ) + ";;;"@,
            ]
        } else {
            Seq::empty()
        }));
        push_prop_lines(&mut lines, "EMAIL:", &self.emails);
        push_prop_lines(&mut lines, "TEL:", &self.phones);
        let ghost before_org = lines_view(lines@);
        match &self.org {
            Some(o) => {
                lines.push(prop_line("ORG:", o));
            },
            None => {},
        }
        assert(lines_view(lines@) =~= before_org + (match self@.org {
            Some(o) => seq!["ORG:"@ + escape(o)],
            None => Seq::empty(),
        }));
        let ghost before_note = lines_view(lines@);
        match &self.note {
            Some(n) => {
                lines.push(prop_line("NOTE:", n));
            },
            None => {},
        }
        assert(lines_view(lines@) =~= before_note + (match self@.note {
            Some(n) => seq!["NOTE:"@ + escape(n)],
            None => Seq::empty(),
        }));
        let mut i: usize = 0;
        let ghost before_extra = lines_view(lines@);
        while i < self.extra.len()
            invariant
                0 <= i <= self.extra@.len(),
                lines_view(lines@) == before_extra + texts(self.extra@).take(i as int),
            decreases self.extra@.len() - i,
        {
            let l = chars_of(self.extra[i].as_str());
            let ghost b = lines@;
            lines.push(l);
            assert(lines_view(lines@) =~= lines_view(b).push(l@));
            assert(texts(self.extra@).take(i + 1) =~= texts(self.extra@).take(i as int).push(
                self.extra@[i as int]@,
            ));
            i = i + 1;
        }
        assert(texts(self.extra@).take(self.extra@.len() as int) =~= texts(self.extra@));
        let mut le: Vec<char> = Vec::new();
        push_lit(&mut le, "END:VCARD");
        let ghost before_end = lines_view(lines@);
        lines.push(le);
        assert(lines_view(lines@) =~= before_end.push("END:VCARD"@));
        assert(lines_view(lines@) =~= contact_lines(self@, uid@));
        lines
    }

    /// The contact as a vCard 4.0 text. A contact without a uid is written with a fresh
    /// random one.
    pub fn to_vcard(&self) -> (r: String)
        ensures
            self.uid@.len() > 0 ==> r@ == vcard_text(self@, self.uid@),
            self.uid@.len() == 0 ==> exists|id: u128| r@ == vcard_text(self@, uuid_text(id)),
    {
        let uid = if self.uid.as_str().is_empty() {
            uuid_to_string(random_id())
        } else {
            self.uid.clone()
        };
        let lines = self.lines_with_uid(&uid);
        let text = fold_lines(&lines);
        string_of(text.as_slice())
    }
}

/// Content lines, each folded, one after the other.
pub fn fold_lines(lines: &Vec<Vec<char>>) -> (r: Vec<char>)
    ensures
        r@ == fold_all(lines_view(lines@)),
{
    let mut out: Vec<char> = Vec::new();
    let mut i: usize = 0;
    while i < lines.len()
        invariant
            0 <= i <= lines@.len(),
            out@ == fold_all(lines_view(lines@).take(i as int)),
        decreases lines@.len() - i,
    {
        fold_line(lines[i].as_slice(), &mut out);
        assert(lines_view(lines@).take(i + 1).drop_last() =~= lines_view(lines@).take(i as int));
        i = i + 1;
    }
    assert(lines_view(lines@).take(lines@.len() as int) =~= lines_view(lines@));
    out
}


/// Whether a property value is `VCARD`, ignoring ASCII case.
pub open spec fn is_vcard_value(value: Seq<char>) -> bool {
    ascii_upper(value) == "VCARD"@
}

/// A text, or nothing when it is empty.
pub open spec fn nonempty_text(s: Seq<char>) -> Option<Seq<char>> {
    if s.len() > 0 {
        Some(s)
    } else {
        None
    }
}

/// The family name of an `N` value: its first `;`-separated component, unescaped.
pub open spec fn n_family(v: Seq<char>) -> Option<Seq<char>> {
    nonempty_text(unescape(v.take(find_from(v, 0, ';'))))
}

/// The given name of an `N` value: its second `;`-separated component, unescaped.
pub open spec fn n_given(v: Seq<char>) -> Option<Seq<char>> {
    let s1 = find_from(v, 0, ';');
    if s1 < v.len() {
        let rest = v.skip(s1 + 1);
        nonempty_text(unescape(rest.take(find_from(rest, 0, ';'))))
    } else {
        None
    }
}

/// What one property line inside a card does to the contact read so far.
pub open spec fn apply_prop(c: ContactView, name: Seq<char>, value: Seq<char>, line: Seq<char>) -> ContactView {
    if name == "VERSION"@ {
        c
    } else if name == "UID"@ {
        ContactView { uid: unescape(value), ..c }
    } else if name == "FN"@ {
        ContactView { formatted_name: unescape(value), ..c }
    } else if name == "N"@ {
        ContactView { family_name: n_family(value), given_name: n_given(value), ..c }
    } else if name == "EMAIL"@ {
        ContactView { emails: c.emails.push(unescape(value)), ..c }
    } else if name == "TEL"@ {
        ContactView { phones: c.phones.push(unescape(value)), ..c }
    } else if name == "ORG"@ {
        ContactView { org: Some(unescape(value)), ..c }
    } else if name == "NOTE"@ {
        ContactView { note: Some(unescape(value)), ..c }
    } else {
        ContactView { extra: c.extra.push(line), ..c }
    }
}

/// Reads unfolded lines from index `i` on: lines without a colon are skipped,
/// `BEGIN:VCARD` opens the card, `END:VCARD` ends the reading, and inside the card each
/// property updates the contact. Gives whether a card was opened and the contact.
pub open spec fn card_scan(lines: Seq<Seq<char>>, i: int, in_card: bool, c: ContactView) -> (
    bool,
    ContactView,
)
    decreases lines.len() - i,
{
    if i < 0 || i >= lines.len() {
        (in_card, c)
    } else {
        match spec_split_prop(lines[i]) {
            None => card_scan(lines, i + 1, in_card, c),
            Some((name, value)) => if name == "BEGIN"@ && is_vcard_value(value) {
                card_scan(lines, i + 1, true, c)
            } else if name == "END"@ && is_vcard_value(value) {
                (in_card, c)
            } else if !in_card {
                card_scan(lines, i + 1, in_card, c)
            } else {
                card_scan(lines, i + 1, in_card, apply_prop(c, name, value, lines[i]))
            },
        }
    }
}

/// The contact a vCard text holds, if it opens a card.
pub open spec fn spec_from_vcard(input: Seq<char>) -> Option<ContactView> {
    let (in_card, c) = card_scan(spec_unfold(input), 0, false, empty_contact());
    if in_card {
        Some(c)
    } else {
        None
    }
}

pub open spec fn opt_contact_view(c: Option<Contact>) -> Option<ContactView> {
    match c {
        Some(x) => Some(x@),
        None => None,
    }
}

/// Whether a character sequence spells a literal.
pub fn lit_eq(a: &[char], lit: &str) -> (r: bool)
    ensures
        r == (a@ == lit@),
{
    let b = chars_of(lit);
    if a.len() != b.len() {
        return false;
    }
    let mut i: usize = 0;
    while i < a.len()
        invariant
            a@.len() == b@.len(),
            b@ == lit@,
            0 <= i <= a@.len(),
            forall|k: int| 0 <= k < i ==> a@[k] == b@[k],
        decreases a@.len() - i,
    {
        if a[i] != b[i] {
            return false;
        }
        i = i + 1;
    }
    assert(a@ =~= b@);
    true
}

/// The characters `s[lo..hi]`.
pub fn copy_range(s: &[char], lo: usize, hi: usize) -> (r: Vec<char>)
    requires
        lo <= hi <= s@.len(),
    ensures
        r@ == s@.subrange(lo as int, hi as int),
{
    let mut out: Vec<char> = Vec::new();
    push_range(&mut out, s, lo, hi);
    out
}

/// Unescapes `s[..n]` of a value, or nothing when that is empty.
fn unescape_nonempty(v: &[char], n: usize) -> (r: Option<String>)
    requires
        n <= v@.len(),
    ensures
        opt_text(r) == nonempty_text(unescape(v@.take(n as int))),
{
    let part = copy_range(v, 0, n);
    assert(part@ =~= v@.take(n as int));
    let u = unescape_chars(part.as_slice());
    if u.len() > 0 {
        Some(string_of(u.as_slice()))
    } else {
        None
    }
}

impl Contact {
    /// Reads the first vCard of a text; `None` when the text opens no card.
    pub fn from_vcard(input: &str) -> (r: Option<Contact>)
        ensures
            opt_contact_view(r) == spec_from_vcard(input@),
    {
        let cs = chars_of(input);
        let lines = unfold(cs.as_slice());
        let ghost ls = lines_view(lines@);
        let mut in_card = false;
        let mut c = Contact::default();
        let mut i: usize = 0;
        while i < lines.len()
            invariant
                ls == lines_view(lines@),
                ls == spec_unfold(input@),
                0 <= i <= lines@.len(),
                card_scan(ls, 0, false, empty_contact()) == card_scan(ls, i as int, in_card, c@),
            decreases lines@.len() - i,
        {
            let line = lines[i].as_slice();
            assert(ls[i as int] == line@);
            match split_prop(line) {
                None => {},
                Some((name, start)) => {
                    let value = copy_range(line, start, line.len());
                    assert(value@ =~= line@.skip(start as int));
                    let uv = upper_range(value.as_slice(), 0, value.len());
                    assert(value@.subrange(0, value@.len() as int) =~= value@);
                    let is_vcard = lit_eq(uv.as_slice(), "VCARD");
                    if lit_eq(name.as_slice(), "BEGIN") && is_vcard {
                        in_card = true;
                    } else if lit_eq(name.as_slice(), "END") && is_vcard {
                        return if in_card {
                            Some(c)
                        } else {
                            None
                        };
                    } else if !in_card {
                    } else {
                        let ghost c0 = c@;
                        self_apply_prop(&mut c, name.as_slice(), value.as_slice(), line);
                        assert(c@ == apply_prop(c0, name@, value@, line@));
                    }
                },
            }
            i = i + 1;
        }
        if in_card {
            Some(c)
        } else {
            None
        }
    }
}

/// Applies one property line of a card to the contact (see [`apply_prop`]).
fn self_apply_prop(c: &mut Contact, name: &[char], value: &[char], line: &[char])
    ensures
        final(c)@ == apply_prop(old(c)@, name@, value@, line@),
{
    if lit_eq(name, "VERSION") {
    } else if lit_eq(name, "UID") {
        c.uid = string_of(unescape_chars(value).as_slice());
    } else if lit_eq(name, "FN") {
        c.formatted_name = string_of(unescape_chars(value).as_slice());
    } else if lit_eq(name, "N") {
        let s1 = exec_find_from(value, 0, ';');
        c.family_name = unescape_nonempty(value, s1);
        if s1 < value.len() {
            let rest = copy_range(value, s1 + 1, value.len());
            assert(rest@ =~= value@.skip(s1 + 1));
            let s2 = exec_find_from(rest.as_slice(), 0, ';');
            c.given_name = unescape_nonempty(rest.as_slice(), s2);
        } else {
            c.given_name = None;
        }
    } else if lit_eq(name, "EMAIL") {
        let ghost before = c.emails@;
        c.emails.push(string_of(unescape_chars(value).as_slice()));
        assert(texts(c.emails@) =~= texts(before).push(unescape(value@)));
    } else if lit_eq(name, "TEL") {
        let ghost before = c.phones@;
        c.phones.push(string_of(unescape_chars(value).as_slice()));
        assert(texts(c.phones@) =~= texts(before).push(unescape(value@)));
    } else if lit_eq(name, "ORG") {
        c.org = Some(string_of(unescape_chars(value).as_slice()));
    } else if lit_eq(name, "NOTE") {
        c.note = Some(string_of(unescape_chars(value).as_slice()));
    } else {
        let ghost before = c.extra@;
        c.extra.push(string_of(line));
        assert(texts(c.extra@) =~= texts(before).push(line@));
    }
}

/// A one-person vCard: the display name and one e-mail address.
pub fn user_vcard(display_name: &str, email: &str) -> (r: String)
    ensures
        exists|id: u128|
            r@ == vcard_text(
                ContactView {
                    formatted_name: display_name@,
                    emails: seq![email@],
                    ..empty_contact()
                },
                uuid_text(id),
            ),
{
    let mut c = Contact::default();
    c.formatted_name = display_name.to_owned();
    c.emails.push(email.to_owned());
    assert(texts(c.emails@) =~= seq![email@]);
    c.to_vcard()
}

/// The file name a stored contact or event gets: its uid, a dot and the extension.
pub fn uid_file_name(uid: &str, ext: &str) -> (r: String)
    ensures
        r@ == uid@ + "."@ + ext@,
{
    let mut out = uid.to_owned();
    out.append(".");
    out.append(ext);
    out
}

/// The resources of `metas` that satisfy `keep`, in order.
pub open spec fn resources_where(metas: Seq<Resource>, keep: spec_fn(Resource) -> bool) -> Seq<Resource>
    decreases metas.len(),
{
    if metas.len() == 0 {
        Seq::empty()
    } else if keep(metas.last()) {
        resources_where(metas.drop_last(), keep).push(metas.last())
    } else {
        resources_where(metas.drop_last(), keep)
    }
}

/// The resources of a media type, in order.
pub fn resources_of_type(metas: Vec<Resource>, mime: &str) -> (r: Vec<Resource>)
    ensures
        r@ == resources_where(metas@, |m: Resource| m.mime_type@ == mime@),
{
    let ghost all = metas@;
    let ghost keep = |m: Resource| m.mime_type@ == mime@;
    let n = metas.len();
    let mut rest = metas;
    let mut out: Vec<Resource> = Vec::new();
    let mut i: usize = 0;
    let want = mime.to_owned();
    while rest.len() > 0
        invariant
            i + rest@.len() == all.len(),
            all.len() == n,
            rest@ == all.skip(i as int),
            want@ == mime@,
            keep == (|m: Resource| m.mime_type@ == mime@),
            out@ == resources_where(all.take(i as int), keep),
        decreases rest@.len(),
    {
        let x = rest.remove(0);
        proof {
            assert(x == all[i as int]);
            assert(all.take(i as int + 1).drop_last() =~= all.take(i as int));
            assert(rest@ =~= all.skip(i as int + 1));
        }
        if x.mime_type == want {
            out.push(x);
        }
        i = i + 1;
    }
    assert(all.take(i as int) =~= all);
    out
}

/// The resources stored under the canonical file name of a uid (`uid.ext`), in order.
pub fn resources_named(metas: Vec<Resource>, uid: &str, ext: &str) -> (r: Vec<Resource>)
    ensures
        r@ == resources_where(metas@, |m: Resource| m.file_name@ == uid@ + "."@ + ext@),
{
    let canonical = uid_file_name(uid, ext);
    let ghost all = metas@;
    let ghost keep = |m: Resource| m.file_name@ == uid@ + "."@ + ext@;
    let n = metas.len();
    let mut rest = metas;
    let mut out: Vec<Resource> = Vec::new();
    let mut i: usize = 0;
    while rest.len() > 0
        invariant
            i + rest@.len() == all.len(),
            all.len() == n,
            rest@ == all.skip(i as int),
            canonical@ == uid@ + "."@ + ext@,
            keep == (|m: Resource| m.file_name@ == uid@ + "."@ + ext@),
            out@ == resources_where(all.take(i as int), keep),
        decreases rest@.len(),
    {
        let x = rest.remove(0);
        proof {
            assert(x == all[i as int]);
            assert(all.take(i as int + 1).drop_last() =~= all.take(i as int));
            assert(rest@ =~= all.skip(i as int + 1));
        }
        if x.file_name == canonical {
            out.push(x);
        }
        i = i + 1;
    }
    assert(all.take(i as int) =~= all);
    out
}

} // verus!
