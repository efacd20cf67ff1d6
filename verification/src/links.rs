use vstd::prelude::*;
use vstd::string::*;

use crate::ids::{parse_uuid, uuid_parse};
use crate::text::{
    chars_of, decimal, digit_char, lemma_split_on_step, split_on, string_of, string_of_range,
};

verus! {

/// How a link names a note or notebook: by identifier or by alias.
#[derive(Debug, Clone, PartialEq, Eq)]
pub enum Reference {
    Id(u128),
    Alias(String),
}

/// A [`Reference`] with its alias as a character sequence.
pub enum RefView {
    Id(u128),
    Alias(Seq<char>),
}

impl View for Reference {
    type V = RefView;

    open spec fn view(&self) -> RefView {
        match self {
            Reference::Id(id) => RefView::Id(*id),
            Reference::Alias(a) => RefView::Alias(a@),
        }
    }
}

/// A segment names an identifier when `uuid` reads one from it, else it is an alias.
pub open spec fn spec_reference(seg: Seq<char>) -> RefView {
    match uuid_parse(seg) {
        Some(id) => RefView::Id(id),
        None => RefView::Alias(seg),
    }
}

impl Reference {
    /// Reads a link segment as an identifier when it is one, else as an alias.
    pub fn parse(segment: &str) -> (r: Reference)
        ensures
            r@ == spec_reference(segment@),
    {
        match parse_uuid(segment) {
            Ok(id) => Reference::Id(id),
            Err(_) => Reference::Alias(segment.to_owned()),
        }
    }
}

/// How a link names a bookmark inside a note: by number (from 1) or by alias.
#[derive(Debug, Clone, PartialEq, Eq)]
pub enum BookmarkRef {
    Number(u32),
    Alias(String),
}

/// A [`BookmarkRef`] with its alias as a character sequence.
pub enum BookmarkRefView {
    Number(u32),
    Alias(Seq<char>),
}

impl View for BookmarkRef {
    type V = BookmarkRefView;

    open spec fn view(&self) -> BookmarkRefView {
        match self {
            BookmarkRef::Number(n) => BookmarkRefView::Number(*n),
            BookmarkRef::Alias(a) => BookmarkRefView::Alias(a@),
        }
    }
}

/// Whether every character of `d` is an ASCII decimal digit.
pub open spec fn all_digits(d: Seq<char>) -> bool {
    forall|i: int| 0 <= i < d.len() ==> '0' <= #[trigger] d[i] <= '9'
}

/// The value of a run of decimal digits.
pub open spec fn digits_value(d: Seq<char>) -> nat
    decreases d.len(),
{
    if d.len() == 0 {
        0
    } else {
        digits_value(d.drop_last()) * 10 + ((d.last() as nat) - ('0' as nat)) as nat
    }
}

/// What `str::parse::<u32>` reads: an optional `+`, then one or more decimal digits whose
/// value fits in 32 bits.
pub open spec fn spec_parse_u32(s: Seq<char>) -> Option<u32> {
    let d = if s.len() > 0 && s[0] == '+' {
        s.drop_first()
    } else {
        s
    };
    if d.len() > 0 && all_digits(d) && digits_value(d) <= u32::MAX {
        Some(digits_value(d) as u32)
    } else {
        None
    }
}

/// Reads a 32-bit unsigned decimal number, as `str::parse::<u32>` does.
pub fn parse_u32(s: &[char]) -> (r: Option<u32>)
    ensures
        r == spec_parse_u32(s@),
{
    let mut start: usize = 0;
    if s.len() > 0 && s[0] == '+' {
        start = 1;
    }
    let ghost d = if s@.len() > 0 && s@[0] == '+' {
        s@.drop_first()
    } else {
        s@
    };
    assert(d =~= s@.subrange(start as int, s@.len() as int));
    if start == s.len() {
        return None;
    }
    let mut acc: u64 = 0;
    let mut i: usize = start;
    while i < s.len()
        invariant
            start <= i <= s@.len(),
            d == s@.subrange(start as int, s@.len() as int),
            d == (if s@.len() > 0 && s@[0] == '+' {
                s@.drop_first()
            } else {
                s@
            }),
            d.len() > 0,
            all_digits(s@.subrange(start as int, i as int)),
            acc == if digits_value(s@.subrange(start as int, i as int)) <= u32::MAX {
                digits_value(s@.subrange(start as int, i as int))
            } else {
                u32::MAX as nat + 1
            },
        decreases s@.len() - i,
    {
        let c = s[i];
        if c < '0' || c > '9' {
            assert(d[i - start] == c);
            assert(!all_digits(d));
            return None;
        }
        let dv = (c as u32 - '0' as u32) as u64;
        let ghost p = s@.subrange(start as int, i as int);
        assert(s@.subrange(start as int, i + 1) =~= p.push(c));
        assert(s@.subrange(start as int, i + 1).drop_last() =~= p);
        assert(s@.subrange(start as int, i + 1).last() == c);
        assert(digits_value(s@.subrange(start as int, i + 1)) == digits_value(p) * 10 + dv);
        assert(all_digits(s@.subrange(start as int, i + 1)));
        if acc <= u32::MAX as u64 {
            assert(acc * 10 + dv <= 42949672959) by (nonlinear_arith)
                requires
                    acc <= 4294967295,
                    dv <= 9,
            ;
            acc = acc * 10 + dv;
            if acc > u32::MAX as u64 {
                acc = u32::MAX as u64 + 1;
            }
        } else {
            assert(digits_value(p) * 10 + dv > u32::MAX) by (nonlinear_arith)
                requires
                    digits_value(p) > 4294967295,
            ;
            acc = u32::MAX as u64 + 1;
        }
        i = i + 1;
    }
    if acc > u32::MAX as u64 {
        None
    } else {
        Some(acc as u32)
    }
}

/// A bookmark segment reads as a number from 1, else as an alias.
pub open spec fn spec_bookmark_ref(seg: Seq<char>) -> BookmarkRefView {
    match spec_parse_u32(seg) {
        Some(n) if n >= 1 => BookmarkRefView::Number(n),
        _ => BookmarkRefView::Alias(seg),
    }
}

/// The decimal text of a number is a run of digits whose value is the number.
pub proof fn lemma_decimal_digits(n: nat)
    ensures
        decimal(n).len() >= 1,
        all_digits(decimal(n)),
        digits_value(decimal(n)) == n,
    decreases n,
{
    if n < 10 {
        let d = decimal(n);
        assert(d == seq![digit_char(n)]);
        assert(d.drop_last() =~= Seq::<char>::empty());
        assert(digit_char(n) as nat == '0' as nat + n);
        assert(d.last() == digit_char(n));
        assert(digits_value(d) == digits_value(d.drop_last()) * 10 + ((d.last() as nat) - ('0' as nat)) as nat);
        assert(digits_value(Seq::<char>::empty()) == 0);
    } else {
        lemma_decimal_digits(n / 10);
        let d = decimal(n);
        let h = decimal(n / 10);
        assert(d == h.push(digit_char(n % 10)));
        assert(d.drop_last() =~= h);
        assert(digit_char(n % 10) as nat == '0' as nat + n % 10);
        assert(all_digits(d)) by {
            assert forall|i: int| 0 <= i < d.len() implies '0' <= #[trigger] d[i] <= '9' by {
                if i < h.len() {
                    assert(d[i] == h[i]);
                }
            }
        }
        assert(d.last() == digit_char(n % 10));
        assert(digits_value(d) == digits_value(h) * 10 + ((d.last() as nat) - ('0' as nat)) as nat);
        assert(digits_value(d) == (n / 10) * 10 + n % 10);
        assert((n / 10) * 10 + n % 10 == n);
    }
}

/// Reading the decimal text of a number gives the number back; so a bookmark segment
/// that is the decimal text of a number from 1 names that numbered bookmark.
pub proof fn lemma_decimal_reads_back(n: u32)
    ensures
        spec_parse_u32(decimal(n as nat)) == Some(n),
        n >= 1 ==> spec_bookmark_ref(decimal(n as nat)) == BookmarkRefView::Number(n),
{
    lemma_decimal_digits(n as nat);
    let d = decimal(n as nat);
    assert('0' <= d[0] <= '9');
}

impl BookmarkRef {
    /// Reads a bookmark segment: a number from 1 names a numbered bookmark; anything
    /// else, `0` included, is an alias.
    pub fn parse(segment: &str) -> (r: BookmarkRef)
        ensures
            r@ == spec_bookmark_ref(segment@),
    {
        let cs = chars_of(segment);
        match parse_u32(cs.as_slice()) {
            Some(n) if n >= 1 => BookmarkRef::Number(n),
            _ => BookmarkRef::Alias(segment.to_owned()),
        }
    }
}

/// Where a link points: an optional notebook, a note, an optional bookmark.
#[derive(Debug, Clone, PartialEq, Eq)]
pub struct LinkTarget {
    pub notebook: Option<Reference>,
    pub note: Reference,
    pub bookmark: Option<BookmarkRef>,
}

/// A [`LinkTarget`] over views.
pub struct LinkTargetView {
    pub notebook: Option<RefView>,
    pub note: RefView,
    pub bookmark: Option<BookmarkRefView>,
}

pub open spec fn opt_ref_view(r: Option<Reference>) -> Option<RefView> {
    match r {
        Some(x) => Some(x@),
        None => None,
    }
}

pub open spec fn opt_bookmark_view(r: Option<BookmarkRef>) -> Option<BookmarkRefView> {
    match r {
        Some(x) => Some(x@),
        None => None,
    }
}

impl View for LinkTarget {
    type V = LinkTargetView;

    open spec fn view(&self) -> LinkTargetView {
        LinkTargetView {
            notebook: opt_ref_view(self.notebook),
            note: self.note@,
            bookmark: opt_bookmark_view(self.bookmark),
        }
    }
}

pub open spec fn opt_target_view(r: Option<LinkTarget>) -> Option<LinkTargetView> {
    match r {
        Some(x) => Some(x@),
        None => None,
    }
}

/// How a link came to be: written in the body or added by hand.
#[derive(Debug, Clone, Copy, PartialEq, Eq, Structural)]
pub enum LinkSource {
    Content,
    Manual,
}

/// A numbered bookmark stored on a note.
#[derive(Debug, Clone, PartialEq, Eq)]
pub struct Bookmark {
    pub number: u32,
    pub text: String,
    pub alias: String,
}

/// A bookmark as written in a body: its text and optional alias.
#[derive(Debug, Clone, PartialEq, Eq)]
pub struct DerivedBookmark {
    pub text: String,
    pub alias: Option<String>,
}

/// A link stored on a note: its source, its raw `#…` text and, once resolved, the target
/// note.
#[derive(Debug, Clone, PartialEq, Eq)]
pub struct NoteLink {
    pub source: LinkSource,
    pub raw: String,
    pub target_note_id: Option<u128>,
}

/// The link grammar: `#note`, `#notebook#note` or `#notebook#note#bookmark`, with no
/// empty segment.
pub open spec fn spec_parse_link_ref(s: Seq<char>) -> Option<LinkTargetView> {
    if s.len() == 0 || s[0] != '#' {
        None
    } else {
        let segs = split_on(s.drop_first(), '#');
        if exists|i: int| 0 <= i < segs.len() && #[trigger] segs[i].len() == 0 {
            None
        } else if segs.len() == 1 {
            Some(
                LinkTargetView {
                    notebook: None,
                    note: spec_reference(segs[0]),
                    bookmark: None,
                },
            )
        } else if segs.len() == 2 {
            Some(
                LinkTargetView {
                    notebook: Some(spec_reference(segs[0])),
                    note: spec_reference(segs[1]),
                    bookmark: None,
                },
            )
        } else if segs.len() == 3 {
            Some(
                LinkTargetView {
                    notebook: Some(spec_reference(segs[0])),
                    note: spec_reference(segs[1]),
                    bookmark: Some(spec_bookmark_ref(segs[2])),
                },
            )
        } else {
            None
        }
    }
}

/// The pieces of `s` between occurrences of `sep`, as `str::split` gives them.
pub fn split_chars(s: &[char], sep: char) -> (r: Vec<Vec<char>>)
    ensures
        r@.map_values(|v: Vec<char>| v@) == split_on(s@, sep),
{
    let mut done: Vec<Vec<char>> = Vec::new();
    let mut cur: Vec<char> = Vec::new();
    let mut i: usize = 0;
    while i < s.len()
        invariant
            0 <= i <= s@.len(),
            done@.map_values(|v: Vec<char>| v@).push(cur@) == split_on(s@.take(i as int), sep),
        decreases s@.len() - i,
    {
        proof {
            lemma_split_on_step(s@, sep, i as int);
        }
        let ghost before = done@.map_values(|v: Vec<char>| v@).push(cur@);
        if s[i] == sep {
            let finished = cur;
            done.push(finished);
            cur = Vec::new();
            assert(done@.map_values(|v: Vec<char>| v@).push(cur@) =~= before.push(
                Seq::<char>::empty(),
            ));
        } else {
            cur.push(s[i]);
            assert(done@.map_values(|v: Vec<char>| v@).push(cur@) =~= before.update(
                before.len() - 1,
                before.last().push(s@[i as int]),
            ));
        }
        i = i + 1;
    }
    assert(s@.take(s@.len() as int) =~= s@);
    done.push(cur);
    assert(done@.map_values(|v: Vec<char>| v@) =~= split_on(s@, sep));
    done
}

/// Parses a `#…` link reference.
pub fn parse_link_ref(s: &str) -> (r: Option<LinkTarget>)
    ensures
        opt_target_view(r) == spec_parse_link_ref(s@),
{
    let cs = chars_of(s);
    if cs.len() == 0 || cs[0] != '#' {
        return None;
    }
    let body = string_of_range(cs.as_slice(), 1, cs.len());
    let bcs = chars_of(body.as_str());
    assert(bcs@ =~= s@.drop_first());
    let segs = split_chars(bcs.as_slice(), '#');
    let ghost sv = segs@.map_values(|v: Vec<char>| v@);
    let mut i: usize = 0;
    while i < segs.len()
        invariant
            0 <= i <= segs@.len(),
            sv == segs@.map_values(|v: Vec<char>| v@),
            sv == split_on(s@.drop_first(), '#'),
            forall|k: int| 0 <= k < i ==> #[trigger] sv[k].len() > 0,
        decreases segs@.len() - i,
    {
        assert(sv[i as int] == segs@[i as int]@);
        if segs[i].len() == 0 {
            assert(sv[i as int].len() == 0);
            return None;
        }
        i = i + 1;
    }
    assert(forall|k: int| 0 <= k < sv.len() ==> #[trigger] sv[k].len() != 0);
    if segs.len() == 1 {
        let note = string_of(segs[0].as_slice());
        Some(LinkTarget { notebook: None, note: Reference::parse(note.as_str()), bookmark: None })
    } else if segs.len() == 2 {
        let nb = string_of(segs[0].as_slice());
        let note = string_of(segs[1].as_slice());
        Some(
            LinkTarget {
                notebook: Some(Reference::parse(nb.as_str())),
                note: Reference::parse(note.as_str()),
                bookmark: None,
            },
        )
    } else if segs.len() == 3 {
        let nb = string_of(segs[0].as_slice());
        let note = string_of(segs[1].as_slice());
        let bm = string_of(segs[2].as_slice());
        Some(
            LinkTarget {
                notebook: Some(Reference::parse(nb.as_str())),
                note: Reference::parse(note.as_str()),
                bookmark: Some(BookmarkRef::parse(bm.as_str())),
            },
        )
    } else {
        None
    }
}

impl NoteLink {
    /// A link from its raw text, when the text is a well-formed reference.
    pub fn from_raw(raw: &str, source: LinkSource) -> (r: Option<NoteLink>)
        ensures
            spec_parse_link_ref(raw@) is None ==> r is None,
            spec_parse_link_ref(raw@) is Some ==> (r matches Some(l) && l.source == source && l.raw@
                == raw@ && l.target_note_id is None),
    {
        match parse_link_ref(raw) {
            None => None,
            Some(_) => Some(NoteLink { source, raw: raw.to_owned(), target_note_id: None }),
        }
    }

    /// Where this link points, read from its raw text.
    pub fn target(&self) -> (r: Option<LinkTarget>)
        ensures
            opt_target_view(r) == spec_parse_link_ref(self.raw@),
    {
        parse_link_ref(self.raw.as_str())
    }
}


/// White space as the link patterns read `\s`: the Unicode `White_Space` characters.
pub open spec fn is_space(c: char) -> bool {
    let v = c as u32;
    ||| 0x09 <= v <= 0x0D
    ||| v == 0x20
    ||| v == 0x85
    ||| v == 0xA0
    ||| v == 0x1680
    ||| 0x2000 <= v <= 0x200A
    ||| v == 0x2028
    ||| v == 0x2029
    ||| v == 0x202F
    ||| v == 0x205F
    ||| v == 0x3000
}

/// Whether `c` is white space in the sense of [`is_space`].
pub fn char_is_space(c: char) -> (r: bool)
    ensures
        r == is_space(c),
{
    let v = c as u32;
    (0x09 <= v && v <= 0x0D) || v == 0x20 || v == 0x85 || v == 0xA0 || v == 0x1680 || (0x2000 <= v
        && v <= 0x200A) || v == 0x2028 || v == 0x2029 || v == 0x202F || v == 0x205F || v == 0x3000
}

/// First index at or after `i` that holds `c`, or `s.len()` when there is none.
pub open spec fn find_from(s: Seq<char>, i: int, c: char) -> int
    decreases s.len() - i,
{
    if i >= s.len() {
        s.len() as int
    } else if s[i] == c {
        i
    } else {
        find_from(s, i + 1, c)
    }
}

/// First index at or after `i` that is not white space, or `s.len()`.
pub open spec fn skip_space(s: Seq<char>, i: int) -> int
    decreases s.len() - i,
{
    if i < s.len() && is_space(s[i]) {
        skip_space(s, i + 1)
    } else {
        i
    }
}

/// First index at or after `i` that holds `)` or white space, or `s.len()`.
pub open spec fn run_end(s: Seq<char>, i: int) -> int
    decreases s.len() - i,
{
    if i < s.len() && s[i] != ')' && !is_space(s[i]) {
        run_end(s, i + 1)
    } else {
        i
    }
}

pub proof fn lemma_find_from_bounds(s: Seq<char>, i: int, c: char)
    requires
        0 <= i <= s.len(),
    ensures
        i <= find_from(s, i, c) <= s.len(),
        find_from(s, i, c) < s.len() ==> s[find_from(s, i, c)] == c,
        forall|k: int| i <= k < find_from(s, i, c) ==> s[k] != c,
    decreases s.len() - i,
{
    if i < s.len() && s[i] != c {
        lemma_find_from_bounds(s, i + 1, c);
    }
}

pub proof fn lemma_skip_space_bounds(s: Seq<char>, i: int)
    requires
        0 <= i <= s.len(),
    ensures
        i <= skip_space(s, i) <= s.len(),
    decreases s.len() - i,
{
    if i < s.len() && is_space(s[i]) {
        lemma_skip_space_bounds(s, i + 1);
    }
}

pub proof fn lemma_run_end_bounds(s: Seq<char>, i: int)
    requires
        0 <= i <= s.len(),
    ensures
        i <= run_end(s, i) <= s.len(),
    decreases s.len() - i,
{
    if i < s.len() && s[i] != ')' && !is_space(s[i]) {
        lemma_run_end_bounds(s, i + 1);
    }
}

/// Executable [`find_from`].
pub fn exec_find_from(s: &[char], i: usize, c: char) -> (r: usize)
    requires
        i <= s@.len(),
    ensures
        r == find_from(s@, i as int, c),
        i <= r <= s@.len(),
    decreases s@.len() - i,
{
    proof {
        lemma_find_from_bounds(s@, i as int, c);
    }
    if i >= s.len() {
        s.len()
    } else if s[i] == c {
        i
    } else {
        exec_find_from(s, i + 1, c)
    }
}

/// Executable [`skip_space`].
pub fn exec_skip_space(s: &[char], i: usize) -> (r: usize)
    requires
        i <= s@.len(),
    ensures
        r == skip_space(s@, i as int),
        i <= r <= s@.len(),
    decreases s@.len() - i,
{
    if i < s.len() && char_is_space(s[i]) {
        exec_skip_space(s, i + 1)
    } else {
        i
    }
}

/// Executable [`run_end`].
pub fn exec_run_end(s: &[char], i: usize) -> (r: usize)
    requires
        i <= s@.len(),
    ensures
        r == run_end(s@, i as int),
        i <= r <= s@.len(),
    decreases s@.len() - i,
{
    if i < s.len() && s[i] != ')' && !char_is_space(s[i]) {
        exec_run_end(s, i + 1)
    } else {
        i
    }
}

/// A bookmark written at index `i` of a body: `[text](###)` or `[text](### "alias")`,
/// with white space allowed around `###`, the alias and before `)`. Gives the index just
/// past the match, the text and the alias.
pub open spec fn bookmark_at(s: Seq<char>, i: int) -> Option<(int, Seq<char>, Option<Seq<char>>)> {
    if !(0 <= i < s.len() && s[i] == '[') {
        None
    } else {
        let j = find_from(s, i + 1, ']');
        if !(j < s.len() && j + 1 < s.len() && s[j + 1] == '(') {
            None
        } else {
            let k = skip_space(s, j + 2);
            if !(k < s.len() && k + 1 < s.len() && k + 2 < s.len() && s[k] == '#' && s[k + 1] == '#'
        && s[k + 2] == '#') {
                None
            } else {
                let m = skip_space(s, k + 3);
                let text = s.subrange(i + 1, j);
                let q = find_from(s, m + 1, '"');
                let e = skip_space(s, q + 1);
                if m < s.len() && s[m] == '"' && q < s.len() && e < s.len() && s[e] == ')' {
                    Some((e + 1, text, Some(s.subrange(m + 1, q))))
                } else if m < s.len() && s[m] == ')' {
                    Some((m + 1, text, None))
                } else {
                    None
                }
            }
        }
    }
}

/// Every bookmark of `s` from index `i` on, leftmost first and without overlap.
pub open spec fn scan_bookmarks(s: Seq<char>, i: int) -> Seq<(Seq<char>, Option<Seq<char>>)>
    decreases s.len() - i,
{
    if i < 0 || i >= s.len() {
        Seq::empty()
    } else {
        match bookmark_at(s, i) {
            Some((end, text, alias)) => if end > i {
                seq![(text, alias)] + scan_bookmarks(s, end)
            } else {
                Seq::empty()
            },
            None => scan_bookmarks(s, i + 1),
        }
    }
}

/// The view of a derived bookmark: its text and optional alias.
pub open spec fn derived_view(b: DerivedBookmark) -> (Seq<char>, Option<Seq<char>>) {
    (
        b.text@,
        match b.alias {
            Some(a) => Some(a@),
            None => None,
        },
    )
}

/// Executable [`bookmark_at`]: the end of the match, the text's end and the alias range.
fn exec_bookmark_at(s: &[char], i: usize) -> (r: Option<(usize, usize, Option<(usize, usize)>)>)
    requires
        i < s@.len(),
    ensures
        match (r, bookmark_at(s@, i as int)) {
            (None, None) => true,
            (Some((end, j, alias)), Some((e2, text, a2))) => {
                &&& end == e2
                &&& i < end <= s@.len()
                &&& i + 1 <= j <= s@.len()
                &&& text == s@.subrange(i + 1, j as int)
                &&& match (alias, a2) {
                    (None, None) => true,
                    (Some((lo, hi)), Some(a)) => lo <= hi <= s@.len() && a == s@.subrange(
                        lo as int,
                        hi as int,
                    ),
                    _ => false,
                }
            },
            _ => false,
        },
{
    if s[i] != '[' {
        return None;
    }
    let j = exec_find_from(s, i + 1, ']');
    if !(j < s.len() && j + 1 < s.len() && s[j + 1] == '(') {
        return None;
    }
    let k = exec_skip_space(s, j + 2);
    if !(k < s.len() && k + 1 < s.len() && k + 2 < s.len() && s[k] == '#' && s[k + 1] == '#'
        && s[k + 2] == '#') {
        return None;
    }
    let m = exec_skip_space(s, k + 3);
    if m < s.len() && s[m] == '"' {
        let q = exec_find_from(s, m + 1, '"');
        if q < s.len() {
            let e = exec_skip_space(s, q + 1);
            if e < s.len() && s[e] == ')' {
                return Some((e + 1, j, Some((m + 1, q))));
            }
        }
    }
    if m < s.len() && s[m] == ')' {
        return Some((m + 1, j, None));
    }
    None
}

/// Every bookmark written in a body, in order: `[text](###)` or `[text](### "alias")`.
pub fn parse_bookmarks(body: &str) -> (r: Vec<DerivedBookmark>)
    ensures
        r@.map_values(|b: DerivedBookmark| derived_view(b)) == scan_bookmarks(body@, 0),
{
    let cs = chars_of(body);
    let s = cs.as_slice();
    let mut out: Vec<DerivedBookmark> = Vec::new();
    let mut i: usize = 0;
    while i < s.len()
        invariant
            s@ == body@,
            0 <= i <= s@.len(),
            out@.map_values(|b: DerivedBookmark| derived_view(b)) + scan_bookmarks(s@, i as int)
                == scan_bookmarks(s@, 0),
        decreases s@.len() - i,
    {
        let ghost before = out@.map_values(|b: DerivedBookmark| derived_view(b));
        match exec_bookmark_at(s, i) {
            Some((end, j, alias)) => {
                let text = string_of_range(s, i + 1, j);
                let alias_text = match alias {
                    Some((lo, hi)) => Some(string_of_range(s, lo, hi)),
                    None => None,
                };
                let b = DerivedBookmark { text, alias: alias_text };
                out.push(b);
                assert(out@.map_values(|b: DerivedBookmark| derived_view(b)) =~= before.push(
                    derived_view(b),
                ));
                assert(before.push(derived_view(b)) + scan_bookmarks(s@, end as int) =~= before
                    + scan_bookmarks(s@, i as int));
                i = end;
            },
            None => {
                i = i + 1;
            },
        }
    }
    assert(out@.map_values(|b: DerivedBookmark| derived_view(b)) =~= out@.map_values(
        |b: DerivedBookmark| derived_view(b),
    ) + scan_bookmarks(s@, i as int));
    out
}

/// A content link written at index `i` of a body: `[text](#dest)` with white space
/// allowed around the destination, which is `#` and one or more characters that are
/// neither `)` nor white space. Gives the index just past the match and the destination.
pub open spec fn content_link_at(s: Seq<char>, i: int) -> Option<(int, Seq<char>)> {
    if !(0 <= i < s.len() && s[i] == '[') {
        None
    } else {
        let j = find_from(s, i + 1, ']');
        if !(j < s.len() && j + 1 < s.len() && s[j + 1] == '(') {
            None
        } else {
            let k = skip_space(s, j + 2);
            let r = run_end(s, k + 1);
            let e = skip_space(s, r);
            if k < s.len() && s[k] == '#' && r > k + 1 && e < s.len() && s[e] == ')' {
                Some((e + 1, s.subrange(k, r)))
            } else {
                None
            }
        }
    }
}

/// Every content link destination of `s` from index `i` on, leftmost first and without
/// overlap, leaving out the bookmark marker `###`.
pub open spec fn scan_content_links(s: Seq<char>, i: int) -> Seq<Seq<char>>
    decreases s.len() - i,
{
    if i < 0 || i >= s.len() {
        Seq::empty()
    } else {
        match content_link_at(s, i) {
            Some((end, dest)) => if end > i {
                if dest == "###"@ {
                    scan_content_links(s, end)
                } else {
                    seq![dest] + scan_content_links(s, end)
                }
            } else {
                Seq::empty()
            },
            None => scan_content_links(s, i + 1),
        }
    }
}

/// Executable [`content_link_at`]: the end of the match and the destination's range.
fn exec_content_link_at(s: &[char], i: usize) -> (r: Option<(usize, usize, usize)>)
    requires
        i < s@.len(),
    ensures
        match (r, content_link_at(s@, i as int)) {
            (None, None) => true,
            (Some((end, lo, hi)), Some((e2, dest))) => end == e2 && i < end <= s@.len() && lo
                <= hi <= s@.len() && dest == s@.subrange(lo as int, hi as int),
            _ => false,
        },
{
    if s[i] != '[' {
        return None;
    }
    let j = exec_find_from(s, i + 1, ']');
    if !(j < s.len() && j + 1 < s.len() && s[j + 1] == '(') {
        return None;
    }
    let k = exec_skip_space(s, j + 2);
    if !(k < s.len() && s[k] == '#') {
        return None;
    }
    let r = exec_run_end(s, k + 1);
    let e = exec_skip_space(s, r);
    if r > k + 1 && e < s.len() && s[e] == ')' {
        Some((e + 1, k, r))
    } else {
        None
    }
}

/// Whether `s[lo..hi]` is the bookmark marker `###`.
fn is_bookmark_marker(s: &[char], lo: usize, hi: usize) -> (r: bool)
    requires
        lo <= hi <= s@.len(),
    ensures
        r == (s@.subrange(lo as int, hi as int) == "###"@),
{
    proof {
        reveal_strlit("###");
    }
    if hi - lo != 3 {
        assert(s@.subrange(lo as int, hi as int).len() != "###"@.len());
        return false;
    }
    let r = s[lo] == '#' && s[lo + 1] == '#' && s[lo + 2] == '#';
    if r {
        assert(s@.subrange(lo as int, hi as int) =~= "###"@);
    } else {
        assert(s@.subrange(lo as int, hi as int) != "###"@) by {
            if s@.subrange(lo as int, hi as int) == "###"@ {
                assert(s@.subrange(lo as int, hi as int)[0] == "###"@[0]);
                assert(s@.subrange(lo as int, hi as int)[1] == "###"@[1]);
                assert(s@.subrange(lo as int, hi as int)[2] == "###"@[2]);
            }
        }
    }
    r
}

/// Every content link destination written in a body, in order, without bookmarks.
pub fn parse_content_links(body: &str) -> (r: Vec<String>)
    ensures
        r@.map_values(|d: String| d@) == scan_content_links(body@, 0),
{
    let cs = chars_of(body);
    let s = cs.as_slice();
    let mut out: Vec<String> = Vec::new();
    let mut i: usize = 0;
    while i < s.len()
        invariant
            s@ == body@,
            0 <= i <= s@.len(),
            out@.map_values(|d: String| d@) + scan_content_links(s@, i as int)
                == scan_content_links(s@, 0),
        decreases s@.len() - i,
    {
        let ghost before = out@.map_values(|d: String| d@);
        match exec_content_link_at(s, i) {
            Some((end, lo, hi)) => {
                if !is_bookmark_marker(s, lo, hi) {
                    let d = string_of_range(s, lo, hi);
                    out.push(d);
                    assert(out@.map_values(|d: String| d@) =~= before.push(d@));
                    assert(before.push(d@) + scan_content_links(s@, end as int) =~= before
                        + scan_content_links(s@, i as int));
                }
                i = end;
            },
            None => {
                i = i + 1;
            },
        }
    }
    assert(out@.map_values(|d: String| d@) =~= out@.map_values(|d: String| d@)
        + scan_content_links(s@, i as int));
    out
}

} // verus!
