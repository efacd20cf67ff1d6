use vstd::prelude::*;
use vstd::string::*;

use vstd::utf8::encode_utf8;

use crate::text::{
    char_width, chars_of, lemma_split_on_prefix, lemma_split_on_step, lemma_utf8_len_push,
    lemma_utf8_len_take, split_on, utf8_len,
};

verus! {

/// Longest line, in UTF-8 bytes, that a note may hold.
pub const MAX_LINE_BYTES: usize = 4096;

/// Most lines that one note may hold.
pub const MAX_LINES_PER_NOTE: usize = 65536;

/// Most live notes that one notebook may hold.
pub const MAX_NOTES_PER_NOTEBOOK: usize = 16777216;

/// Wire code of [`LimitViolation::LineTooLong`].
pub const CODE_LINE_TOO_LONG: &'static str = "too_long";

/// Wire code of [`LimitViolation::TooManyLines`].
pub const CODE_TOO_MANY_LINES: &'static str = "too_many_lines";

/// Wire code of [`LimitViolation::NotebookFull`].
pub const CODE_NOTEBOOK_FULL: &'static str = "notebook_full";

/// A breach of one of the three format limits.
#[derive(Debug, Clone, PartialEq, Eq, Structural)]
pub enum LimitViolation {
    LineTooLong { bytes: usize },
    TooManyLines { lines: usize },
    NotebookFull { notes: usize },
}

/// The wire code that names each kind of violation.
pub open spec fn spec_code(v: LimitViolation) -> Seq<char> {
    match v {
        LimitViolation::LineTooLong { .. } => CODE_LINE_TOO_LONG@,
        LimitViolation::TooManyLines { .. } => CODE_TOO_MANY_LINES@,
        LimitViolation::NotebookFull { .. } => CODE_NOTEBOOK_FULL@,
    }
}

impl LimitViolation {
    /// The wire code of this violation.
    pub fn code(&self) -> (r: &'static str)
        ensures
            r@ == spec_code(*self),
    {
        match self {
            LimitViolation::LineTooLong { .. } => CODE_LINE_TOO_LONG,
            LimitViolation::TooManyLines { .. } => CODE_TOO_MANY_LINES,
            LimitViolation::NotebookFull { .. } => CODE_NOTEBOOK_FULL,
        }
    }
}

/// True for exactly the three wire codes of the format limits.
pub open spec fn spec_is_limit_code(code: Seq<char>) -> bool {
    code == CODE_LINE_TOO_LONG@ || code == CODE_TOO_MANY_LINES@ || code == CODE_NOTEBOOK_FULL@
}

/// Whether a wire code names a format-limit violation.
pub fn is_limit_code(code: &str) -> (r: bool)
    ensures
        r == spec_is_limit_code(code@),
{
    let c = code.to_owned();
    c == CODE_LINE_TOO_LONG.to_owned() || c == CODE_TOO_MANY_LINES.to_owned() || c
        == CODE_NOTEBOOK_FULL.to_owned()
}

/// Rejects a line longer than [`MAX_LINE_BYTES`] UTF-8 bytes.
pub fn check_line(content: &str) -> (r: Result<(), LimitViolation>)
    requires
        content.spec_bytes().len() <= usize::MAX,
    ensures
        content.spec_bytes().len() <= MAX_LINE_BYTES ==> r == Ok::<(), LimitViolation>(()),
        content.spec_bytes().len() > MAX_LINE_BYTES ==> r == Err::<(), LimitViolation>(
            LimitViolation::LineTooLong { bytes: content.spec_bytes().len() as usize },
        ),
{
    let n = content.len();
    if n > MAX_LINE_BYTES {
        return Err(LimitViolation::LineTooLong { bytes: n });
    }
    Ok(())
}

/// Rejects a note of more than [`MAX_LINES_PER_NOTE`] lines.
pub fn check_line_count(lines: usize) -> (r: Result<(), LimitViolation>)
    ensures
        lines <= MAX_LINES_PER_NOTE ==> r == Ok::<(), LimitViolation>(()),
        lines > MAX_LINES_PER_NOTE ==> r == Err::<(), LimitViolation>(
            LimitViolation::TooManyLines { lines },
        ),
{
    if lines > MAX_LINES_PER_NOTE {
        return Err(LimitViolation::TooManyLines { lines });
    }
    Ok(())
}

/// The lines of a note body: the pieces between newlines.
pub open spec fn body_lines(body: Seq<char>) -> Seq<Seq<char>> {
    split_on(body, '\n')
}

/// Number of lines of a body: none for the empty body, else one more than its newlines.
pub open spec fn spec_line_count(body: Seq<char>) -> nat {
    if body.len() == 0 {
        0
    } else {
        body_lines(body).len()
    }
}

/// Number of lines of a body, as the materialised note counts them.
pub fn line_count(body: &str) -> (r: usize)
    requires
        body.spec_bytes().len() < usize::MAX,
    ensures
        r == spec_line_count(body@),
{
    let cs = chars_of(body);
    proof {
        lemma_utf8_len_take(body@, body@.len() as int);
        assert(body@.take(body@.len() as int) =~= body@);
    }
    if cs.len() == 0 {
        return 0;
    }
    let mut lines: usize = 1;
    let mut i: usize = 0;
    while i < cs.len()
        invariant
            cs@ == body@,
            body@.len() < usize::MAX,
            0 <= i <= cs@.len(),
            lines == split_on(body@.take(i as int), '\n').len(),
            lines <= i + 1,
        decreases cs@.len() - i,
    {
        proof {
            lemma_split_on_step(body@, '\n', i as int);
        }
        if cs[i] == '\n' {
            lines = lines + 1;
        }
        i = i + 1;
    }
    assert(body@.take(cs@.len() as int) =~= body@);
    lines
}

/// Every line of `lines` below index `k` fits the line limit.
pub open spec fn lines_fit_below(lines: Seq<Seq<char>>, k: int) -> bool {
    forall|i: int| 0 <= i < k ==> utf8_len(#[trigger] lines[i]) <= MAX_LINE_BYTES
}

/// What checking a whole body gives: the first line over the byte limit, else a breach
/// of the line-count limit, else success.
pub open spec fn check_body_result(body: Seq<char>, r: Result<(), LimitViolation>) -> bool {
    let lines = body_lines(body);
    if body.len() == 0 {
        r == Ok::<(), LimitViolation>(())
    } else {
        match r {
            Ok(()) => lines_fit_below(lines, lines.len() as int) && lines.len()
                <= MAX_LINES_PER_NOTE,
            Err(LimitViolation::LineTooLong { bytes }) => exists|k: int|
                0 <= k < lines.len() && lines_fit_below(lines, k) && utf8_len(#[trigger] lines[k])
                    > MAX_LINE_BYTES && bytes == utf8_len(lines[k]),
            Err(LimitViolation::TooManyLines { lines: n }) => lines_fit_below(
                lines,
                lines.len() as int,
            ) && lines.len() > MAX_LINES_PER_NOTE && n == lines.len(),
            Err(LimitViolation::NotebookFull { .. }) => false,
        }
    }
}

/// Checks a whole body against the line-length and line-count limits.
pub fn check_body(body: &str) -> (r: Result<(), LimitViolation>)
    requires
        body.spec_bytes().len() < usize::MAX,
    ensures
        check_body_result(body@, r),
{
    let cs = chars_of(body);
    if cs.len() == 0 {
        return Ok(());
    }
    let ghost s = body@;
    proof {
        lemma_utf8_len_take(s, s.len() as int);
        assert(s.take(s.len() as int) =~= s);
    }
    let mut lines: usize = 1;
    let mut cur: usize = 0;
    let mut i: usize = 0;
    while i < cs.len()
        invariant
            cs@ == s,
            s == body@,
            s.len() > 0,
            utf8_len(s) < usize::MAX,
            0 <= i <= s.len(),
            lines == split_on(s.take(i as int), '\n').len(),
            1 <= lines <= i + 1,
            cur == utf8_len(split_on(s.take(i as int), '\n').last()),
            cur <= utf8_len(s.take(i as int)),
            lines_fit_below(split_on(s.take(i as int), '\n'), lines - 1),
        decreases s.len() - i,
    {
        let c = cs[i];
        proof {
            lemma_split_on_step(s, '\n', i as int);
            lemma_utf8_len_take(s, i + 1);
            assert(s.take(i + 1) =~= s.take(i as int).push(c));
            lemma_utf8_len_push(s.take(i as int), c);
        }
        if c == '\n' {
            if cur > MAX_LINE_BYTES {
                proof {
                    let p = split_on(s.take(i as int), '\n');
                    lemma_split_on_prefix(s, '\n', i + 1, s.len() as int);
                    assert(s.take(s.len() as int) =~= s);
                    let q = split_on(s, '\n');
                    assert(q[lines - 1] == p[lines - 1]);
                    assert forall|k: int| 0 <= k < lines - 1 implies utf8_len(
                        #[trigger] q[k],
                    ) <= MAX_LINE_BYTES by {
                        assert(q[k] == p[k]);
                    }
                    assert(lines_fit_below(q, lines - 1));
                    assert(utf8_len(q[lines - 1]) > MAX_LINE_BYTES);
                    let k = lines - 1;
                    assert(0 <= k < body_lines(body@).len() && lines_fit_below(body_lines(body@), k)
                        && utf8_len(body_lines(body@)[k]) > MAX_LINE_BYTES && cur == utf8_len(
                        body_lines(body@)[k],
                    ));
                }
                return Err(LimitViolation::LineTooLong { bytes: cur });
            }
            lines = lines + 1;
            cur = 0;
            proof {
                assert(encode_utf8(Seq::<char>::empty()) =~= Seq::<u8>::empty());
            }
        } else {
            let w = char_width(c);
            proof {
                lemma_utf8_len_push(split_on(s.take(i as int), '\n').last(), c);
            }
            cur = cur + w;
        }
        i = i + 1;
    }
    assert(s.take(s.len() as int) =~= s);
    if cur > MAX_LINE_BYTES {
        let ghost k = lines - 1;
        assert(0 <= k < body_lines(body@).len() && lines_fit_below(body_lines(body@), k)
            && utf8_len(body_lines(body@)[k]) > MAX_LINE_BYTES && cur == utf8_len(
            body_lines(body@)[k],
        ));
        return Err(LimitViolation::LineTooLong { bytes: cur });
    }
    check_line_count(lines)
}

/// Rejects a note that would push a notebook past [`MAX_NOTES_PER_NOTEBOOK`] live notes.
pub fn check_notebook_capacity(live_notes: usize) -> (r: Result<(), LimitViolation>)
    ensures
        live_notes < MAX_NOTES_PER_NOTEBOOK ==> r == Ok::<(), LimitViolation>(()),
        live_notes >= MAX_NOTES_PER_NOTEBOOK ==> r == Err::<(), LimitViolation>(
            LimitViolation::NotebookFull { notes: live_notes },
        ),
{
    if live_notes >= MAX_NOTES_PER_NOTEBOOK {
        return Err(LimitViolation::NotebookFull { notes: live_notes });
    }
    Ok(())
}

} // verus!
