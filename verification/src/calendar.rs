use vstd::prelude::*;
use vstd::string::*;

use crate::error::StorageError;
use crate::ids::{random_id, uuid_text, uuid_to_string};
use crate::interop::{
    ascii_upper, copy_range, escape, escape_into, fold_all, fold_line, lines_view, lit_eq,
    push_lit, spec_split_prop, spec_unfold, split_prop, unescape, unescape_chars, unfold,
    upper_range,
};
use crate::links::{char_is_space, is_space};
use crate::models::{instant_of, now, spec_instant, Note, NANOS_PER_SEC};
use crate::text::{chars_of, string_of};

verus! {

/// `PRODID` of the calendars this library writes.
pub const PRODID: &'static str = "-//Keeplin//Keeplin//EN";

/// The `chrono` format of calendar times: UTC with a `Z`.
pub const ICS_UTC_FORMAT: &'static str = "%Y%m%dT%H%M%SZ";

/// The `chrono` format of floating calendar times, read as UTC.
pub const ICS_FLOATING_FORMAT: &'static str = "%Y%m%dT%H%M%S";

/// The `chrono` format of calendar dates.
pub const ICS_DATE_FORMAT: &'static str = "%Y%m%d";

/// Days from January 1 of year 1 to January 1, 1970, counting the first as day 1.
pub const EPOCH_DAYS_FROM_CE: i64 = 719163;

/// Nanoseconds in a day.
pub const NANOS_PER_DAY: i128 = 86_400_000_000_000;

/// What `chrono` writes, in the format `fmt`, for the instant `secs` whole seconds and
/// `nanos` nanoseconds after the Unix epoch, if it can represent that instant.
pub uninterp spec fn chrono_format(secs: i64, nanos: u32, fmt: Seq<char>) -> Option<Seq<char>>;

/// What `chrono` reads as a date and time from `text` in the format `fmt`, taken as UTC:
/// the whole seconds since the Unix epoch and the nanoseconds past them.
pub uninterp spec fn chrono_parse_datetime(text: Seq<char>, fmt: Seq<char>) -> Option<(i64, u32)>;

/// What `chrono` reads as a date (its day number counted from January 1 of year 1 as
/// day 1) from `text` in the format `fmt`.
pub uninterp spec fn chrono_parse_date(text: Seq<char>, fmt: Seq<char>) -> Option<i64>;

/// Formats an instant.
///
/// Trusted: calls `chrono::DateTime::from_timestamp`, which gives `None` for an instant
/// outside chrono's range, and `format(fmt).to_string()`; the text is only named, but
/// for the calendar format it is one line: chrono writes `%Y` as digits with a sign for
/// far years, `%m %d %H %M %S` as two digits each, and the rest as it stands. Only the
/// calendar format is admitted: with a format that holds an invalid item, chrono's
/// `to_string` panics.
#[verifier::external_body]
fn chrono_format_parts(secs: i64, nanos: u32, fmt: &str) -> (r: Option<String>)
    requires
        fmt@ == ICS_UTC_FORMAT@,
    ensures
        opt_string(r) == chrono_format(secs, nanos, fmt@),
        r matches Some(s) ==> !s@.contains('\n'),
{
    chrono::DateTime::from_timestamp(secs, nanos).map(|dt| dt.format(fmt).to_string())
}

/// Parses a date and time.
///
/// Trusted: calls `chrono::NaiveDateTime::parse_from_str`, takes the result as UTC with
/// `and_utc()`, and gives its `timestamp` and `timestamp_subsec_nanos`; the result is
/// only named.
#[verifier::external_body]
fn chrono_parse_datetime_parts(text: &str, fmt: &str) -> (r: Option<(i64, u32)>)
    ensures
        r == chrono_parse_datetime(text@, fmt@),
{
    chrono::NaiveDateTime::parse_from_str(text, fmt).ok().map(
        |n| (n.and_utc().timestamp(), n.and_utc().timestamp_subsec_nanos()),
    )
}

/// Parses a date.
///
/// Trusted: calls `chrono::NaiveDate::parse_from_str` and takes `num_days_from_ce`;
/// chrono's dates lie between January 1, 262145 BCE and December 31, 262143 CE, so the
/// day number lies within a hundred million of zero.
#[verifier::external_body]
fn chrono_parse_date_days(text: &str, fmt: &str) -> (r: Option<i64>)
    ensures
        r == chrono_parse_date(text@, fmt@),
        r matches Some(d) ==> -100_000_000 <= d <= 100_000_000,
{
    chrono::NaiveDate::parse_from_str(text, fmt).ok().map(
        |d| chrono::Datelike::num_days_from_ce(&d) as i64,
    )
}

/// The whole seconds (rounded down) and the nanoseconds past them of an instant, when the
/// seconds fit in 64 bits.
pub open spec fn spec_split_instant(t: i128) -> Option<(i64, u32)> {
    let q = t / NANOS_PER_SEC;
    let r = t % NANOS_PER_SEC;
    if i64::MIN <= q <= i64::MAX {
        Some((q as i64, r as u32))
    } else {
        None
    }
}

/// Splits an instant into whole seconds and the nanoseconds past them (see
/// [`spec_split_instant`]).
pub fn split_instant(t: i128) -> (r: Option<(i64, u32)>)
    ensures
        r == spec_split_instant(t),
        r matches Some((s, n)) ==> n < NANOS_PER_SEC && spec_instant(s, n) == t,
{
    let (q, rem): (i128, i128) = if t >= 0 {
        let u = t as u128;
        let q = (u / 1_000_000_000) as i128;
        let rem = (u % 1_000_000_000) as i128;
        proof {
            assert(u == (u / 1_000_000_000) * 1_000_000_000 + u % 1_000_000_000) by (nonlinear_arith);
            assert(u / 1_000_000_000 <= u) by (nonlinear_arith);
        }
        (q, rem)
    } else {
        let u = (-(t + 1)) as u128;
        let qu = (u / 1_000_000_000) as i128;
        let ru = (u % 1_000_000_000) as i128;
        proof {
            assert(u == (u / 1_000_000_000) * 1_000_000_000 + u % 1_000_000_000) by (nonlinear_arith);
            assert(u / 1_000_000_000 <= u) by (nonlinear_arith);
        }
        (-(qu + 1), 999_999_999 - ru)
    };
    proof {
        assert(0 <= rem < NANOS_PER_SEC);
        assert(t == q * NANOS_PER_SEC + rem);
        vstd::arithmetic::div_mod::lemma_fundamental_div_mod_converse(
            t as int,
            NANOS_PER_SEC as int,
            q as int,
            rem as int,
        );
    }
    if q < i64::MIN as i128 || q > i64::MAX as i128 {
        return None;
    }
    Some((q as i64, rem as u32))
}

pub open spec fn opt_string(o: Option<String>) -> Option<Seq<char>> {
    match o {
        Some(s) => Some(s@),
        None => None,
    }
}

/// The calendar text of an instant, if chrono can represent it.
pub open spec fn spec_format_dt(t: i128) -> Option<Seq<char>> {
    match spec_split_instant(t) {
        Some((s, n)) => chrono_format(s, n, ICS_UTC_FORMAT@),
        None => None,
    }
}

/// Writes an instant in the calendar format.
pub fn format_dt(t: i128) -> (r: Option<String>)
    ensures
        opt_string(r) == spec_format_dt(t),
        r matches Some(s) ==> !s@.contains('\n'),
{
    match split_instant(t) {
        Some((s, n)) => chrono_format_parts(s, n, ICS_UTC_FORMAT),
        None => None,
    }
}

/// `s` without leading and trailing white space.
pub open spec fn trim(s: Seq<char>) -> Seq<char> {
    s.subrange(trim_start(s, 0), trim_end(s, s.len() as int, trim_start(s, 0)))
}

/// First index at or after `i` that is not white space, or the end.
pub open spec fn trim_start(s: Seq<char>, i: int) -> int
    decreases s.len() - i,
{
    if i >= s.len() || i < 0 {
        i
    } else if is_space(s[i]) {
        trim_start(s, i + 1)
    } else {
        i
    }
}

/// Index just past the last character before `hi` and after `lo` that is not white
/// space, or `lo`.
pub open spec fn trim_end(s: Seq<char>, hi: int, lo: int) -> int
    decreases hi - lo,
{
    if hi <= lo {
        lo
    } else if is_space(s[hi - 1]) {
        trim_end(s, hi - 1, lo)
    } else {
        hi
    }
}

proof fn lemma_trim_bounds(s: Seq<char>, i: int)
    requires
        0 <= i <= s.len(),
    ensures
        i <= trim_start(s, i) <= s.len(),
    decreases s.len() - i,
{
    if i < s.len() && is_space(s[i]) {
        lemma_trim_bounds(s, i + 1);
    }
}

proof fn lemma_trim_end_bounds(s: Seq<char>, hi: int, lo: int)
    requires
        0 <= lo <= hi <= s.len(),
    ensures
        lo <= trim_end(s, hi, lo) <= hi,
    decreases hi - lo,
{
    if hi > lo && is_space(s[hi - 1]) {
        lemma_trim_end_bounds(s, hi - 1, lo);
    }
}

/// A text without leading and trailing white space.
pub(crate) fn trim_text(s: &[char]) -> (r: Vec<char>)
    ensures
        r@ == trim(s@),
{
    let mut lo: usize = 0;
    while lo < s.len() && char_is_space(s[lo])
        invariant
            0 <= lo <= s@.len(),
            trim_start(s@, 0) == trim_start(s@, lo as int),
        decreases s@.len() - lo,
    {
        lo = lo + 1;
    }
    let mut hi: usize = s.len();
    while hi > lo && char_is_space(s[hi - 1])
        invariant
            lo <= hi <= s@.len(),
            trim_start(s@, 0) == lo,
            trim_end(s@, s@.len() as int, lo as int) == trim_end(s@, hi as int, lo as int),
        decreases hi - lo,
    {
        hi = hi - 1;
    }
    copy_range(s, lo, hi)
}

/// The time a calendar value stands for: a UTC time, a floating time read as UTC, or a
/// date at midnight UTC, tried in that order on the trimmed value.
pub open spec fn spec_parse_dt(value: Seq<char>) -> Option<i128> {
    let t = trim(value);
    match chrono_parse_datetime(t, ICS_UTC_FORMAT@) {
        Some((s, n)) => Some(spec_instant(s, n)),
        None => match chrono_parse_datetime(t, ICS_FLOATING_FORMAT@) {
            Some((s, n)) => Some(spec_instant(s, n)),
            None => match chrono_parse_date(t, ICS_DATE_FORMAT@) {
                Some(d) => if -100_000_000 <= d <= 100_000_000 {
                    Some(((d - EPOCH_DAYS_FROM_CE) * NANOS_PER_DAY) as i128)
                } else {
                    None
                },
                None => None,
            },
        },
    }
}

/// Reads a calendar time value.
pub fn parse_dt(value: &str) -> (r: Option<i128>)
    ensures
        r == spec_parse_dt(value@),
{
    let cs = chars_of(value);
    let t = string_of(trim_text(cs.as_slice()).as_slice());
    if let Some((s, n)) = chrono_parse_datetime_parts(t.as_str(), ICS_UTC_FORMAT) {
        return Some(instant_of(s, n));
    }
    if let Some((s, n)) = chrono_parse_datetime_parts(t.as_str(), ICS_FLOATING_FORMAT) {
        return Some(instant_of(s, n));
    }
    match chrono_parse_date_days(t.as_str(), ICS_DATE_FORMAT) {
        Some(d) => {
            assert(-100_000_000 <= d <= 100_000_000);
            assert(-200_000_000 <= d - EPOCH_DAYS_FROM_CE <= 200_000_000);
            assert((d - EPOCH_DAYS_FROM_CE) * NANOS_PER_DAY <= 200_000_000 * 86_400_000_000_000)
                by (nonlinear_arith)
                requires
                    -200_000_000 <= d - EPOCH_DAYS_FROM_CE <= 200_000_000,
            ;
            assert((d - EPOCH_DAYS_FROM_CE) * NANOS_PER_DAY >= -200_000_000 * 86_400_000_000_000)
                by (nonlinear_arith)
                requires
                    -200_000_000 <= d - EPOCH_DAYS_FROM_CE <= 200_000_000,
            ;
            Some(((d - EPOCH_DAYS_FROM_CE) as i128) * NANOS_PER_DAY)
        },
        None => None,
    }
}

/// An event of a calendar. Times are nanoseconds since the Unix epoch.
#[derive(Debug, Clone, PartialEq, Eq)]
pub struct CalendarEvent {
    pub uid: String,
    pub summary: String,
    pub start: Option<i128>,
    pub end: Option<i128>,
    pub location: Option<String>,
    pub description: Option<String>,
    pub extra: Vec<String>,
}

/// A to-do of a calendar. Times are nanoseconds since the Unix epoch.
#[derive(Debug, Clone, PartialEq, Eq)]
pub struct CalendarTodo {
    pub uid: String,
    pub summary: String,
    pub due: Option<i128>,
    pub completed: Option<i128>,
    pub description: Option<String>,
    pub extra: Vec<String>,
}

/// A [`CalendarEvent`] with its texts as character sequences.
pub struct EventView {
    pub uid: Seq<char>,
    pub summary: Seq<char>,
    pub start: Option<i128>,
    pub end: Option<i128>,
    pub location: Option<Seq<char>>,
    pub description: Option<Seq<char>>,
    pub extra: Seq<Seq<char>>,
}

/// A [`CalendarTodo`] with its texts as character sequences.
pub struct TodoView {
    pub uid: Seq<char>,
    pub summary: Seq<char>,
    pub due: Option<i128>,
    pub completed: Option<i128>,
    pub description: Option<Seq<char>>,
    pub extra: Seq<Seq<char>>,
}

pub open spec fn texts_seq(v: Seq<String>) -> Seq<Seq<char>> {
    v.map_values(|s: String| s@)
}

impl View for CalendarEvent {
    type V = EventView;

    open spec fn view(&self) -> EventView {
        EventView {
            uid: self.uid@,
            summary: self.summary@,
            start: self.start,
            end: self.end,
            location: opt_string(self.location),
            description: opt_string(self.description),
            extra: texts_seq(self.extra@),
        }
    }
}

impl View for CalendarTodo {
    type V = TodoView;

    open spec fn view(&self) -> TodoView {
        TodoView {
            uid: self.uid@,
            summary: self.summary@,
            due: self.due,
            completed: self.completed,
            description: opt_string(self.description),
            extra: texts_seq(self.extra@),
        }
    }
}

/// The event with every field empty.
pub open spec fn empty_event() -> EventView {
    EventView {
        uid: Seq::empty(),
        summary: Seq::empty(),
        start: None,
        end: None,
        location: None,
        description: None,
        extra: Seq::empty(),
    }
}

/// The to-do with every field empty.
pub open spec fn empty_todo() -> TodoView {
    TodoView {
        uid: Seq::empty(),
        summary: Seq::empty(),
        due: None,
        completed: None,
        description: None,
        extra: Seq::empty(),
    }
}

impl Default for CalendarEvent {
    fn default() -> (r: CalendarEvent)
        ensures
            r@ == empty_event(),
    {
        let r = CalendarEvent {
            uid: String::new(),
            summary: String::new(),
            start: None,
            end: None,
            location: None,
            description: None,
            extra: Vec::new(),
        };
        assert(texts_seq(r.extra@) =~= Seq::<Seq<char>>::empty());
        r
    }
}

impl Default for CalendarTodo {
    fn default() -> (r: CalendarTodo)
        ensures
            r@ == empty_todo(),
    {
        let r = CalendarTodo {
            uid: String::new(),
            summary: String::new(),
            due: None,
            completed: None,
            description: None,
            extra: Vec::new(),
        };
        assert(texts_seq(r.extra@) =~= Seq::<Seq<char>>::empty());
        r
    }
}

/// The opening lines of a calendar.
pub open spec fn calendar_open_lines() -> Seq<Seq<char>> {
    seq!["BEGIN:VCALENDAR"@, "VERSION:2.0"@, "PRODID:"@ + PRODID@]
}

/// A line of a prefix and a text, when there is a text.
pub open spec fn opt_line(prefix: Seq<char>, o: Option<Seq<char>>) -> Seq<Seq<char>> {
    match o {
        Some(t) => seq![prefix + t],
        None => Seq::empty(),
    }
}

/// A line of a prefix and an escaped text, when there is a text.
pub open spec fn opt_escaped_line(prefix: Seq<char>, o: Option<Seq<char>>) -> Seq<Seq<char>> {
    match o {
        Some(t) => seq![prefix + escape(t)],
        None => Seq::empty(),
    }
}

/// A line of a prefix and a time, when there is a time that chrono can write.
pub open spec fn time_line(prefix: Seq<char>, o: Option<i128>) -> Seq<Seq<char>> {
    match o {
        Some(m) => opt_line(prefix, spec_format_dt(m)),
        None => Seq::empty(),
    }
}

/// The uid line and, when the stamp could be written, the stamp line of a component.
pub open spec fn uid_stamp_lines(uid: Seq<char>, stamp: Option<Seq<char>>) -> Seq<Seq<char>> {
    seq!["UID:"@ + escape(uid)] + opt_line("DTSTAMP:"@, stamp)
}

/// The content lines of an event's calendar, given its uid and stamp.
pub open spec fn event_lines(e: EventView, uid: Seq<char>, stamp: Option<Seq<char>>) -> Seq<
    Seq<char>,
> {
    calendar_open_lines() + seq!["BEGIN:VEVENT"@] + uid_stamp_lines(uid, stamp) + seq![
        "SUMMARY:"@ + escape(e.summary),
    ] + time_line("DTSTART:"@, e.start) + time_line("DTEND:"@, e.end) + opt_escaped_line(
        "LOCATION:"@,
        e.location,
    ) + opt_escaped_line("DESCRIPTION:"@, e.description) + e.extra + seq![
        "END:VEVENT"@,
        "END:VCALENDAR"@,
    ]
}

/// The lines that mark a to-do done: its completion time, its status and its percentage.
pub open spec fn completion_lines(o: Option<i128>) -> Seq<Seq<char>> {
    match o {
        Some(m) => opt_line("COMPLETED:"@, spec_format_dt(m)) + seq![
            "STATUS:COMPLETED"@,
            "PERCENT-COMPLETE:100"@,
        ],
        None => Seq::empty(),
    }
}

/// The content lines of a to-do's calendar, given its uid and stamp.
pub open spec fn todo_lines(d: TodoView, uid: Seq<char>, stamp: Option<Seq<char>>) -> Seq<
    Seq<char>,
> {
    calendar_open_lines() + seq!["BEGIN:VTODO"@] + uid_stamp_lines(uid, stamp) + seq![
        "SUMMARY:"@ + escape(d.summary),
    ] + time_line("DUE:"@, d.due) + completion_lines(d.completed) + opt_escaped_line(
        "DESCRIPTION:"@,
        d.description,
    ) + d.extra + seq!["END:VTODO"@, "END:VCALENDAR"@]
}

/// Whether the uid written for a component is its own, or a fresh one when it has none.
pub open spec fn written_uid(own: Seq<char>, uid: Seq<char>) -> bool {
    &&& own.len() > 0 ==> uid == own
    &&& own.len() == 0 ==> exists|id: u128| uid == uuid_text(id)
}

/// Whether a stamp is the calendar text of some time, or absent; a stamp is one line.
pub open spec fn stamp_of_time(stamp: Option<Seq<char>>) -> bool {
    &&& exists|t: i128| stamp == spec_format_dt(t)
    &&& stamp matches Some(s) ==> !s.contains('\n')
}

/// Folds one content line onto `out`.
fn put_line(out: &mut Vec<char>, line: &Vec<char>)
    ensures
        final(out)@ == old(out)@ + fold_all(seq![line@]),
{
    fold_line(line.as_slice(), out);
    assert(seq![line@].drop_last() =~= Seq::<Seq<char>>::empty());
    assert(fold_all(Seq::<Seq<char>>::empty()) =~= Seq::<char>::empty());
    assert(fold_all(seq![line@]) =~= crate::interop::fold(line@));
}

/// A line of a literal.
fn lit_line(lit: &str) -> (r: Vec<char>)
    ensures
        r@ == lit@,
{
    let mut l: Vec<char> = Vec::new();
    push_lit(&mut l, lit);
    assert(l@ =~= lit@);
    l
}

/// A line of a literal prefix and an escaped text.
fn escaped_line(prefix: &str, text: &str) -> (r: Vec<char>)
    ensures
        r@ == prefix@ + escape(text@),
{
    let mut l: Vec<char> = Vec::new();
    push_lit(&mut l, prefix);
    let cs = chars_of(text);
    escape_into(cs.as_slice(), &mut l);
    assert(l@ =~= prefix@ + escape(text@));
    l
}

/// A line of a literal prefix and a text as it is.
fn plain_line(prefix: &str, text: &str) -> (r: Vec<char>)
    ensures
        r@ == prefix@ + text@,
{
    let mut l: Vec<char> = Vec::new();
    push_lit(&mut l, prefix);
    push_lit(&mut l, text);
    assert(l@ =~= prefix@ + text@);
    l
}

/// Folding lines one after another is folding them together.
proof fn lemma_fold_all_append(a: Seq<Seq<char>>, b: Seq<Seq<char>>)
    ensures
        fold_all(a + b) == fold_all(a) + fold_all(b),
    decreases b.len(),
{
    if b.len() == 0 {
        assert(a + b =~= a);
        assert(fold_all(b) =~= Seq::<char>::empty());
        assert(fold_all(a) + fold_all(b) =~= fold_all(a));
    } else {
        lemma_fold_all_append(a, b.drop_last());
        assert((a + b).drop_last() =~= a + b.drop_last());
        assert((a + b).last() == b.last());
        assert(fold_all(a) + fold_all(b) =~= fold_all(a) + fold_all(b.drop_last()) + crate::interop::fold(
            b.last(),
        ));
    }
}

/// Writes the opening lines of a calendar.
fn write_calendar_open(out: &mut Vec<char>)
    ensures
        final(out)@ == old(out)@ + fold_all(calendar_open_lines()),
{
    let ghost o = out@;
    put_line(out, &lit_line("BEGIN:VCALENDAR"));
    put_line(out, &lit_line("VERSION:2.0"));
    put_line(out, &plain_line("PRODID:", PRODID));
    proof {
        let ls = calendar_open_lines();
        lemma_fold_all_append(seq![ls[0]], seq![ls[1]]);
        lemma_fold_all_append(seq![ls[0]] + seq![ls[1]], seq![ls[2]]);
        assert(seq![ls[0]] + seq![ls[1]] + seq![ls[2]] =~= ls);
        assert(out@ =~= o + fold_all(ls));
    }
}

/// Writes the uid line of a component, with a fresh uid when `uid` is empty, and its
/// stamp line with the current time.
fn write_uid_dtstamp(out: &mut Vec<char>, uid: &str)
    ensures
        exists|u: Seq<char>, st: Option<Seq<char>>|
            #![trigger uid_stamp_lines(u, st)]
            final(out)@ == old(out)@ + fold_all(uid_stamp_lines(u, st)) && written_uid(uid@, u)
                && stamp_of_time(st),
{
    let u = if uid.is_empty() {
        uuid_to_string(random_id())
    } else {
        uid.to_owned()
    };
    let ghost o = out@;
    put_line(out, &escaped_line("UID:", u.as_str()));
    let t = now();
    let stamp = format_dt(t);
    let ghost sv = opt_string(stamp);
    match &stamp {
        Some(s) => {
            put_line(out, &plain_line("DTSTAMP:", s.as_str()));
            proof {
                lemma_fold_all_append(seq!["UID:"@ + escape(u@)], seq!["DTSTAMP:"@ + s@]);
            }
        },
        None => {
            proof {
                assert(seq!["UID:"@ + escape(u@)] + Seq::<Seq<char>>::empty() =~= seq![
                    "UID:"@ + escape(u@),
                ]);
            }
        },
    }
    assert(uid_stamp_lines(u@, sv) =~= seq!["UID:"@ + escape(u@)] + opt_line("DTSTAMP:"@, sv));
    assert(out@ =~= o + fold_all(uid_stamp_lines(u@, sv)));
    assert(written_uid(uid@, u@));
    assert(stamp_of_time(sv));
}

/// Writes the time line of a prefix, when there is a time chrono can write.
fn put_time_line(out: &mut Vec<char>, prefix: &str, o: Option<i128>)
    ensures
        final(out)@ == old(out)@ + fold_all(time_line(prefix@, o)),
{
    match o {
        Some(m) => match format_dt(m) {
            Some(t) => {
                put_line(out, &plain_line(prefix, t.as_str()));
            },
            None => {
                assert(out@ =~= old(out)@ + fold_all(Seq::<Seq<char>>::empty()));
            },
        },
        None => {
            assert(out@ =~= old(out)@ + fold_all(Seq::<Seq<char>>::empty()));
        },
    }
}

/// Writes the escaped line of a prefix, when there is a text.
fn put_escaped_opt(out: &mut Vec<char>, prefix: &str, o: &Option<String>)
    ensures
        final(out)@ == old(out)@ + fold_all(opt_escaped_line(prefix@, opt_string(*o))),
{
    match o {
        Some(t) => {
            put_line(out, &escaped_line(prefix, t.as_str()));
        },
        None => {
            assert(out@ =~= old(out)@ + fold_all(Seq::<Seq<char>>::empty()));
        },
    }
}

/// Writes lines as they are.
fn put_extra(out: &mut Vec<char>, extra: &Vec<String>)
    ensures
        final(out)@ == old(out)@ + fold_all(texts_seq(extra@)),
{
    let ghost o = out@;
    let mut i: usize = 0;
    assert(texts_seq(extra@).take(0) =~= Seq::<Seq<char>>::empty());
    assert(out@ =~= o + fold_all(Seq::<Seq<char>>::empty()));
    while i < extra.len()
        invariant
            0 <= i <= extra@.len(),
            out@ == o + fold_all(texts_seq(extra@).take(i as int)),
        decreases extra@.len() - i,
    {
        let l = chars_of(extra[i].as_str());
        put_line(out, &l);
        proof {
            lemma_fold_all_append(texts_seq(extra@).take(i as int), seq![l@]);
            assert(texts_seq(extra@).take(i as int) + seq![l@] =~= texts_seq(extra@).take(i + 1));
        }
        i = i + 1;
    }
    assert(texts_seq(extra@).take(i as int) =~= texts_seq(extra@));
}

/// Adds a run of lines after lines already folded.
proof fn lemma_fold_more(o: Seq<char>, a: Seq<Seq<char>>, b: Seq<Seq<char>>)
    ensures
        o + fold_all(a) + fold_all(b) == o + fold_all(a + b),
{
    lemma_fold_all_append(a, b);
    assert(o + fold_all(a) + fold_all(b) =~= o + (fold_all(a) + fold_all(b)));
}

impl CalendarEvent {
    /// The event as an iCalendar text. An event without a uid is written with a fresh
    /// random one; the stamp is the current time.
    pub fn to_ics(&self) -> (r: String)
        ensures
            exists|u: Seq<char>, st: Option<Seq<char>>|
                #![trigger event_lines(self@, u, st)]
                r@ == fold_all(event_lines(self@, u, st)) && written_uid(self.uid@, u)
                    && stamp_of_time(st),
    {
        let mut out: Vec<char> = Vec::new();
        write_calendar_open(&mut out);
        put_line(&mut out, &lit_line("BEGIN:VEVENT"));
        let ghost a = calendar_open_lines() + seq!["BEGIN:VEVENT"@];
        proof {
            lemma_fold_all_append(calendar_open_lines(), seq!["BEGIN:VEVENT"@]);
            assert(out@ =~= fold_all(a));
        }
        let ghost before = out@;
        write_uid_dtstamp(&mut out, self.uid.as_str());
        let ghost (u, st) = choose|u: Seq<char>, st: Option<Seq<char>>|
            #![trigger uid_stamp_lines(u, st)]
            out@ == before + fold_all(uid_stamp_lines(u, st)) && written_uid(self.uid@, u)
                && stamp_of_time(st);
        let ghost mut ls = a + uid_stamp_lines(u, st);
        proof {
            lemma_fold_all_append(a, uid_stamp_lines(u, st));
        }
        let ghost b0 = out@;
        put_line(&mut out, &escaped_line("SUMMARY:", self.summary.as_str()));
        proof {
            lemma_fold_more(Seq::empty(), ls, seq!["SUMMARY:"@ + escape(self.summary@)]);
            assert(Seq::<char>::empty() + fold_all(ls) =~= fold_all(ls));
            ls = ls + seq!["SUMMARY:"@ + escape(self.summary@)];
            assert(out@ =~= fold_all(ls));
        }
        put_time_line(&mut out, "DTSTART:", self.start);
        proof {
            lemma_fold_all_append(ls, time_line("DTSTART:"@, self.start));
            ls = ls + time_line("DTSTART:"@, self.start);
        }
        put_time_line(&mut out, "DTEND:", self.end);
        proof {
            lemma_fold_all_append(ls, time_line("DTEND:"@, self.end));
            ls = ls + time_line("DTEND:"@, self.end);
        }
        put_escaped_opt(&mut out, "LOCATION:", &self.location);
        proof {
            lemma_fold_all_append(ls, opt_escaped_line("LOCATION:"@, self@.location));
            ls = ls + opt_escaped_line("LOCATION:"@, self@.location);
        }
        put_escaped_opt(&mut out, "DESCRIPTION:", &self.description);
        proof {
            lemma_fold_all_append(ls, opt_escaped_line("DESCRIPTION:"@, self@.description));
            ls = ls + opt_escaped_line("DESCRIPTION:"@, self@.description);
        }
        put_extra(&mut out, &self.extra);
        proof {
            lemma_fold_all_append(ls, self@.extra);
            ls = ls + self@.extra;
        }
        put_line(&mut out, &lit_line("END:VEVENT"));
        proof {
            lemma_fold_all_append(ls, seq!["END:VEVENT"@]);
            ls = ls + seq!["END:VEVENT"@];
        }
        put_line(&mut out, &lit_line("END:VCALENDAR"));
        proof {
            lemma_fold_all_append(ls, seq!["END:VCALENDAR"@]);
            ls = ls + seq!["END:VCALENDAR"@];
            assert(ls =~= event_lines(self@, u, st));
        }
        string_of(out.as_slice())
    }
}

/// Writes the lines that mark a to-do done, when it has a completion time.
fn put_completion(out: &mut Vec<char>, o: Option<i128>)
    ensures
        final(out)@ == old(out)@ + fold_all(completion_lines(o)),
{
    match o {
        Some(m) => {
            let ghost o0 = out@;
            put_time_line(out, "COMPLETED:", Some(m));
            put_line(out, &lit_line("STATUS:COMPLETED"));
            put_line(out, &lit_line("PERCENT-COMPLETE:100"));
            proof {
                let c = time_line("COMPLETED:"@, Some(m));
                lemma_fold_all_append(c, seq!["STATUS:COMPLETED"@]);
                lemma_fold_all_append(c + seq!["STATUS:COMPLETED"@], seq!["PERCENT-COMPLETE:100"@]);
                assert(c + seq!["STATUS:COMPLETED"@] + seq!["PERCENT-COMPLETE:100"@] =~= completion_lines(
                    o,
                ));
                assert(out@ =~= o0 + fold_all(completion_lines(o)));
            }
        },
        None => {
            assert(out@ =~= old(out)@ + fold_all(Seq::<Seq<char>>::empty()));
        },
    }
}

impl CalendarTodo {
    /// The to-do as an iCalendar text. A to-do without a uid is written with a fresh
    /// random one; the stamp is the current time. A completed to-do also carries
    /// `STATUS:COMPLETED` and `PERCENT-COMPLETE:100`.
    pub fn to_ics(&self) -> (r: String)
        ensures
            exists|u: Seq<char>, st: Option<Seq<char>>|
                #![trigger todo_lines(self@, u, st)]
                r@ == fold_all(todo_lines(self@, u, st)) && written_uid(self.uid@, u)
                    && stamp_of_time(st),
    {
        let mut out: Vec<char> = Vec::new();
        write_calendar_open(&mut out);
        put_line(&mut out, &lit_line("BEGIN:VTODO"));
        let ghost a = calendar_open_lines() + seq!["BEGIN:VTODO"@];
        proof {
            lemma_fold_all_append(calendar_open_lines(), seq!["BEGIN:VTODO"@]);
            assert(out@ =~= fold_all(a));
        }
        let ghost before = out@;
        write_uid_dtstamp(&mut out, self.uid.as_str());
        let ghost (u, st) = choose|u: Seq<char>, st: Option<Seq<char>>|
            #![trigger uid_stamp_lines(u, st)]
            out@ == before + fold_all(uid_stamp_lines(u, st)) && written_uid(self.uid@, u)
                && stamp_of_time(st);
        let ghost mut ls = a + uid_stamp_lines(u, st);
        proof {
            lemma_fold_all_append(a, uid_stamp_lines(u, st));
        }
        put_line(&mut out, &escaped_line("SUMMARY:", self.summary.as_str()));
        proof {
            lemma_fold_all_append(ls, seq!["SUMMARY:"@ + escape(self.summary@)]);
            ls = ls + seq!["SUMMARY:"@ + escape(self.summary@)];
        }
        put_time_line(&mut out, "DUE:", self.due);
        proof {
            lemma_fold_all_append(ls, time_line("DUE:"@, self.due));
            ls = ls + time_line("DUE:"@, self.due);
        }
        put_completion(&mut out, self.completed);
        proof {
            lemma_fold_all_append(ls, completion_lines(self.completed));
            ls = ls + completion_lines(self.completed);
        }
        put_escaped_opt(&mut out, "DESCRIPTION:", &self.description);
        proof {
            lemma_fold_all_append(ls, opt_escaped_line("DESCRIPTION:"@, self@.description));
            ls = ls + opt_escaped_line("DESCRIPTION:"@, self@.description);
        }
        put_extra(&mut out, &self.extra);
        proof {
            lemma_fold_all_append(ls, self@.extra);
            ls = ls + self@.extra;
        }
        put_line(&mut out, &lit_line("END:VTODO"));
        proof {
            lemma_fold_all_append(ls, seq!["END:VTODO"@]);
            ls = ls + seq!["END:VTODO"@];
        }
        put_line(&mut out, &lit_line("END:VCALENDAR"));
        proof {
            lemma_fold_all_append(ls, seq!["END:VCALENDAR"@]);
            ls = ls + seq!["END:VCALENDAR"@];
            assert(ls =~= todo_lines(self@, u, st));
        }
        string_of(out.as_slice())
    }
}

/// Whether two texts are equal when ASCII case is ignored.
pub open spec fn eq_ignore_case(a: Seq<char>, b: Seq<char>) -> bool {
    ascii_upper(a) == ascii_upper(b)
}

/// Whether two texts are equal when ASCII case is ignored.
fn chars_eq_ignore_case(a: &[char], b: &[char]) -> (r: bool)
    ensures
        r == eq_ignore_case(a@, b@),
{
    let ua = upper_range(a, 0, a.len());
    let ub = upper_range(b, 0, b.len());
    assert(a@.subrange(0, a@.len() as int) =~= a@);
    assert(b@.subrange(0, b@.len() as int) =~= b@);
    if ua.len() != ub.len() {
        return false;
    }
    let mut i: usize = 0;
    while i < ua.len()
        invariant
            ua@.len() == ub@.len(),
            ua@ == ascii_upper(a@),
            ub@ == ascii_upper(b@),
            0 <= i <= ua@.len(),
            forall|k: int| 0 <= k < i ==> ua@[k] == ub@[k],
        decreases ua@.len() - i,
    {
        if ua[i] != ub[i] {
            assert(ua@[i as int] != ub@[i as int]);
            assert(ua@ != ub@);
            return false;
        }
        i = i + 1;
    }
    assert(ua@ =~= ub@);
    true
}

/// Reads unfolded lines from index `i` on, collecting the lines of each component of the
/// given kind: `BEGIN` of the kind starts a new one (dropping one left open), `END` of
/// the kind closes the open one, lines without a colon are skipped, and a component left
/// open at the end is kept.
pub open spec fn comp_scan(
    lines: Seq<Seq<char>>,
    kind: Seq<char>,
    i: int,
    cur: Option<Seq<Seq<char>>>,
    out: Seq<Seq<Seq<char>>>,
) -> Seq<Seq<Seq<char>>>
    decreases lines.len() - i,
{
    if i < 0 || i >= lines.len() {
        match cur {
            Some(c) => out.push(c),
            None => out,
        }
    } else {
        match spec_split_prop(lines[i]) {
            None => comp_scan(lines, kind, i + 1, cur, out),
            Some((n, v)) => if n == "BEGIN"@ && eq_ignore_case(v, kind) {
                comp_scan(lines, kind, i + 1, Some(Seq::empty()), out)
            } else if n == "END"@ && eq_ignore_case(v, kind) {
                match cur {
                    Some(c) => comp_scan(lines, kind, i + 1, None, out.push(c)),
                    None => comp_scan(lines, kind, i + 1, None, out),
                }
            } else {
                match cur {
                    Some(c) => comp_scan(lines, kind, i + 1, Some(c.push(lines[i])), out),
                    None => comp_scan(lines, kind, i + 1, None, out),
                }
            },
        }
    }
}

/// The components of a kind in a calendar text, each as its content lines.
pub open spec fn spec_split_components(input: Seq<char>, kind: Seq<char>) -> Seq<Seq<Seq<char>>> {
    comp_scan(spec_unfold(input), kind, 0, None, Seq::empty())
}

pub open spec fn comps_view(v: Seq<Vec<Vec<char>>>) -> Seq<Seq<Seq<char>>> {
    v.map_values(|c: Vec<Vec<char>>| lines_view(c@))
}

/// The components of a kind in a calendar text, each as its content lines.
fn split_components(input: &str, kind: &str) -> (r: Vec<Vec<Vec<char>>>)
    ensures
        comps_view(r@) == spec_split_components(input@, kind@),
{
    let cs = chars_of(input);
    let kc = chars_of(kind);
    let lines = unfold(cs.as_slice());
    let ghost ls = lines_view(lines@);
    let mut out: Vec<Vec<Vec<char>>> = Vec::new();
    let mut cur: Option<Vec<Vec<char>>> = None;
    let mut i: usize = 0;
    assert(comps_view(out@) =~= Seq::<Seq<Seq<char>>>::empty());
    while i < lines.len()
        invariant
            ls == lines_view(lines@),
            ls == spec_unfold(input@),
            kc@ == kind@,
            0 <= i <= lines@.len(),
            comp_scan(ls, kind@, 0, None, Seq::empty()) == comp_scan(
                ls,
                kind@,
                i as int,
                opt_lines(cur),
                comps_view(out@),
            ),
        decreases lines@.len() - i,
    {
        let line = lines[i].as_slice();
        assert(ls[i as int] == line@);
        match split_prop(line) {
            None => {},
            Some((name, start)) => {
                let value = copy_range(line, start, line.len());
                assert(value@ =~= line@.skip(start as int));
                let of_kind = chars_eq_ignore_case(value.as_slice(), kc.as_slice());
                if lit_eq(name.as_slice(), "BEGIN") && of_kind {
                    cur = Some(Vec::new());
                    assert(lines_view(Seq::<Vec<char>>::empty()) =~= Seq::<Seq<char>>::empty());
                } else if lit_eq(name.as_slice(), "END") && of_kind {
                    match cur {
                        Some(c) => {
                            let ghost before = out@;
                            let ghost cv = lines_view(c@);
                            out.push(c);
                            assert(comps_view(out@) =~= comps_view(before).push(cv));
                        },
                        None => {},
                    }
                    cur = None;
                } else {
                    match cur {
                        Some(mut c) => {
                            let ghost before = c@;
                            c.push(copy_range(line, 0, line.len()));
                            assert(line@.subrange(0, line@.len() as int) =~= line@);
                            assert(lines_view(c@) =~= lines_view(before).push(line@));
                            cur = Some(c);
                        },
                        None => {
                            cur = None;
                        },
                    }
                }
            },
        }
        i = i + 1;
    }
    match cur {
        Some(c) => {
            let ghost before = out@;
            let ghost cv = lines_view(c@);
            out.push(c);
            assert(comps_view(out@) =~= comps_view(before).push(cv));
        },
        None => {},
    }
    out
}

pub open spec fn opt_lines(o: Option<Vec<Vec<char>>>) -> Option<Seq<Seq<char>>> {
    match o {
        Some(c) => Some(lines_view(c@)),
        None => None,
    }
}

/// The properties of content lines: name, value and line of each line with a colon, in
/// order.
pub open spec fn prop_triples(lines: Seq<Seq<char>>) -> Seq<(Seq<char>, Seq<char>, Seq<char>)>
    decreases lines.len(),
{
    if lines.len() == 0 {
        Seq::empty()
    } else {
        let prev = prop_triples(lines.drop_last());
        match spec_split_prop(lines.last()) {
            Some((n, v)) => prev.push((n, v, lines.last())),
            None => prev,
        }
    }
}

pub open spec fn triples_view(v: Seq<(Vec<char>, Vec<char>, Vec<char>)>) -> Seq<
    (Seq<char>, Seq<char>, Seq<char>),
> {
    v.map_values(|t: (Vec<char>, Vec<char>, Vec<char>)| (t.0@, t.1@, t.2@))
}

/// The property name, value and line of each content line that has a colon, in order.
fn parse_component_lines(lines: &Vec<Vec<char>>) -> (r: Vec<(Vec<char>, Vec<char>, Vec<char>)>)
    ensures
        triples_view(r@) == prop_triples(lines_view(lines@)),
{
    let ghost ls = lines_view(lines@);
    let mut out: Vec<(Vec<char>, Vec<char>, Vec<char>)> = Vec::new();
    let mut i: usize = 0;
    assert(triples_view(out@) =~= prop_triples(ls.take(0)));
    while i < lines.len()
        invariant
            ls == lines_view(lines@),
            0 <= i <= lines@.len(),
            triples_view(out@) == prop_triples(ls.take(i as int)),
        decreases lines@.len() - i,
    {
        let line = lines[i].as_slice();
        assert(ls.take(i + 1).drop_last() =~= ls.take(i as int));
        assert(ls.take(i + 1).last() == line@);
        match split_prop(line) {
            None => {},
            Some((name, start)) => {
                let value = copy_range(line, start, line.len());
                assert(value@ =~= line@.skip(start as int));
                let whole = copy_range(line, 0, line.len());
                assert(whole@ =~= line@);
                let ghost before = out@;
                out.push((name, value, whole));
                assert(triples_view(out@) =~= triples_view(before).push((name@, value@, line@)));
            },
        }
        i = i + 1;
    }
    assert(ls.take(i as int) =~= ls);
    out
}

/// What one property of an event component does to the event read so far.
pub open spec fn event_apply(e: EventView, name: Seq<char>, value: Seq<char>, line: Seq<char>) -> EventView {
    if name == "UID"@ {
        EventView { uid: unescape(value), ..e }
    } else if name == "SUMMARY"@ {
        EventView { summary: unescape(value), ..e }
    } else if name == "DTSTART"@ {
        EventView { start: spec_parse_dt(value), ..e }
    } else if name == "DTEND"@ {
        EventView { end: spec_parse_dt(value), ..e }
    } else if name == "LOCATION"@ {
        EventView { location: Some(unescape(value)), ..e }
    } else if name == "DESCRIPTION"@ {
        EventView { description: Some(unescape(value)), ..e }
    } else if name == "DTSTAMP"@ {
        e
    } else {
        EventView { extra: e.extra.push(line), ..e }
    }
}

/// The event that properties give, one after the other, from the empty event.
pub open spec fn event_of_props(ps: Seq<(Seq<char>, Seq<char>, Seq<char>)>) -> EventView
    decreases ps.len(),
{
    if ps.len() == 0 {
        empty_event()
    } else {
        let p = ps.last();
        event_apply(event_of_props(ps.drop_last()), p.0, p.1, p.2)
    }
}

/// What one property of a to-do component does to the to-do read so far.
pub open spec fn todo_apply(d: TodoView, name: Seq<char>, value: Seq<char>, line: Seq<char>) -> TodoView {
    if name == "UID"@ {
        TodoView { uid: unescape(value), ..d }
    } else if name == "SUMMARY"@ {
        TodoView { summary: unescape(value), ..d }
    } else if name == "DUE"@ {
        TodoView { due: spec_parse_dt(value), ..d }
    } else if name == "COMPLETED"@ {
        TodoView { completed: spec_parse_dt(value), ..d }
    } else if name == "DESCRIPTION"@ {
        TodoView { description: Some(unescape(value)), ..d }
    } else if name == "STATUS"@ || name == "PERCENT-COMPLETE"@ || name == "DTSTAMP"@ {
        d
    } else {
        TodoView { extra: d.extra.push(line), ..d }
    }
}

/// The to-do that properties give, one after the other, from the empty to-do.
pub open spec fn todo_of_props(ps: Seq<(Seq<char>, Seq<char>, Seq<char>)>) -> TodoView
    decreases ps.len(),
{
    if ps.len() == 0 {
        empty_todo()
    } else {
        let p = ps.last();
        todo_apply(todo_of_props(ps.drop_last()), p.0, p.1, p.2)
    }
}

/// The events of a calendar text, one for each `VEVENT` component.
pub open spec fn spec_events(input: Seq<char>) -> Seq<EventView> {
    spec_split_components(input, "VEVENT"@).map_values(
        |c: Seq<Seq<char>>| event_of_props(prop_triples(c)),
    )
}

/// The to-dos of a calendar text, one for each `VTODO` component.
pub open spec fn spec_todos(input: Seq<char>) -> Seq<TodoView> {
    spec_split_components(input, "VTODO"@).map_values(
        |c: Seq<Seq<char>>| todo_of_props(prop_triples(c)),
    )
}

pub open spec fn events_view(v: Seq<CalendarEvent>) -> Seq<EventView> {
    v.map_values(|e: CalendarEvent| e@)
}

pub open spec fn todos_view(v: Seq<CalendarTodo>) -> Seq<TodoView> {
    v.map_values(|d: CalendarTodo| d@)
}

/// Applies one property of an event component to the event.
fn event_apply_exec(e: &mut CalendarEvent, name: &[char], value: &[char], line: &[char])
    ensures
        final(e)@ == event_apply(old(e)@, name@, value@, line@),
{
    if lit_eq(name, "UID") {
        e.uid = string_of(unescape_chars(value).as_slice());
    } else if lit_eq(name, "SUMMARY") {
        e.summary = string_of(unescape_chars(value).as_slice());
    } else if lit_eq(name, "DTSTART") {
        e.start = parse_dt(string_of(value).as_str());
    } else if lit_eq(name, "DTEND") {
        e.end = parse_dt(string_of(value).as_str());
    } else if lit_eq(name, "LOCATION") {
        e.location = Some(string_of(unescape_chars(value).as_slice()));
    } else if lit_eq(name, "DESCRIPTION") {
        e.description = Some(string_of(unescape_chars(value).as_slice()));
    } else if lit_eq(name, "DTSTAMP") {
    } else {
        let ghost before = e.extra@;
        e.extra.push(string_of(line));
        assert(texts_seq(e.extra@) =~= texts_seq(before).push(line@));
    }
}

/// Applies one property of a to-do component to the to-do.
fn todo_apply_exec(d: &mut CalendarTodo, name: &[char], value: &[char], line: &[char])
    ensures
        final(d)@ == todo_apply(old(d)@, name@, value@, line@),
{
    if lit_eq(name, "UID") {
        d.uid = string_of(unescape_chars(value).as_slice());
    } else if lit_eq(name, "SUMMARY") {
        d.summary = string_of(unescape_chars(value).as_slice());
    } else if lit_eq(name, "DUE") {
        d.due = parse_dt(string_of(value).as_str());
    } else if lit_eq(name, "COMPLETED") {
        d.completed = parse_dt(string_of(value).as_str());
    } else if lit_eq(name, "DESCRIPTION") {
        d.description = Some(string_of(unescape_chars(value).as_slice()));
    } else if lit_eq(name, "STATUS") || lit_eq(name, "PERCENT-COMPLETE") || lit_eq(name, "DTSTAMP") {
    } else {
        let ghost before = d.extra@;
        d.extra.push(string_of(line));
        assert(texts_seq(d.extra@) =~= texts_seq(before).push(line@));
    }
}

impl CalendarEvent {
    /// Every event of a calendar text, in order.
    pub fn from_ics_all(input: &str) -> (r: Vec<CalendarEvent>)
        ensures
            events_view(r@) == spec_events(input@),
    {
        let comps = split_components(input, "VEVENT");
        let ghost cv = comps_view(comps@);
        let mut out: Vec<CalendarEvent> = Vec::new();
        let mut k: usize = 0;
        assert(events_view(out@) =~= spec_events(input@).take(0));
        while k < comps.len()
            invariant
                cv == comps_view(comps@),
                cv == spec_split_components(input@, "VEVENT"@),
                0 <= k <= comps@.len(),
                events_view(out@) == spec_events(input@).take(k as int),
            decreases comps@.len() - k,
        {
            let props = parse_component_lines(&comps[k]);
            let ghost ps = triples_view(props@);
            assert(ps == prop_triples(cv[k as int]));
            let mut ev = CalendarEvent::default();
            let mut j: usize = 0;
            assert(ps.take(0) =~= Seq::<(Seq<char>, Seq<char>, Seq<char>)>::empty());
            while j < props.len()
                invariant
                    ps == triples_view(props@),
                    0 <= j <= props@.len(),
                    ev@ == event_of_props(ps.take(j as int)),
                decreases props@.len() - j,
            {
                let (name, value, line) = (&props[j].0, &props[j].1, &props[j].2);
                event_apply_exec(&mut ev, name.as_slice(), value.as_slice(), line.as_slice());
                assert(ps.take(j + 1).drop_last() =~= ps.take(j as int));
                j = j + 1;
            }
            assert(ps.take(j as int) =~= ps);
            let ghost before = out@;
            out.push(ev);
            assert(events_view(out@) =~= events_view(before).push(ev@));
            assert(spec_events(input@).take(k + 1) =~= spec_events(input@).take(k as int).push(
                event_of_props(prop_triples(cv[k as int])),
            ));
            k = k + 1;
        }
        assert(spec_events(input@).take(k as int) =~= spec_events(input@));
        out
    }

    /// The first event of a calendar text, if it has one.
    pub fn from_ics(input: &str) -> (r: Option<CalendarEvent>)
        ensures
            match r {
                Some(e) => spec_events(input@).len() > 0 && e@ == spec_events(input@)[0],
                None => spec_events(input@).len() == 0,
            },
    {
        let mut all = CalendarEvent::from_ics_all(input);
        if all.len() == 0 {
            None
        } else {
            assert(events_view(all@)[0] == all@[0]@);
            Some(all.remove(0))
        }
    }
}

impl CalendarTodo {
    /// Every to-do of a calendar text, in order.
    pub fn from_ics_all(input: &str) -> (r: Vec<CalendarTodo>)
        ensures
            todos_view(r@) == spec_todos(input@),
    {
        let comps = split_components(input, "VTODO");
        let ghost cv = comps_view(comps@);
        let mut out: Vec<CalendarTodo> = Vec::new();
        let mut k: usize = 0;
        assert(todos_view(out@) =~= spec_todos(input@).take(0));
        while k < comps.len()
            invariant
                cv == comps_view(comps@),
                cv == spec_split_components(input@, "VTODO"@),
                0 <= k <= comps@.len(),
                todos_view(out@) == spec_todos(input@).take(k as int),
            decreases comps@.len() - k,
        {
            let props = parse_component_lines(&comps[k]);
            let ghost ps = triples_view(props@);
            assert(ps == prop_triples(cv[k as int]));
            let mut td = CalendarTodo::default();
            let mut j: usize = 0;
            assert(ps.take(0) =~= Seq::<(Seq<char>, Seq<char>, Seq<char>)>::empty());
            while j < props.len()
                invariant
                    ps == triples_view(props@),
                    0 <= j <= props@.len(),
                    td@ == todo_of_props(ps.take(j as int)),
                decreases props@.len() - j,
            {
                let (name, value, line) = (&props[j].0, &props[j].1, &props[j].2);
                todo_apply_exec(&mut td, name.as_slice(), value.as_slice(), line.as_slice());
                assert(ps.take(j + 1).drop_last() =~= ps.take(j as int));
                j = j + 1;
            }
            assert(ps.take(j as int) =~= ps);
            let ghost before = out@;
            out.push(td);
            assert(todos_view(out@) =~= todos_view(before).push(td@));
            assert(spec_todos(input@).take(k + 1) =~= spec_todos(input@).take(k as int).push(
                todo_of_props(prop_triples(cv[k as int])),
            ));
            k = k + 1;
        }
        assert(spec_todos(input@).take(k as int) =~= spec_todos(input@));
        out
    }

    /// The first to-do of a calendar text, if it has one.
    pub fn from_ics(input: &str) -> (r: Option<CalendarTodo>)
        ensures
            match r {
                Some(d) => spec_todos(input@).len() > 0 && d@ == spec_todos(input@)[0],
                None => spec_todos(input@).len() == 0,
            },
    {
        let mut all = CalendarTodo::from_ics_all(input);
        if all.len() == 0 {
            None
        } else {
            assert(todos_view(all@)[0] == all@[0]@);
            Some(all.remove(0))
        }
    }
}

impl CalendarTodo {
    /// The to-do a to-do note stands for: its id as uid, its title as summary, its due
    /// and completion times, and its body as description when the body is not empty.
    pub fn from_note(note: &Note) -> (r: CalendarTodo)
        ensures
            r@ == (TodoView {
                uid: uuid_text(note.id),
                summary: note.title@,
                due: note.todo_due,
                completed: note.todo_completed,
                description: if note.body@.len() > 0 {
                    Some(note.body@)
                } else {
                    None
                },
                extra: Seq::empty(),
            }),
    {
        let r = CalendarTodo {
            uid: uuid_to_string(note.id),
            summary: note.title.clone(),
            due: note.todo_due,
            completed: note.todo_completed,
            description: if note.body.as_str().is_empty() {
                None
            } else {
                Some(note.body.clone())
            },
            extra: Vec::new(),
        };
        assert(texts_seq(r.extra@) =~= Seq::<Seq<char>>::empty());
        r
    }

    /// Makes a note the to-do: its title, body (the description or nothing), due and
    /// completion times, and marks it a to-do. The note's other fields stay.
    pub fn apply_to_note(&self, note: &mut Note)
        ensures
            final(note).title@ == self.summary@,
            final(note).body@ == (match self@.description {
                Some(d) => d,
                None => Seq::<char>::empty(),
            }),
            final(note).is_todo,
            final(note).todo_due == self.due,
            final(note).todo_completed == self.completed,
            final(note).id == old(note).id,
            final(note).notebook_id == old(note).notebook_id,
            final(note).created_at == old(note).created_at,
            final(note).updated_at == old(note).updated_at,
            final(note).deleted_at == old(note).deleted_at,
            final(note).alias == old(note).alias,
            final(note).bookmarks == old(note).bookmarks,
            final(note).links == old(note).links,
            final(note).vv == old(note).vv,
            final(note).last_writer == old(note).last_writer,
            final(note).is_pinned == old(note).is_pinned,
            final(note).is_starred == old(note).is_starred,
            final(note).sort_key == old(note).sort_key,
    {
        note.title = self.summary.clone();
        note.body = match &self.description {
            Some(d) => d.clone(),
            None => String::new(),
        };
        note.is_todo = true;
        note.todo_due = self.due;
        note.todo_completed = self.completed;
    }
}

/// A new note made the to-do `d`: in the Inbox, with the to-do's title, body, due and
/// completion times.
pub open spec fn todo_note(n: Note, d: TodoView) -> bool {
    &&& n.title@ == d.summary
    &&& n.body@ == (match d.description {
        Some(t) => t,
        None => Seq::<char>::empty(),
    })
    &&& n.is_todo
    &&& n.todo_due == d.due
    &&& n.todo_completed == d.completed
    &&& n.notebook_id == 0
    &&& n.deleted_at is None
}

/// Why a calendar text gives no to-do.
pub const NO_TODO: &'static str = "no VTODO in input";

/// The note to create for the first to-do of a calendar text.
pub fn import_todo(ics: &str) -> (r: Result<Note, StorageError>)
    ensures
        match r {
            Ok(n) => spec_todos(ics@).len() > 0 && todo_note(n, spec_todos(ics@)[0]),
            Err(e) => spec_todos(ics@).len() == 0 && (e matches StorageError::InvalidInput(m) && m@ == NO_TODO@),
        },
{
    match CalendarTodo::from_ics(ics) {
        Some(todo) => {
            let mut note = Note::new("", "");
            todo.apply_to_note(&mut note);
            Ok(note)
        },
        None => Err(StorageError::InvalidInput(NO_TODO.to_owned())),
    }
}

/// The notes to create, one for each to-do of a calendar text, in order; a text without
/// a to-do is refused.
pub fn import_todos(ics: &str) -> (r: Result<Vec<Note>, StorageError>)
    ensures
        match r {
            Ok(ns) => spec_todos(ics@).len() > 0 && ns@.len() == spec_todos(ics@).len() && forall|k: int|
                0 <= k < ns@.len() ==> todo_note(#[trigger] ns@[k], spec_todos(ics@)[k]),
            Err(e) => spec_todos(ics@).len() == 0 && (e matches StorageError::InvalidInput(m) && m@ == NO_TODO@),
        },
{
    let todos = CalendarTodo::from_ics_all(ics);
    let ghost tv = todos_view(todos@);
    if todos.len() == 0 {
        return Err(StorageError::InvalidInput(NO_TODO.to_owned()));
    }
    let mut notes: Vec<Note> = Vec::new();
    let mut k: usize = 0;
    while k < todos.len()
        invariant
            tv == todos_view(todos@),
            tv == spec_todos(ics@),
            0 <= k <= todos@.len(),
            notes@.len() == k,
            forall|j: int| 0 <= j < k ==> todo_note(#[trigger] notes@[j], tv[j]),
        decreases todos@.len() - k,
    {
        let mut note = Note::new("", "");
        todos[k].apply_to_note(&mut note);
        assert(tv[k as int] == todos@[k as int]@);
        notes.push(note);
        k = k + 1;
    }
    Ok(notes)
}

} // verus!
