use vstd::prelude::*;

use crate::calendar::{
    calendar_open_lines, completion_lines, comp_scan, empty_event, empty_todo, spec_todos, todo_apply, todo_lines,
    todo_of_props, TodoView, eq_ignore_case, event_apply, event_lines, event_of_props, opt_escaped_line, opt_line,
    prop_triples, spec_events, spec_format_dt, spec_parse_dt, spec_split_components, time_line,
    stamp_of_time, uid_stamp_lines, written_uid, EventView, PRODID,
};
use crate::interop::{ascii_upper, escape, fold_all, spec_split_prop, spec_unfold, unescape};
use crate::vcard_roundtrip::{
    foldable, lemma_prop_line, lemma_split_prop_of, lemma_unfold_fold_all, opt_no_cr, prop_prefix,
};

verus! {

/// The property names an event is read from.
pub open spec fn event_known(n: Seq<char>) -> bool {
    ||| n == "UID"@
    ||| n == "SUMMARY"@
    ||| n == "DTSTART"@
    ||| n == "DTEND"@
    ||| n == "LOCATION"@
    ||| n == "DESCRIPTION"@
    ||| n == "DTSTAMP"@
}

/// A content line with a colon that neither opens nor closes a component of `kind`.
pub open spec fn plain_in(l: Seq<char>, kind: Seq<char>) -> bool {
    match spec_split_prop(l) {
        Some((n, v)) => !((n == "BEGIN"@ || n == "END"@) && eq_ignore_case(v, kind)),
        None => false,
    }
}

/// An extra line that an event gives back as it is: it folds and unfolds unchanged, has
/// a colon, is no property an event is read from, and neither opens nor closes an event.
pub open spec fn event_keeps(l: Seq<char>) -> bool {
    &&& foldable(l)
    &&& plain_in(l, "VEVENT"@)
    &&& match spec_split_prop(l) {
        Some((n, v)) => !event_known(n),
        None => false,
    }
}

/// A time that is absent, or that chrono writes on one line and reads back.
pub open spec fn time_reads_back(o: Option<i128>) -> bool {
    match o {
        Some(m) => match spec_format_dt(m) {
            Some(t) => !t.contains('\n') && spec_parse_dt(t) == Some(m),
            None => false,
        },
        None => true,
    }
}

/// An event whose calendar text reads back as the same event, whatever uid and stamp it
/// is written with: texts without carriage returns (escaping drops them), times that
/// chrono writes and reads back (whole seconds in its range), and extra lines that are
/// kept as they are.
pub open spec fn event_faithful(e: EventView) -> bool {
    &&& !e.summary.contains('\r')
    &&& opt_no_cr(e.location)
    &&& opt_no_cr(e.description)
    &&& time_reads_back(e.start)
    &&& time_reads_back(e.end)
    &&& forall|k: int| 0 <= k < e.extra.len() ==> event_keeps(#[trigger] e.extra[k])
}

/// Facts about the literals of a calendar.
proof fn lemma_ics_literals()
    ensures
        prop_prefix("UID:"@, "UID"@),
        prop_prefix("SUMMARY:"@, "SUMMARY"@),
        prop_prefix("LOCATION:"@, "LOCATION"@),
        prop_prefix("DESCRIPTION:"@, "DESCRIPTION"@),
        prop_prefix("DTSTAMP:"@, "DTSTAMP"@),
        prop_prefix("DTSTART:"@, "DTSTART"@),
        prop_prefix("DTEND:"@, "DTEND"@),
        spec_split_prop("BEGIN:VCALENDAR"@) == Some(("BEGIN"@, "VCALENDAR"@)),
        spec_split_prop("VERSION:2.0"@) == Some(("VERSION"@, "2.0"@)),
        spec_split_prop("PRODID:"@ + PRODID@) == Some(("PRODID"@, PRODID@)),
        spec_split_prop("BEGIN:VEVENT"@) == Some(("BEGIN"@, "VEVENT"@)),
        spec_split_prop("END:VEVENT"@) == Some(("END"@, "VEVENT"@)),
        spec_split_prop("END:VCALENDAR"@) == Some(("END"@, "VCALENDAR"@)),
        foldable("BEGIN:VCALENDAR"@),
        foldable("VERSION:2.0"@),
        foldable("PRODID:"@ + PRODID@),
        foldable("BEGIN:VEVENT"@),
        foldable("END:VEVENT"@),
        foldable("END:VCALENDAR"@),
        eq_ignore_case("VEVENT"@, "VEVENT"@),
        !eq_ignore_case("VCALENDAR"@, "VEVENT"@),
        "BEGIN"@ != "END"@,
        !event_known("BEGIN"@),
        !event_known("END"@),
        "UID"@ != "BEGIN"@ && "UID"@ != "END"@,
        "SUMMARY"@ != "BEGIN"@ && "SUMMARY"@ != "END"@,
        "LOCATION"@ != "BEGIN"@ && "LOCATION"@ != "END"@,
        "DESCRIPTION"@ != "BEGIN"@ && "DESCRIPTION"@ != "END"@,
        "DTSTAMP"@ != "BEGIN"@ && "DTSTAMP"@ != "END"@,
        "DTSTART"@ != "BEGIN"@ && "DTSTART"@ != "END"@,
        "DTEND"@ != "BEGIN"@ && "DTEND"@ != "END"@,
        "VERSION"@ != "BEGIN"@ && "VERSION"@ != "END"@,
        "PRODID"@ != "BEGIN"@ && "PRODID"@ != "END"@,
        "UID"@ != "SUMMARY"@,
        "DTSTAMP"@ != "UID"@ && "DTSTAMP"@ != "SUMMARY"@ && "DTSTAMP"@ != "DTSTART"@
            && "DTSTAMP"@ != "DTEND"@ && "DTSTAMP"@ != "LOCATION"@ && "DTSTAMP"@ != "DESCRIPTION"@,
        "DTSTART"@ != "UID"@ && "DTSTART"@ != "SUMMARY"@,
        "DTEND"@ != "UID"@ && "DTEND"@ != "SUMMARY"@ && "DTEND"@ != "DTSTART"@,
        "LOCATION"@ != "UID"@ && "LOCATION"@ != "SUMMARY"@ && "LOCATION"@ != "DTSTART"@
            && "LOCATION"@ != "DTEND"@,
        "DESCRIPTION"@ != "UID"@ && "DESCRIPTION"@ != "SUMMARY"@ && "DESCRIPTION"@ != "DTSTART"@
            && "DESCRIPTION"@ != "DTEND"@ && "DESCRIPTION"@ != "LOCATION"@,
{
    reveal_strlit("UID:");
    reveal_strlit("UID");
    reveal_strlit("SUMMARY:");
    reveal_strlit("SUMMARY");
    reveal_strlit("LOCATION:");
    reveal_strlit("LOCATION");
    reveal_strlit("DESCRIPTION:");
    reveal_strlit("DESCRIPTION");
    reveal_strlit("DTSTAMP:");
    reveal_strlit("DTSTAMP");
    reveal_strlit("DTSTART:");
    reveal_strlit("DTSTART");
    reveal_strlit("DTEND:");
    reveal_strlit("DTEND");
    reveal_strlit("BEGIN:VCALENDAR");
    reveal_strlit("BEGIN");
    reveal_strlit("VCALENDAR");
    reveal_strlit("VERSION:2.0");
    reveal_strlit("VERSION");
    reveal_strlit("2.0");
    reveal_strlit("PRODID:");
    reveal_strlit("PRODID");
    reveal_strlit("-//Keeplin//Keeplin//EN");
    reveal_strlit("BEGIN:VEVENT");
    reveal_strlit("VEVENT");
    reveal_strlit("END:VEVENT");
    reveal_strlit("END");
    reveal_strlit("END:VCALENDAR");
    assert("UID:"@ =~= "UID"@ + seq![':']);
    assert(ascii_upper("UID"@) =~= "UID"@);
    assert("SUMMARY:"@ =~= "SUMMARY"@ + seq![':']);
    assert(ascii_upper("SUMMARY"@) =~= "SUMMARY"@);
    assert("LOCATION:"@ =~= "LOCATION"@ + seq![':']);
    assert(ascii_upper("LOCATION"@) =~= "LOCATION"@);
    assert("DESCRIPTION:"@ =~= "DESCRIPTION"@ + seq![':']);
    assert(ascii_upper("DESCRIPTION"@) =~= "DESCRIPTION"@);
    assert("DTSTAMP:"@ =~= "DTSTAMP"@ + seq![':']);
    assert(ascii_upper("DTSTAMP"@) =~= "DTSTAMP"@);
    assert("DTSTART:"@ =~= "DTSTART"@ + seq![':']);
    assert(ascii_upper("DTSTART"@) =~= "DTSTART"@);
    assert("DTEND:"@ =~= "DTEND"@ + seq![':']);
    assert(ascii_upper("DTEND"@) =~= "DTEND"@);
    assert("BEGIN:VCALENDAR"@ =~= "BEGIN"@ + seq![':'] + "VCALENDAR"@);
    assert(ascii_upper("BEGIN"@) =~= "BEGIN"@);
    lemma_split_prop_of("BEGIN"@, "VCALENDAR"@);
    assert("VERSION:2.0"@ =~= "VERSION"@ + seq![':'] + "2.0"@);
    assert(ascii_upper("VERSION"@) =~= "VERSION"@);
    lemma_split_prop_of("VERSION"@, "2.0"@);
    assert("PRODID:"@ + PRODID@ =~= "PRODID"@ + seq![':'] + PRODID@);
    assert(ascii_upper("PRODID"@) =~= "PRODID"@);
    lemma_split_prop_of("PRODID"@, PRODID@);
    assert("BEGIN:VEVENT"@ =~= "BEGIN"@ + seq![':'] + "VEVENT"@);
    lemma_split_prop_of("BEGIN"@, "VEVENT"@);
    assert("END:VEVENT"@ =~= "END"@ + seq![':'] + "VEVENT"@);
    assert(ascii_upper("END"@) =~= "END"@);
    lemma_split_prop_of("END"@, "VEVENT"@);
    assert("END:VCALENDAR"@ =~= "END"@ + seq![':'] + "VCALENDAR"@);
    lemma_split_prop_of("END"@, "VCALENDAR"@);
    assert(ascii_upper("VEVENT"@) =~= "VEVENT"@);
    assert(ascii_upper("VCALENDAR"@) =~= "VCALENDAR"@);
    assert("DTSTAMP"@[5] != "DTSTART"@[5]);
    assert("DTSTAMP"@[0] != "SUMMARY"@[0]);
    assert("DTSTART"@[0] != "SUMMARY"@[0]);
    let p = "PRODID:"@ + PRODID@;
    assert forall|k: int| 0 <= k < p.len() implies p[k] != '\n' by {}
    assert(p[0] == 'P');
}

/// What content lines do, one after the other, to an event read so far: each line with
/// a colon applies its property.
pub open spec fn ev_from(e: EventView, ls: Seq<Seq<char>>) -> EventView
    decreases ls.len(),
{
    if ls.len() == 0 {
        e
    } else {
        let prev = ev_from(e, ls.drop_last());
        match spec_split_prop(ls.last()) {
            Some((n, v)) => event_apply(prev, n, v, ls.last()),
            None => prev,
        }
    }
}

proof fn lemma_ev_from_append(e: EventView, a: Seq<Seq<char>>, b: Seq<Seq<char>>)
    ensures
        ev_from(e, a + b) == ev_from(ev_from(e, a), b),
    decreases b.len(),
{
    if b.len() == 0 {
        assert(a + b =~= a);
    } else {
        lemma_ev_from_append(e, a, b.drop_last());
        assert((a + b).drop_last() =~= a + b.drop_last());
        assert((a + b).last() == b.last());
    }
}

/// The event that the properties of lines give is what the lines do to the empty event.
proof fn lemma_props_of_lines(ls: Seq<Seq<char>>)
    ensures
        event_of_props(prop_triples(ls)) == ev_from(empty_event(), ls),
    decreases ls.len(),
{
    if ls.len() > 0 {
        lemma_props_of_lines(ls.drop_last());
        match spec_split_prop(ls.last()) {
            Some((n, v)) => {
                let pt = prop_triples(ls);
                assert(pt.drop_last() =~= prop_triples(ls.drop_last()));
                assert(pt.last() == (n, v, ls.last()));
            },
            None => {},
        }
    }
}

/// One line with a colon applies its property.
proof fn lemma_ev_one(e: EventView, l: Seq<char>, n: Seq<char>, v: Seq<char>)
    requires
        spec_split_prop(l) == Some((n, v)),
    ensures
        ev_from(e, seq![l]) == event_apply(e, n, v, l),
{
    assert(seq![l].drop_last() =~= Seq::<Seq<char>>::empty());
    assert(seq![l].last() == l);
    assert(ev_from(e, Seq::<Seq<char>>::empty()) == e);
}

/// Extra lines, read in an event, are kept in order.
proof fn lemma_ev_extra(e: EventView, xs: Seq<Seq<char>>)
    requires
        forall|k: int| 0 <= k < xs.len() ==> event_keeps(#[trigger] xs[k]),
    ensures
        ev_from(e, xs) == (EventView { extra: e.extra + xs, ..e }),
    decreases xs.len(),
{
    if xs.len() == 0 {
        assert(e.extra + xs =~= e.extra);
    } else {
        lemma_ev_extra(e, xs.drop_last());
        let l = xs.last();
        assert(event_keeps(xs[xs.len() - 1]));
        let prev = ev_from(e, xs.drop_last());
        match spec_split_prop(l) {
            Some((n, v)) => {
                assert(!event_known(n));
                assert(event_apply(prev, n, v, l) == EventView { extra: prev.extra.push(l), ..prev });
            },
            None => {},
        }
        assert((e.extra + xs.drop_last()).push(l) =~= e.extra + xs);
    }
}

/// Outside a component, lines that do not open one are passed over.
proof fn lemma_scan_skip(lines: Seq<Seq<char>>, kind: Seq<char>, i: int, j: int, out: Seq<Seq<Seq<char>>>)
    requires
        0 <= i <= j <= lines.len(),
        forall|k: int| i <= k < j ==> !(#[trigger] spec_split_prop(lines[k]) matches Some((n, v)) && n == "BEGIN"@
            && eq_ignore_case(v, kind)),
    ensures
        comp_scan(lines, kind, i, None, out) == comp_scan(lines, kind, j, None, out),
    decreases j - i,
{
    if i < j {
        lemma_scan_skip(lines, kind, i + 1, j, out);
        assert(!(spec_split_prop(lines[i]) matches Some((n, v)) && n == "BEGIN"@ && eq_ignore_case(v, kind)));
    }
}

/// Inside a component, lines that neither open nor close one are gathered.
proof fn lemma_scan_collect(
    lines: Seq<Seq<char>>,
    kind: Seq<char>,
    i: int,
    j: int,
    c: Seq<Seq<char>>,
    out: Seq<Seq<Seq<char>>>,
)
    requires
        0 <= i <= j <= lines.len(),
        forall|k: int| i <= k < j ==> plain_in(#[trigger] lines[k], kind),
    ensures
        comp_scan(lines, kind, i, Some(c), out) == comp_scan(lines, kind, j, Some(c + lines.subrange(i, j)), out),
    decreases j - i,
{
    if i < j {
        assert(plain_in(lines[i], kind));
        lemma_scan_collect(lines, kind, i + 1, j, c.push(lines[i]), out);
        assert(c.push(lines[i]) + lines.subrange(i + 1, j) =~= c + lines.subrange(i, j));
    } else {
        assert(c + lines.subrange(i, j) =~= c);
    }
}

/// A property line of a raw value splits into its name and the value, and folds.
proof fn lemma_raw_line(lit: Seq<char>, name: Seq<char>, t: Seq<char>)
    requires
        prop_prefix(lit, name),
        !t.contains('\n'),
    ensures
        spec_split_prop(lit + t) == Some((name, t)),
        foldable(lit + t),
{
    assert(lit + t =~= name + seq![':'] + t);
    lemma_split_prop_of(name, t);
    let l = lit + t;
    assert forall|k: int| 0 <= k < l.len() implies l[k] != '\n' by {
        if k < name.len() {
            assert(l[k] == name[k]);
            assert(name.contains(name[k]));
        } else if k > name.len() {
            assert(l[k] == t[k - name.len() - 1]);
            assert(t.contains(t[k - name.len() - 1]));
        }
    }
    assert(!l.contains('\n'));
    assert(l[0] == name[0]);
}

/// Every line of a run folds and neither opens nor closes a component of `kind`.
pub open spec fn lines_ok(b: Seq<Seq<char>>, kind: Seq<char>) -> bool {
    forall|k: int| 0 <= k < b.len() ==> foldable(#[trigger] b[k]) && plain_in(b[k], kind)
}

proof fn lemma_lines_ok_concat(a: Seq<Seq<char>>, b: Seq<Seq<char>>, kind: Seq<char>)
    requires
        lines_ok(a, kind),
        lines_ok(b, kind),
    ensures
        lines_ok(a + b, kind),
{
    assert forall|k: int| 0 <= k < (a + b).len() implies foldable(#[trigger] (a + b)[k]) && plain_in(
        (a + b)[k],
        kind,
    ) by {
        if k < a.len() {
            assert((a + b)[k] == a[k]);
        } else {
            assert((a + b)[k] == b[k - a.len()]);
        }
    }
}

/// A stamp that is absent or written on one line.
pub open spec fn stamp_ok(st: Option<Seq<char>>) -> bool {
    match st {
        Some(s) => !s.contains('\n'),
        None => true,
    }
}

/// The content lines of an event inside its component.
pub open spec fn event_body(e: EventView, uid: Seq<char>, st: Option<Seq<char>>) -> Seq<Seq<char>> {
    uid_stamp_lines(uid, st) + seq!["SUMMARY:"@ + escape(e.summary)] + time_line("DTSTART:"@, e.start)
        + time_line("DTEND:"@, e.end) + opt_escaped_line("LOCATION:"@, e.location) + opt_escaped_line(
        "DESCRIPTION:"@,
        e.description,
    ) + e.extra
}

/// A line of a time that reads back sets that time.
proof fn lemma_time_block(e0: EventView, lit: Seq<char>, name: Seq<char>, o: Option<i128>, kind: Seq<char>)
    requires
        prop_prefix(lit, name),
        name != "BEGIN"@ && name != "END"@,
        time_reads_back(o),
    ensures
        lines_ok(time_line(lit, o), kind),
        o is None ==> ev_from(e0, time_line(lit, o)) == e0,
        o is Some ==> exists|t: Seq<char>|
            #![trigger spec_parse_dt(t)]
            spec_parse_dt(t) == o && ev_from(e0, time_line(lit, o)) == event_apply(e0, name, t, lit + t),
{
    match o {
        Some(m) => {
            let t = spec_format_dt(m)->0;
            lemma_raw_line(lit, name, t);
            assert(time_line(lit, o) == seq![lit + t]);
            lemma_ev_one(e0, lit + t, name, t);
            assert(spec_parse_dt(t) == o);
        },
        None => {
            assert(time_line(lit, o) =~= Seq::<Seq<char>>::empty());
        },
    }
}

/// An escaped optional text, read in an event, is set to the text.
proof fn lemma_opt_block(e0: EventView, lit: Seq<char>, name: Seq<char>, o: Option<Seq<char>>, kind: Seq<char>)
    requires
        prop_prefix(lit, name),
        name != "BEGIN"@ && name != "END"@,
        opt_no_cr(o),
    ensures
        lines_ok(opt_escaped_line(lit, o), kind),
        o is None ==> ev_from(e0, opt_escaped_line(lit, o)) == e0,
        o is Some ==> ev_from(e0, opt_escaped_line(lit, o)) == event_apply(e0, name, escape(o->0), lit + escape(o->0))
            && unescape(escape(o->0)) == o->0,
{
    match o {
        Some(t) => {
            lemma_prop_line(lit, name, t);
            assert(opt_escaped_line(lit, o) == seq![lit + escape(t)]);
            lemma_ev_one(e0, lit + escape(t), name, escape(t));
        },
        None => {
            assert(opt_escaped_line(lit, o) =~= Seq::<Seq<char>>::empty());
        },
    }
}

/// The lines of an event's component, read from the empty event, give the event with the
/// uid it was written with; each of them folds and neither opens nor closes an event.
#[verifier::spinoff_prover]
proof fn lemma_event_body(e: EventView, uid: Seq<char>, st: Option<Seq<char>>)
    requires
        event_faithful(e),
        !uid.contains('\r'),
        stamp_ok(st),
    ensures
        ev_from(empty_event(), event_body(e, uid, st)) == (EventView { uid: uid, ..e }),
        lines_ok(event_body(e, uid, st), "VEVENT"@),
{
    lemma_ics_literals();
    let e0 = empty_event();
    let ub = seq!["UID:"@ + escape(uid)];
    let sb = opt_line("DTSTAMP:"@, st);
    let mb = seq!["SUMMARY:"@ + escape(e.summary)];
    let tb1 = time_line("DTSTART:"@, e.start);
    let tb2 = time_line("DTEND:"@, e.end);
    let lb = opt_escaped_line("LOCATION:"@, e.location);
    let db = opt_escaped_line("DESCRIPTION:"@, e.description);
    let xb = e.extra;
    assert(uid_stamp_lines(uid, st) == ub + sb);
    // uid
    lemma_prop_line("UID:"@, "UID"@, uid);
    lemma_ev_one(e0, "UID:"@ + escape(uid), "UID"@, escape(uid));
    let e1 = ev_from(e0, ub);
    assert(e1 == EventView { uid: uid, ..e0 });
    assert(lines_ok(ub, "VEVENT"@));
    // stamp
    let e2 = ev_from(e1, sb);
    match st {
        Some(t) => {
            lemma_raw_line("DTSTAMP:"@, "DTSTAMP"@, t);
            assert(sb == seq!["DTSTAMP:"@ + t]);
            lemma_ev_one(e1, "DTSTAMP:"@ + t, "DTSTAMP"@, t);
        },
        None => {
            assert(sb =~= Seq::<Seq<char>>::empty());
        },
    }
    assert(e2 == e1);
    assert(lines_ok(sb, "VEVENT"@));
    // summary
    lemma_prop_line("SUMMARY:"@, "SUMMARY"@, e.summary);
    lemma_ev_one(e2, "SUMMARY:"@ + escape(e.summary), "SUMMARY"@, escape(e.summary));
    let e3 = ev_from(e2, mb);
    assert(e3 == EventView { summary: e.summary, ..e2 });
    assert(lines_ok(mb, "VEVENT"@));
    // start and end
    lemma_time_block(e3, "DTSTART:"@, "DTSTART"@, e.start, "VEVENT"@);
    let e4 = ev_from(e3, tb1);
    assert(e4 == EventView { start: e.start, ..e3 });
    lemma_time_block(e4, "DTEND:"@, "DTEND"@, e.end, "VEVENT"@);
    let e5 = ev_from(e4, tb2);
    assert(e5 == EventView { end: e.end, ..e4 });
    // location and description
    lemma_opt_block(e5, "LOCATION:"@, "LOCATION"@, e.location, "VEVENT"@);
    let e6 = ev_from(e5, lb);
    assert(e6 == EventView { location: e.location, ..e5 });
    lemma_opt_block(e6, "DESCRIPTION:"@, "DESCRIPTION"@, e.description, "VEVENT"@);
    let e7 = ev_from(e6, db);
    assert(e7 == EventView { description: e.description, ..e6 });
    // extra
    lemma_ev_extra(e7, xb);
    let e8 = ev_from(e7, xb);
    assert(e0.extra + xb =~= xb);
    assert(e8 == EventView { uid: uid, ..e });
    assert(lines_ok(xb, "VEVENT"@));
    lemma_ev_from_append(e0, ub, sb);
    lemma_ev_from_append(e0, ub + sb, mb);
    lemma_ev_from_append(e0, ub + sb + mb, tb1);
    lemma_ev_from_append(e0, ub + sb + mb + tb1, tb2);
    lemma_ev_from_append(e0, ub + sb + mb + tb1 + tb2, lb);
    lemma_ev_from_append(e0, ub + sb + mb + tb1 + tb2 + lb, db);
    lemma_ev_from_append(e0, ub + sb + mb + tb1 + tb2 + lb + db, xb);
    assert(event_body(e, uid, st) == ub + sb + mb + tb1 + tb2 + lb + db + xb);
    lemma_lines_ok_concat(ub, sb, "VEVENT"@);
    lemma_lines_ok_concat(ub + sb, mb, "VEVENT"@);
    lemma_lines_ok_concat(ub + sb + mb, tb1, "VEVENT"@);
    lemma_lines_ok_concat(ub + sb + mb + tb1, tb2, "VEVENT"@);
    lemma_lines_ok_concat(ub + sb + mb + tb1 + tb2, lb, "VEVENT"@);
    lemma_lines_ok_concat(ub + sb + mb + tb1 + tb2 + lb, db, "VEVENT"@);
    lemma_lines_ok_concat(ub + sb + mb + tb1 + tb2 + lb + db, xb, "VEVENT"@);
}

/// The calendar around a run of lines that fold and neither open nor close an event
/// holds one event component: those lines.
#[verifier::spinoff_prover]
proof fn lemma_one_component(body: Seq<Seq<char>>)
    requires
        lines_ok(body, "VEVENT"@),
    ensures
        spec_split_components(
            fold_all(calendar_open_lines() + seq!["BEGIN:VEVENT"@] + body + seq!["END:VEVENT"@, "END:VCALENDAR"@]),
            "VEVENT"@,
        ) == seq![body],
{
    lemma_ics_literals();
    let n = body.len() as int;
    let kind = "VEVENT"@;
    let lines = calendar_open_lines() + seq!["BEGIN:VEVENT"@] + body + seq!["END:VEVENT"@, "END:VCALENDAR"@];
    assert(lines[0] == "BEGIN:VCALENDAR"@);
    assert(lines[1] == "VERSION:2.0"@);
    assert(lines[2] == "PRODID:"@ + PRODID@);
    assert(lines[3] == "BEGIN:VEVENT"@);
    assert(lines[4 + n] == "END:VEVENT"@);
    assert(lines[5 + n] == "END:VCALENDAR"@);
    assert(lines.len() == 6 + n);
    assert forall|k: int| 0 <= k < lines.len() implies foldable(#[trigger] lines[k]) by {
        if 4 <= k < 4 + n {
            assert(lines[k] == body[k - 4]);
        }
    }
    lemma_unfold_fold_all(lines);
    let none: Seq<Seq<Seq<char>>> = Seq::empty();
    lemma_scan_skip(lines, kind, 0, 3, none);
    assert(comp_scan(lines, kind, 3, None, none) == comp_scan(lines, kind, 4, Some(Seq::empty()), none));
    assert forall|k: int| 4 <= k < 4 + n implies plain_in(#[trigger] lines[k], kind) by {
        assert(lines[k] == body[k - 4]);
    }
    lemma_scan_collect(lines, kind, 4, 4 + n, Seq::empty(), none);
    assert(Seq::<Seq<char>>::empty() + lines.subrange(4, 4 + n) =~= body);
    assert(comp_scan(lines, kind, 4 + n, Some(body), none) == comp_scan(lines, kind, 5 + n, None, none.push(body)));
    assert(comp_scan(lines, kind, 5 + n, None, none.push(body)) == comp_scan(lines, kind, 6 + n, None, none.push(body)));
    assert(none.push(body) =~= seq![body]);
}

/// An event's calendar text, written with any uid without carriage returns and any stamp
/// on one line, reads back as the event it was written from, with that uid.
#[verifier::spinoff_prover]
pub proof fn lemma_event_reads_back(e: EventView, uid: Seq<char>, st: Option<Seq<char>>)
    requires
        event_faithful(e),
        !uid.contains('\r'),
        stamp_ok(st),
    ensures
        spec_events(fold_all(event_lines(e, uid, st))) == seq![EventView { uid: uid, ..e }],
{
    lemma_event_body(e, uid, st);
    let body = event_body(e, uid, st);
    let lines = event_lines(e, uid, st);
    assert(lines =~= calendar_open_lines() + seq!["BEGIN:VEVENT"@] + body + seq!["END:VEVENT"@, "END:VCALENDAR"@]);
    lemma_one_component(body);
    lemma_props_of_lines(body);
    assert(spec_events(fold_all(lines)) =~= seq![EventView { uid: uid, ..e }]);
}

/// Law: an event with a uid reads back as itself from the calendar text that
/// `CalendarEvent::to_ics` writes for it (with its own uid and a stamp of some time),
/// through `CalendarEvent::from_ics_all`; the event's texts hold no carriage return, its
/// times are ones chrono writes and reads back, and its extra lines are kept lines.
pub proof fn lemma_event_ics_round_trip(e: EventView, u: Seq<char>, st: Option<Seq<char>>)
    requires
        event_faithful(e),
        e.uid.len() > 0,
        !e.uid.contains('\r'),
        written_uid(e.uid, u),
        stamp_of_time(st),
    ensures
        spec_events(fold_all(event_lines(e, u, st))) == seq![e],
{
    lemma_event_reads_back(e, u, st);
    assert(EventView { uid: u, ..e } == e);
}

/// The property names a to-do is read from or passes over.
pub open spec fn todo_known(n: Seq<char>) -> bool {
    ||| n == "UID"@
    ||| n == "SUMMARY"@
    ||| n == "DUE"@
    ||| n == "COMPLETED"@
    ||| n == "DESCRIPTION"@
    ||| n == "STATUS"@
    ||| n == "PERCENT-COMPLETE"@
    ||| n == "DTSTAMP"@
}

/// An extra line that a to-do gives back as it is.
pub open spec fn todo_keeps(l: Seq<char>) -> bool {
    &&& foldable(l)
    &&& plain_in(l, "VTODO"@)
    &&& match spec_split_prop(l) {
        Some((n, v)) => !todo_known(n),
        None => false,
    }
}

/// A to-do whose calendar text reads back as the same to-do (as [`event_faithful`] says
/// of events).
pub open spec fn todo_faithful(d: TodoView) -> bool {
    &&& !d.summary.contains('\r')
    &&& opt_no_cr(d.description)
    &&& time_reads_back(d.due)
    &&& time_reads_back(d.completed)
    &&& forall|k: int| 0 <= k < d.extra.len() ==> todo_keeps(#[trigger] d.extra[k])
}

/// Facts about the literals of a to-do.
proof fn lemma_todo_literals()
    ensures
        prop_prefix("DUE:"@, "DUE"@),
        prop_prefix("COMPLETED:"@, "COMPLETED"@),
        spec_split_prop("STATUS:COMPLETED"@) == Some(("STATUS"@, "COMPLETED"@)),
        spec_split_prop("PERCENT-COMPLETE:100"@) == Some(("PERCENT-COMPLETE"@, "100"@)),
        spec_split_prop("BEGIN:VTODO"@) == Some(("BEGIN"@, "VTODO"@)),
        spec_split_prop("END:VTODO"@) == Some(("END"@, "VTODO"@)),
        foldable("STATUS:COMPLETED"@),
        foldable("PERCENT-COMPLETE:100"@),
        foldable("BEGIN:VTODO"@),
        foldable("END:VTODO"@),
        eq_ignore_case("VTODO"@, "VTODO"@),
        !eq_ignore_case("VCALENDAR"@, "VTODO"@),
        !todo_known("BEGIN"@),
        !todo_known("END"@),
        "DUE"@ != "BEGIN"@ && "DUE"@ != "END"@,
        "COMPLETED"@ != "BEGIN"@ && "COMPLETED"@ != "END"@,
        "STATUS"@ != "BEGIN"@ && "STATUS"@ != "END"@,
        "PERCENT-COMPLETE"@ != "BEGIN"@ && "PERCENT-COMPLETE"@ != "END"@,
        "DTSTAMP"@ != "UID"@ && "DTSTAMP"@ != "SUMMARY"@ && "DTSTAMP"@ != "DUE"@
            && "DTSTAMP"@ != "COMPLETED"@ && "DTSTAMP"@ != "DESCRIPTION"@,
        "DUE"@ != "UID"@ && "DUE"@ != "SUMMARY"@,
        "COMPLETED"@ != "UID"@ && "COMPLETED"@ != "SUMMARY"@ && "COMPLETED"@ != "DUE"@,
        "DESCRIPTION"@ != "DUE"@ && "DESCRIPTION"@ != "COMPLETED"@,
        "STATUS"@ != "UID"@ && "STATUS"@ != "SUMMARY"@ && "STATUS"@ != "DUE"@ && "STATUS"@
            != "COMPLETED"@ && "STATUS"@ != "DESCRIPTION"@,
        "PERCENT-COMPLETE"@ != "UID"@ && "PERCENT-COMPLETE"@ != "SUMMARY"@ && "PERCENT-COMPLETE"@
            != "DUE"@ && "PERCENT-COMPLETE"@ != "COMPLETED"@ && "PERCENT-COMPLETE"@ != "DESCRIPTION"@,
{
    lemma_ics_literals();
    reveal_strlit("DUE:");
    reveal_strlit("DUE");
    reveal_strlit("COMPLETED:");
    reveal_strlit("COMPLETED");
    reveal_strlit("STATUS:COMPLETED");
    reveal_strlit("STATUS");
    reveal_strlit("PERCENT-COMPLETE:100");
    reveal_strlit("PERCENT-COMPLETE");
    reveal_strlit("100");
    reveal_strlit("BEGIN:VTODO");
    reveal_strlit("BEGIN");
    reveal_strlit("VTODO");
    reveal_strlit("END:VTODO");
    reveal_strlit("END");
    reveal_strlit("VCALENDAR");
    reveal_strlit("UID");
    reveal_strlit("SUMMARY");
    reveal_strlit("DESCRIPTION");
    reveal_strlit("DTSTAMP");
    assert("DUE:"@ =~= "DUE"@ + seq![':']);
    assert(ascii_upper("DUE"@) =~= "DUE"@);
    assert("COMPLETED:"@ =~= "COMPLETED"@ + seq![':']);
    assert(ascii_upper("COMPLETED"@) =~= "COMPLETED"@);
    assert("STATUS:COMPLETED"@ =~= "STATUS"@ + seq![':'] + "COMPLETED"@);
    assert(ascii_upper("STATUS"@) =~= "STATUS"@);
    lemma_split_prop_of("STATUS"@, "COMPLETED"@);
    assert("PERCENT-COMPLETE:100"@ =~= "PERCENT-COMPLETE"@ + seq![':'] + "100"@);
    assert(ascii_upper("PERCENT-COMPLETE"@) =~= "PERCENT-COMPLETE"@);
    lemma_split_prop_of("PERCENT-COMPLETE"@, "100"@);
    assert("BEGIN:VTODO"@ =~= "BEGIN"@ + seq![':'] + "VTODO"@);
    lemma_split_prop_of("BEGIN"@, "VTODO"@);
    assert("END:VTODO"@ =~= "END"@ + seq![':'] + "VTODO"@);
    lemma_split_prop_of("END"@, "VTODO"@);
    assert(ascii_upper("VTODO"@) =~= "VTODO"@);
    assert(ascii_upper("VCALENDAR"@) =~= "VCALENDAR"@);
}

/// What content lines do, one after the other, to a to-do read so far.
pub open spec fn td_from(d: TodoView, ls: Seq<Seq<char>>) -> TodoView
    decreases ls.len(),
{
    if ls.len() == 0 {
        d
    } else {
        let prev = td_from(d, ls.drop_last());
        match spec_split_prop(ls.last()) {
            Some((n, v)) => todo_apply(prev, n, v, ls.last()),
            None => prev,
        }
    }
}

proof fn lemma_td_from_append(d: TodoView, a: Seq<Seq<char>>, b: Seq<Seq<char>>)
    ensures
        td_from(d, a + b) == td_from(td_from(d, a), b),
    decreases b.len(),
{
    if b.len() == 0 {
        assert(a + b =~= a);
    } else {
        lemma_td_from_append(d, a, b.drop_last());
        assert((a + b).drop_last() =~= a + b.drop_last());
        assert((a + b).last() == b.last());
    }
}

proof fn lemma_todo_props_of_lines(ls: Seq<Seq<char>>)
    ensures
        todo_of_props(prop_triples(ls)) == td_from(empty_todo(), ls),
    decreases ls.len(),
{
    if ls.len() > 0 {
        lemma_todo_props_of_lines(ls.drop_last());
        match spec_split_prop(ls.last()) {
            Some((n, v)) => {
                let pt = prop_triples(ls);
                assert(pt.drop_last() =~= prop_triples(ls.drop_last()));
                assert(pt.last() == (n, v, ls.last()));
            },
            None => {},
        }
    }
}

proof fn lemma_td_one(d: TodoView, l: Seq<char>, n: Seq<char>, v: Seq<char>)
    requires
        spec_split_prop(l) == Some((n, v)),
    ensures
        td_from(d, seq![l]) == todo_apply(d, n, v, l),
{
    assert(seq![l].drop_last() =~= Seq::<Seq<char>>::empty());
    assert(seq![l].last() == l);
    assert(td_from(d, Seq::<Seq<char>>::empty()) == d);
}

proof fn lemma_td_extra(d: TodoView, xs: Seq<Seq<char>>)
    requires
        forall|k: int| 0 <= k < xs.len() ==> todo_keeps(#[trigger] xs[k]),
    ensures
        td_from(d, xs) == (TodoView { extra: d.extra + xs, ..d }),
    decreases xs.len(),
{
    if xs.len() == 0 {
        assert(d.extra + xs =~= d.extra);
    } else {
        lemma_td_extra(d, xs.drop_last());
        let l = xs.last();
        assert(todo_keeps(xs[xs.len() - 1]));
        let prev = td_from(d, xs.drop_last());
        match spec_split_prop(l) {
            Some((n, v)) => {
                assert(!todo_known(n));
                assert(todo_apply(prev, n, v, l) == TodoView { extra: prev.extra.push(l), ..prev });
            },
            None => {},
        }
        assert((d.extra + xs.drop_last()).push(l) =~= d.extra + xs);
    }
}

/// The content lines of a to-do inside its component.
pub open spec fn todo_body(d: TodoView, uid: Seq<char>, st: Option<Seq<char>>) -> Seq<Seq<char>> {
    uid_stamp_lines(uid, st) + seq!["SUMMARY:"@ + escape(d.summary)] + time_line("DUE:"@, d.due)
        + completion_lines(d.completed) + opt_escaped_line("DESCRIPTION:"@, d.description) + d.extra
}

/// A to-do's time line that reads back sets that time.
proof fn lemma_td_time(d0: TodoView, lit: Seq<char>, name: Seq<char>, o: Option<i128>)
    requires
        prop_prefix(lit, name),
        name != "BEGIN"@ && name != "END"@,
        time_reads_back(o),
    ensures
        lines_ok(time_line(lit, o), "VTODO"@),
        o is None ==> td_from(d0, time_line(lit, o)) == d0,
        o is Some ==> exists|t: Seq<char>|
            #![trigger spec_parse_dt(t)]
            spec_parse_dt(t) == o && td_from(d0, time_line(lit, o)) == todo_apply(d0, name, t, lit + t),
{
    match o {
        Some(m) => {
            let t = spec_format_dt(m)->0;
            lemma_raw_line(lit, name, t);
            assert(time_line(lit, o) == seq![lit + t]);
            lemma_td_one(d0, lit + t, name, t);
            assert(spec_parse_dt(t) == o);
        },
        None => {
            assert(time_line(lit, o) =~= Seq::<Seq<char>>::empty());
        },
    }
}

/// The completion lines of a to-do, read in it, set its completion time.
proof fn lemma_td_completion(d0: TodoView, o: Option<i128>)
    requires
        time_reads_back(o),
    ensures
        lines_ok(completion_lines(o), "VTODO"@),
        td_from(d0, completion_lines(o)) == (TodoView { completed: if o is Some { o } else { d0.completed }, ..d0 }),
{
    lemma_ics_literals();
    lemma_todo_literals();
    match o {
        Some(m) => {
            let t = spec_format_dt(m)->0;
            let c = "COMPLETED:"@ + t;
            lemma_raw_line("COMPLETED:"@, "COMPLETED"@, t);
            let a = seq![c];
            let b = seq!["STATUS:COMPLETED"@, "PERCENT-COMPLETE:100"@];
            assert(completion_lines(o) == a + b);
            lemma_td_one(d0, c, "COMPLETED"@, t);
            let d1 = td_from(d0, a);
            assert(d1 == TodoView { completed: o, ..d0 });
            lemma_td_one(d1, "STATUS:COMPLETED"@, "STATUS"@, "COMPLETED"@);
            lemma_td_one(d1, "PERCENT-COMPLETE:100"@, "PERCENT-COMPLETE"@, "100"@);
            let b1 = seq!["STATUS:COMPLETED"@];
            let b2 = seq!["PERCENT-COMPLETE:100"@];
            assert(b == b1 + b2);
            lemma_td_from_append(d1, b1, b2);
            lemma_td_from_append(d0, a, b);
            assert(lines_ok(a, "VTODO"@));
            assert(lines_ok(b, "VTODO"@));
            lemma_lines_ok_concat(a, b, "VTODO"@);
        },
        None => {
            assert(completion_lines(o) =~= Seq::<Seq<char>>::empty());
        },
    }
}

/// The lines of a to-do's component, read from the empty to-do, give the to-do with the
/// uid it was written with; each of them folds and neither opens nor closes a to-do.
#[verifier::spinoff_prover]
proof fn lemma_todo_body(d: TodoView, uid: Seq<char>, st: Option<Seq<char>>)
    requires
        todo_faithful(d),
        !uid.contains('\r'),
        stamp_ok(st),
    ensures
        td_from(empty_todo(), todo_body(d, uid, st)) == (TodoView { uid: uid, ..d }),
        lines_ok(todo_body(d, uid, st), "VTODO"@),
{
    lemma_ics_literals();
    lemma_todo_literals();
    let d0 = empty_todo();
    let ub = seq!["UID:"@ + escape(uid)];
    let sb = opt_line("DTSTAMP:"@, st);
    let mb = seq!["SUMMARY:"@ + escape(d.summary)];
    let tb = time_line("DUE:"@, d.due);
    let cb = completion_lines(d.completed);
    let db = opt_escaped_line("DESCRIPTION:"@, d.description);
    let xb = d.extra;
    assert(uid_stamp_lines(uid, st) == ub + sb);
    lemma_prop_line("UID:"@, "UID"@, uid);
    lemma_td_one(d0, "UID:"@ + escape(uid), "UID"@, escape(uid));
    let d1 = td_from(d0, ub);
    assert(d1 == TodoView { uid: uid, ..d0 });
    assert(lines_ok(ub, "VTODO"@));
    let d2 = td_from(d1, sb);
    match st {
        Some(t) => {
            lemma_raw_line("DTSTAMP:"@, "DTSTAMP"@, t);
            assert(sb == seq!["DTSTAMP:"@ + t]);
            lemma_td_one(d1, "DTSTAMP:"@ + t, "DTSTAMP"@, t);
        },
        None => {
            assert(sb =~= Seq::<Seq<char>>::empty());
        },
    }
    assert(d2 == d1);
    assert(lines_ok(sb, "VTODO"@));
    lemma_prop_line("SUMMARY:"@, "SUMMARY"@, d.summary);
    lemma_td_one(d2, "SUMMARY:"@ + escape(d.summary), "SUMMARY"@, escape(d.summary));
    let d3 = td_from(d2, mb);
    assert(d3 == TodoView { summary: d.summary, ..d2 });
    assert(lines_ok(mb, "VTODO"@));
    lemma_td_time(d3, "DUE:"@, "DUE"@, d.due);
    let d4 = td_from(d3, tb);
    assert(d4 == TodoView { due: d.due, ..d3 });
    lemma_td_completion(d4, d.completed);
    let d5 = td_from(d4, cb);
    assert(d5 == TodoView { completed: d.completed, ..d4 });
    let d6 = td_from(d5, db);
    match d.description {
        Some(t) => {
            lemma_prop_line("DESCRIPTION:"@, "DESCRIPTION"@, t);
            assert(db == seq!["DESCRIPTION:"@ + escape(t)]);
            lemma_td_one(d5, "DESCRIPTION:"@ + escape(t), "DESCRIPTION"@, escape(t));
        },
        None => {
            assert(db =~= Seq::<Seq<char>>::empty());
        },
    }
    assert(d6 == TodoView { description: d.description, ..d5 });
    assert(lines_ok(db, "VTODO"@));
    lemma_td_extra(d6, xb);
    let d7 = td_from(d6, xb);
    assert(d0.extra + xb =~= xb);
    assert(d7 == TodoView { uid: uid, ..d });
    assert(lines_ok(xb, "VTODO"@));
    lemma_td_from_append(d0, ub, sb);
    lemma_td_from_append(d0, ub + sb, mb);
    lemma_td_from_append(d0, ub + sb + mb, tb);
    lemma_td_from_append(d0, ub + sb + mb + tb, cb);
    lemma_td_from_append(d0, ub + sb + mb + tb + cb, db);
    lemma_td_from_append(d0, ub + sb + mb + tb + cb + db, xb);
    assert(todo_body(d, uid, st) == ub + sb + mb + tb + cb + db + xb);
    lemma_lines_ok_concat(ub, sb, "VTODO"@);
    lemma_lines_ok_concat(ub + sb, mb, "VTODO"@);
    lemma_lines_ok_concat(ub + sb + mb, tb, "VTODO"@);
    lemma_lines_ok_concat(ub + sb + mb + tb, cb, "VTODO"@);
    lemma_lines_ok_concat(ub + sb + mb + tb + cb, db, "VTODO"@);
    lemma_lines_ok_concat(ub + sb + mb + tb + cb + db, xb, "VTODO"@);
}

/// The calendar around a run of lines that fold and neither open nor close a to-do holds
/// one to-do component: those lines.
#[verifier::spinoff_prover]
proof fn lemma_one_todo_component(body: Seq<Seq<char>>)
    requires
        lines_ok(body, "VTODO"@),
    ensures
        spec_split_components(
            fold_all(calendar_open_lines() + seq!["BEGIN:VTODO"@] + body + seq!["END:VTODO"@, "END:VCALENDAR"@]),
            "VTODO"@,
        ) == seq![body],
{
    lemma_ics_literals();
    lemma_todo_literals();
    let n = body.len() as int;
    let kind = "VTODO"@;
    let lines = calendar_open_lines() + seq!["BEGIN:VTODO"@] + body + seq!["END:VTODO"@, "END:VCALENDAR"@];
    assert(lines[0] == "BEGIN:VCALENDAR"@);
    assert(lines[1] == "VERSION:2.0"@);
    assert(lines[2] == "PRODID:"@ + PRODID@);
    assert(lines[3] == "BEGIN:VTODO"@);
    assert(lines[4 + n] == "END:VTODO"@);
    assert(lines[5 + n] == "END:VCALENDAR"@);
    assert(lines.len() == 6 + n);
    assert forall|k: int| 0 <= k < lines.len() implies foldable(#[trigger] lines[k]) by {
        if 4 <= k < 4 + n {
            assert(lines[k] == body[k - 4]);
        }
    }
    lemma_unfold_fold_all(lines);
    let none: Seq<Seq<Seq<char>>> = Seq::empty();
    lemma_scan_skip(lines, kind, 0, 3, none);
    assert(comp_scan(lines, kind, 3, None, none) == comp_scan(lines, kind, 4, Some(Seq::empty()), none));
    assert forall|k: int| 4 <= k < 4 + n implies plain_in(#[trigger] lines[k], kind) by {
        assert(lines[k] == body[k - 4]);
    }
    lemma_scan_collect(lines, kind, 4, 4 + n, Seq::empty(), none);
    assert(Seq::<Seq<char>>::empty() + lines.subrange(4, 4 + n) =~= body);
    assert(comp_scan(lines, kind, 4 + n, Some(body), none) == comp_scan(lines, kind, 5 + n, None, none.push(body)));
    assert(comp_scan(lines, kind, 5 + n, None, none.push(body)) == comp_scan(lines, kind, 6 + n, None, none.push(body)));
    assert(none.push(body) =~= seq![body]);
}

/// A to-do's calendar text, written with any uid without carriage returns and any stamp
/// on one line, reads back as the to-do it was written from, with that uid.
#[verifier::spinoff_prover]
pub proof fn lemma_todo_reads_back(d: TodoView, uid: Seq<char>, st: Option<Seq<char>>)
    requires
        todo_faithful(d),
        !uid.contains('\r'),
        stamp_ok(st),
    ensures
        spec_todos(fold_all(todo_lines(d, uid, st))) == seq![TodoView { uid: uid, ..d }],
{
    lemma_todo_body(d, uid, st);
    let body = todo_body(d, uid, st);
    let lines = todo_lines(d, uid, st);
    assert(lines =~= calendar_open_lines() + seq!["BEGIN:VTODO"@] + body + seq!["END:VTODO"@, "END:VCALENDAR"@]);
    lemma_one_todo_component(body);
    lemma_todo_props_of_lines(body);
    assert(spec_todos(fold_all(lines)) =~= seq![TodoView { uid: uid, ..d }]);
}

/// Law: a to-do with a uid reads back as itself, its completion included, from the
/// calendar text that `CalendarTodo::to_ics` writes for it, through
/// `CalendarTodo::from_ics_all` (on the same conditions as events).
pub proof fn lemma_todo_ics_round_trip(d: TodoView, u: Seq<char>, st: Option<Seq<char>>)
    requires
        todo_faithful(d),
        d.uid.len() > 0,
        !d.uid.contains('\r'),
        written_uid(d.uid, u),
        stamp_of_time(st),
    ensures
        spec_todos(fold_all(todo_lines(d, u, st))) == seq![d],
{
    lemma_todo_reads_back(d, u, st);
    assert(TodoView { uid: u, ..d } == d);
}

} // verus!
