use keeplin_core::calendar::{format_dt, import_todo, import_todos, parse_dt, CalendarEvent, CalendarTodo};
use keeplin_core::error::StorageError;
use keeplin_core::models::Note;

#[test]
fn event_round_trips_through_ics() {
    let ev = CalendarEvent {
        uid: "evt-1".into(),
        summary: "Launch".into(),
        start: parse_dt("20260101T100000Z"),
        end: parse_dt("20260101T110000Z"),
        location: Some("Pad 39A".into()),
        description: Some("Go for launch".into()),
        extra: vec![],
    };
    let parsed = CalendarEvent::from_ics(&ev.to_ics()).unwrap();
    assert_eq!(parsed, ev);
}

#[test]
fn todo_round_trips_and_marks_completion() {
    let td = CalendarTodo {
        uid: "td-1".into(),
        summary: "Ship it".into(),
        due: parse_dt("20260201T090000Z"),
        completed: parse_dt("20260115T120000Z"),
        description: Some("the thing".into()),
        extra: vec![],
    };
    let ics = td.to_ics();
    assert!(ics.contains("STATUS:COMPLETED"));
    let parsed = CalendarTodo::from_ics(&ics).unwrap();
    assert_eq!(parsed, td);
}

#[test]
fn todo_maps_to_and_from_a_note() {
    let mut note = Note::new("Buy milk", "2%");
    note.is_todo = true;
    note.todo_due = parse_dt("20260301T000000Z");
    let td = CalendarTodo::from_note(&note);
    assert_eq!(td.summary, "Buy milk");
    assert_eq!(td.uid, uuid::Uuid::from_u128(note.id).to_string());
    assert_eq!(td.due, note.todo_due);

    let mut target = Note::new("", "");
    td.apply_to_note(&mut target);
    assert!(target.is_todo);
    assert_eq!(target.title, "Buy milk");
    assert_eq!(target.body, "2%");
    assert_eq!(target.todo_due, note.todo_due);
}

#[test]
fn unfolds_wrapped_lines() {
    let long = "x".repeat(200);
    let ev = CalendarEvent {
        summary: "s".into(),
        description: Some(long.clone()),
        ..Default::default()
    };
    let parsed = CalendarEvent::from_ics(&ev.to_ics()).unwrap();
    assert_eq!(parsed.description, Some(long));
}

#[test]
fn missing_component_yields_none() {
    assert!(CalendarEvent::from_ics("not a calendar").is_none());
    assert!(keeplin_core::interop::Contact::from_vcard("nope").is_none());
    assert!(CalendarEvent::from_ics_all("not a calendar").is_empty());
}

#[test]
fn multi_component_calendar_parses_every_event_and_todo() {
    let a = CalendarEvent {
        uid: "e1".into(),
        summary: "First".into(),
        ..Default::default()
    };
    let b = CalendarEvent {
        uid: "e2".into(),
        summary: "Second".into(),
        ..Default::default()
    };
    let td = CalendarTodo {
        uid: "t1".into(),
        summary: "Task".into(),
        ..Default::default()
    };
    let inner = |ics: String, begin: &str, end: &str| -> String {
        let start = ics.find(begin).unwrap();
        let stop = ics.find(end).unwrap() + end.len();
        ics[start..stop].to_string()
    };
    let calendar = format!(
        "BEGIN:VCALENDAR\r\nVERSION:2.0\r\n{}\r\n{}\r\n{}\r\nEND:VCALENDAR\r\n",
        inner(a.to_ics(), "BEGIN:VEVENT", "END:VEVENT"),
        inner(b.to_ics(), "BEGIN:VEVENT", "END:VEVENT"),
        inner(td.to_ics(), "BEGIN:VTODO", "END:VTODO"),
    );

    let events = CalendarEvent::from_ics_all(&calendar);
    assert_eq!(events.len(), 2, "both VEVENTs import");
    assert_eq!(events[0].uid, "e1");
    assert_eq!(events[1].uid, "e2");
    assert_eq!(CalendarEvent::from_ics(&calendar).unwrap().uid, "e1");

    let todos = CalendarTodo::from_ics_all(&calendar);
    assert_eq!(todos.len(), 1);
    assert_eq!(todos[0].uid, "t1");
}

#[test]
fn calendar_times_read_in_three_forms() {
    let utc = parse_dt("20260101T100000Z").unwrap();
    assert_eq!(utc, 1_767_261_600_000_000_000);
    assert_eq!(parse_dt(" 20260101T100000 "), Some(utc));
    assert_eq!(parse_dt("20260101"), Some(1_767_225_600_000_000_000));
    assert_eq!(parse_dt("19700101"), Some(0));
    assert_eq!(parse_dt("garbage"), None);
    assert_eq!(format_dt(utc).unwrap(), "20260101T100000Z");
}

#[test]
fn an_event_without_uid_gets_a_fresh_one_and_a_stamp() {
    let ev = CalendarEvent {
        summary: "s".into(),
        ..Default::default()
    };
    let ics = ev.to_ics();
    assert!(ics.contains("DTSTAMP:"));
    assert!(ics.starts_with("BEGIN:VCALENDAR\r\nVERSION:2.0\r\nPRODID:-//Keeplin//Keeplin//EN\r\n"));
    let parsed = CalendarEvent::from_ics(&ics).unwrap();
    assert_eq!(parsed.uid.len(), 36);
}

#[test]
fn component_names_match_ignoring_case_and_unknown_lines_are_kept() {
    let ics = "begin:vevent\r\nUID:x\r\nX-FOO:bar\r\nDTSTAMP:20260101T000000Z\r\nend:VEVENT\r\n";
    let ev = CalendarEvent::from_ics(ics).unwrap();
    assert_eq!(ev.uid, "x");
    assert_eq!(ev.extra, vec!["X-FOO:bar".to_string()]);
}

#[test]
fn importing_a_todo_makes_a_todo_note() {
    let ics = CalendarTodo { summary: "Task".into(), due: parse_dt("20260101T090000Z"), ..Default::default() }.to_ics();
    let note = import_todo(&ics).unwrap();
    assert!(note.is_todo);
    assert_eq!(note.title, "Task");
    assert_eq!(note.todo_due, parse_dt("20260101T090000Z"));
    assert_eq!(note.notebook_id, 0);
    match import_todo("BEGIN:VCALENDAR\r\nEND:VCALENDAR\r\n") {
        Err(StorageError::InvalidInput(m)) => assert_eq!(m, "no VTODO in input"),
        other => panic!("unexpected {other:?}"),
    }
    let two = format!(
        "BEGIN:VCALENDAR\r\nBEGIN:VTODO\r\nSUMMARY:a\r\nEND:VTODO\r\nBEGIN:VTODO\r\nSUMMARY:b\r\nDESCRIPTION:x\r\nEND:VTODO\r\nEND:VCALENDAR\r\n"
    );
    let notes = import_todos(&two).unwrap();
    let titles: Vec<&str> = notes.iter().map(|n| n.title.as_str()).collect();
    assert_eq!(titles, vec!["a", "b"]);
    assert_eq!(notes[1].body, "x");
    assert!(import_todos("nothing").is_err());
}

#[test]
fn instants_split_into_seconds_and_nanoseconds() {
    assert_eq!(keeplin_core::calendar::split_instant(1_500_000_000), Some((1, 500_000_000)));
    assert_eq!(keeplin_core::calendar::split_instant(-1), Some((-1, 999_999_999)));
    assert_eq!(keeplin_core::calendar::split_instant(-1_000_000_000), Some((-1, 0)));
    assert_eq!(keeplin_core::calendar::split_instant(i128::MAX), None);
    assert_eq!(format_dt(-1).unwrap(), "19691231T235959Z");
}
