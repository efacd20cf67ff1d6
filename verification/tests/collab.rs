use keeplin_core::collab::device_id_from_token;
use keeplin_core::collab::protocol::{LineOp, LineSnapshot, NoteLinesSnapshot};
use keeplin_core::collab::state::NoteLines;
use keeplin_core::format::{CODE_LINE_TOO_LONG, CODE_TOO_MANY_LINES, MAX_LINES_PER_NOTE, MAX_LINE_BYTES};
use keeplin_core::version_vector::{bump, merge_into, VersionVector};

#[test]
fn diff_body_accepts_a_line_at_the_byte_limit_and_rejects_one_byte_more() {
    let mut lines = NoteLines::default();
    let at_limit = "a".repeat(MAX_LINE_BYTES);
    assert_eq!(lines.diff_body(&at_limit, "dev").unwrap().len(), 1);
    assert_eq!(lines.materialize(), at_limit);

    let over_limit = "a".repeat(MAX_LINE_BYTES + 1);
    let violation = lines.diff_body(&over_limit, "dev").unwrap_err();
    assert_eq!(violation.code(), CODE_LINE_TOO_LONG);
    assert_eq!(
        lines.materialize(),
        at_limit,
        "a rejected edit leaves the note untouched"
    );
}

#[test]
fn diff_body_accepts_the_line_count_limit_and_rejects_one_line_more() {
    let mut lines = NoteLines::default();
    let at_limit = vec!["x"; MAX_LINES_PER_NOTE].join("\n");
    assert_eq!(
        lines.diff_body(&at_limit, "dev").unwrap().len(),
        MAX_LINES_PER_NOTE
    );

    let over_limit = vec!["x"; MAX_LINES_PER_NOTE + 1].join("\n");
    let violation = lines.diff_body(&over_limit, "dev").unwrap_err();
    assert_eq!(violation.code(), CODE_TOO_MANY_LINES);
    assert_eq!(
        lines.order.len(),
        MAX_LINES_PER_NOTE,
        "a rejected edit emits no Insert"
    );
}

#[test]
fn editing_a_middle_line_sends_one_update_and_materializes_the_body() {
    let mut lines = NoteLines::default();
    let ops = lines.diff_body("a\nb\nc", "dev").unwrap();
    assert_eq!(ops.len(), 3);
    assert!(ops.iter().all(|op| matches!(op, LineOp::Insert { .. })));
    assert_eq!(lines.materialize(), "a\nb\nc");

    let ops = lines.diff_body("a\nB\nc", "dev").unwrap();
    assert_eq!(ops.len(), 1);
    match &ops[0] {
        LineOp::Update { content, vv, .. } => {
            assert_eq!(content, "B");
            assert_eq!(vv.get("dev"), Some(3));
        }
        other => panic!("expected an update, got {other:?}"),
    }
    assert_eq!(lines.materialize(), "a\nB\nc");
}

#[test]
fn removing_lines_deletes_them_and_adding_lines_inserts_after_the_anchor() {
    let mut lines = NoteLines::default();
    lines.diff_body("a\nb\nc\nd", "dev").unwrap();
    let ops = lines.diff_body("a\nd", "dev").unwrap();
    assert_eq!(ops.len(), 2);
    assert!(ops.iter().all(|op| matches!(op, LineOp::Delete { .. })));
    assert_eq!(lines.materialize(), "a\nd");
    assert_eq!(lines.order.len(), 4, "deleted lines stay as tombstones");

    let ops = lines.diff_body("a\nx\ny\nd", "dev").unwrap();
    assert_eq!(ops.len(), 2);
    assert!(ops.iter().all(|op| matches!(op, LineOp::Insert { .. })));
    assert_eq!(lines.materialize(), "a\nx\ny\nd");
    assert_eq!(lines.diff_body("", "dev").unwrap().len(), 4);
    assert_eq!(lines.materialize(), "");
}

#[test]
fn a_snapshot_rebuilds_the_lines_and_a_move_reorders_them() {
    let line = |id: u128, text: &str| LineSnapshot {
        id,
        content: text.into(),
        created_at: 0,
        updated_at: 0,
        deleted_at: None,
        vv: VersionVector::new(),
        last_writer: "srv".into(),
    };
    let snap = NoteLinesSnapshot {
        note_id: 7,
        order: vec![1, 2, 3],
        updated_at: 0,
        vv: VersionVector::new(),
        last_writer: "srv".into(),
        lines: vec![line(1, "one"), line(2, "two"), line(3, "three")],
    };
    let mut lines = NoteLines::from_snapshot(snap);
    assert_eq!(lines.materialize(), "one\ntwo\nthree");
    lines.apply(&LineOp::Move {
        line_ids: vec![1],
        after_line_id: Some(3),
        vv: VersionVector::new(),
        last_writer: "srv".into(),
        updated_at: 1,
    });
    assert_eq!(lines.materialize(), "two\nthree\none");
    lines.apply(&LineOp::Delete {
        line_id: 2,
        deleted_at: 2,
        vv: VersionVector::new(),
        last_writer: "srv".into(),
        updated_at: 2,
    });
    assert_eq!(lines.materialize(), "three\none");
    lines.apply(&LineOp::Update {
        line_id: 2,
        content: "back".into(),
        vv: VersionVector::new(),
        last_writer: "srv".into(),
        updated_at: 3,
    });
    assert_eq!(lines.materialize(), "back\nthree\none", "an update revives a deleted line");
    lines.apply(&LineOp::Insert {
        after_line_id: None,
        line_id: 9,
        content: "first".into(),
        vv: VersionVector::new(),
        last_writer: "srv".into(),
        updated_at: 4,
    });
    assert_eq!(lines.materialize(), "first\nback\nthree\none");
}

#[test]
fn merging_version_vectors_keeps_the_larger_count_of_each_device() {
    let mut a = VersionVector::new();
    bump(&mut a, "x");
    bump(&mut a, "x");
    bump(&mut a, "y");
    let mut b = VersionVector::new();
    bump(&mut b, "x");
    bump(&mut b, "z");
    merge_into(&mut a, &b);
    assert_eq!(a.get("x"), Some(2));
    assert_eq!(a.get("y"), Some(1));
    assert_eq!(a.get("z"), Some(1));
    assert_eq!(a.get("w"), None);
    assert_eq!(a.len(), 3);
    let before = a.clone();
    merge_into(&mut a, &before);
    assert_eq!(a.len(), 3);
    assert_eq!(a.get("x"), Some(2));
}

#[test]
fn the_device_id_comes_from_the_token_payload() {
    // payload {"device_id":"dev-42"} in unpadded URL-safe base64
    let token = "eyJhbGciOiJIUzI1NiJ9.eyJkZXZpY2VfaWQiOiJkZXYtNDIifQ.sig";
    assert_eq!(device_id_from_token(token), Some("dev-42".to_string()));
    assert_eq!(device_id_from_token("no-dots"), None);
    assert_eq!(device_id_from_token("a.!!!.c"), None);
}

#[test]
fn a_remote_edit_replays_on_a_replica_and_yields_the_same_text() {
    let mut author = NoteLines::default();
    let mut replica = NoteLines::default();
    let ops = author.diff_body("one\ntwo\nthree", "dev").unwrap();
    assert_eq!(replica.apply_ops(&ops), "one\ntwo\nthree");
    let ops = author.diff_body("one\n2\nthree\nfour", "dev").unwrap();
    assert_eq!(replica.apply_ops(&ops), "one\n2\nthree\nfour");
    assert_eq!(replica.apply_ops(&Vec::new()), author.materialize());
}

#[test]
fn successive_edits_keep_each_line_id_once_in_the_order() {
    let mut lines = NoteLines::default();
    for body in ["a\nb", "a\nx\nb", "y\na\nx\nb\nz", "a", "q\nr\ns"] {
        lines.diff_body(body, "dev").unwrap();
        assert_eq!(lines.materialize(), body);
        let mut ids = lines.order.clone();
        ids.sort();
        ids.dedup();
        assert_eq!(ids.len(), lines.order.len());
    }
}

#[test]
fn a_move_of_distinct_ids_keeps_each_id_once_in_the_order() {
    let mut lines = NoteLines::default();
    lines.diff_body("a\nb\nc", "dev").unwrap();
    let order = lines.order.clone();
    lines.apply(&LineOp::Move {
        line_ids: vec![order[2], order[0]],
        after_line_id: Some(order[1]),
        vv: VersionVector::new(),
        last_writer: "dev".to_string(),
        updated_at: 0,
    });
    assert_eq!(lines.order, vec![order[1], order[2], order[0]]);
    assert_eq!(lines.materialize(), "b\nc\na");
}

#[test]
fn new_lines_get_random_version_4_ids() {
    let mut lines = NoteLines::default();
    let ops = lines.diff_body("a\nb\nc", "dev").unwrap();
    assert_eq!(ops.len(), 3);
    for op in &ops {
        match op {
            LineOp::Insert { line_id, .. } => {
                assert_eq!((line_id >> 76) & 0xf, 4);
                assert_eq!((line_id >> 62) & 0x3, 2);
            }
            other => panic!("unexpected {other:?}"),
        }
    }
}
