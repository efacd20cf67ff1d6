use keeplin_core::error::StorageError;
use keeplin_core::rows::{
    parse_optional_dt, parse_required_dt, row_to_note, row_to_notebook, row_to_resource,
    row_to_tag, NoteRow, NotebookRow, ResourceRow, TagRow,
};
use keeplin_core::version_vector::{bump, VersionVector};

const ID: &str = "67e55044-10b1-426f-9247-bb680e5fe0c8";
const ID_BITS: u128 = 0x67e55044_10b1_426f_9247_bb680e5fe0c8;
const T: &str = "2024-01-02T03:04:05Z";
const T_NANOS: i128 = 1_704_164_645_000_000_000;

fn note_row() -> NoteRow {
    let mut vv = VersionVector::new();
    bump(&mut vv, "dev");
    NoteRow {
        id: ID.to_string(),
        title: "Title".to_string(),
        body: "line".to_string(),
        notebook_id: None,
        is_todo: 1,
        todo_due: Some(T.to_string()),
        todo_completed: None,
        created_at: T.to_string(),
        updated_at: "2024-01-02T03:04:06.5+00:00".to_string(),
        deleted_at: None,
        alias: Some("alias".to_string()),
        bookmarks: Vec::new(),
        links: Vec::new(),
        vv,
        last_writer: "dev".to_string(),
        is_pinned: 0,
        is_starred: 7,
        sort_key: -5,
    }
}

#[test]
fn a_note_row_reads_as_the_note_it_stores() {
    let note = row_to_note(note_row()).unwrap();
    assert_eq!(note.id, ID_BITS);
    assert_eq!(note.title, "Title");
    assert_eq!(note.body, "line");
    assert_eq!(note.notebook_id, 0, "an empty notebook column is the nil id");
    assert!(note.is_todo);
    assert_eq!(note.todo_due, Some(T_NANOS));
    assert_eq!(note.todo_completed, None);
    assert_eq!(note.created_at, T_NANOS);
    assert_eq!(note.updated_at, T_NANOS + 1_500_000_000);
    assert_eq!(note.deleted_at, None);
    assert_eq!(note.alias.as_deref(), Some("alias"));
    assert_eq!(note.vv.get("dev"), Some(1));
    assert_eq!(note.last_writer, "dev");
    assert!(!note.is_pinned);
    assert!(note.is_starred);
    assert_eq!(note.sort_key, 0, "a negative sort key reads as zero");
}

#[test]
fn a_sort_key_column_is_cut_to_32_bits() {
    let mut row = note_row();
    row.sort_key = (1i64 << 32) + 9;
    assert_eq!(row_to_note(row).unwrap().sort_key, 9);
    let mut row = note_row();
    row.sort_key = 42;
    assert_eq!(row_to_note(row).unwrap().sort_key, 42);
}

#[test]
fn a_note_row_with_a_bad_id_or_time_is_an_invalid_state() {
    let mut row = note_row();
    row.id = "not-a-uuid".to_string();
    assert!(matches!(row_to_note(row), Err(StorageError::InvalidState(_))));
    let mut row = note_row();
    row.notebook_id = Some("nope".to_string());
    assert!(matches!(row_to_note(row), Err(StorageError::InvalidState(_))));
    let mut row = note_row();
    row.todo_completed = Some("yesterday".to_string());
    assert!(matches!(row_to_note(row), Err(StorageError::InvalidState(_))));
    let mut row = note_row();
    row.created_at = String::new();
    assert!(matches!(row_to_note(row), Err(StorageError::InvalidState(_))));
    let mut row = note_row();
    row.notebook_id = Some(ID.to_string());
    assert_eq!(row_to_note(row).unwrap().notebook_id, ID_BITS);
}

#[test]
fn notebook_tag_and_resource_rows_read_as_their_records() {
    let nb = row_to_notebook(NotebookRow {
        id: ID.to_string(),
        title: "Work".to_string(),
        created_at: T.to_string(),
        updated_at: T.to_string(),
        deleted_at: Some(T.to_string()),
        alias: None,
        vv: VersionVector::new(),
        last_writer: String::new(),
    })
    .unwrap();
    assert_eq!((nb.id, nb.title.as_str(), nb.deleted_at), (ID_BITS, "Work", Some(T_NANOS)));

    let tag = row_to_tag(TagRow {
        id: ID.to_string(),
        title: "todo".to_string(),
        created_at: T.to_string(),
        updated_at: T.to_string(),
        deleted_at: None,
        vv: VersionVector::new(),
        last_writer: "dev".to_string(),
        system: 1,
    })
    .unwrap();
    assert!(tag.system);
    assert_eq!(tag.updated_at, T_NANOS);

    let res = row_to_resource(ResourceRow {
        id: ID.to_string(),
        title: "pic".to_string(),
        mime_type: "image/png".to_string(),
        file_name: "pic.png".to_string(),
        size: -1,
        created_at: T.to_string(),
        deleted_at: None,
        vv: VersionVector::new(),
        last_writer: String::new(),
    })
    .unwrap();
    assert_eq!(res.size, u64::MAX, "the size column is taken bit for bit");
    assert_eq!(res.mime_type, "image/png");

    let bad = row_to_resource(ResourceRow {
        id: ID.to_string(),
        title: String::new(),
        mime_type: String::new(),
        file_name: String::new(),
        size: 0,
        created_at: "0".to_string(),
        deleted_at: None,
        vv: VersionVector::new(),
        last_writer: String::new(),
    });
    assert!(matches!(bad, Err(StorageError::InvalidState(_))));
}

#[test]
fn time_columns_read_with_the_parser_message_on_failure() {
    assert_eq!(parse_required_dt(T).unwrap(), T_NANOS);
    assert_eq!(parse_optional_dt(&None).unwrap(), None);
    assert_eq!(parse_optional_dt(&Some(T.to_string())).unwrap(), Some(T_NANOS));
    match parse_required_dt("garbage") {
        Err(StorageError::InvalidState(m)) => assert!(!m.is_empty()),
        other => panic!("unexpected {other:?}"),
    }
}

#[test]
fn sub_microsecond_digits_of_a_time_are_kept() {
    assert_eq!(parse_required_dt("2024-01-02T03:04:05.123456789Z").unwrap(), T_NANOS + 123_456_789);
    assert_eq!(parse_required_dt("1969-12-31T23:59:59.5Z").unwrap(), -500_000_000);
}
