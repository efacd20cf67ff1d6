use keeplin_core::error::{storage_error_from_limit, StorageError};
use keeplin_core::format::{
    check_body, check_line, check_line_count, check_notebook_capacity, is_limit_code, line_count,
    LimitViolation, CODE_LINE_TOO_LONG, CODE_NOTEBOOK_FULL, CODE_TOO_MANY_LINES, MAX_LINES_PER_NOTE,
    MAX_LINE_BYTES, MAX_NOTES_PER_NOTEBOOK,
};

#[test]
fn the_three_limits_are_exact_powers_of_two() {
    assert_eq!(MAX_LINE_BYTES, 4096);
    assert_eq!(MAX_LINES_PER_NOTE, 65_536);
    assert_eq!(MAX_NOTES_PER_NOTEBOOK, 16_777_216);
    assert!(MAX_LINE_BYTES.is_power_of_two());
    assert!(MAX_LINES_PER_NOTE.is_power_of_two());
    assert!(MAX_NOTES_PER_NOTEBOOK.is_power_of_two());
}

#[test]
fn line_length_is_counted_in_utf8_bytes() {
    assert!(check_line(&"a".repeat(MAX_LINE_BYTES)).is_ok());
    assert_eq!(
        check_line(&"a".repeat(MAX_LINE_BYTES + 1)),
        Err(LimitViolation::LineTooLong {
            bytes: MAX_LINE_BYTES + 1
        })
    );
    let two_byte_chars = "é".repeat(MAX_LINE_BYTES / 2);
    assert_eq!(two_byte_chars.chars().count(), MAX_LINE_BYTES / 2);
    assert!(check_line(&two_byte_chars).is_ok());
    let one_char_over = "é".repeat(MAX_LINE_BYTES / 2 + 1);
    assert_eq!(
        check_line(&one_char_over),
        Err(LimitViolation::LineTooLong {
            bytes: MAX_LINE_BYTES + 2
        })
    );
}

#[test]
fn line_count_boundary_accepts_the_limit_and_rejects_one_more() {
    assert!(check_line_count(MAX_LINES_PER_NOTE).is_ok());
    assert_eq!(
        check_line_count(MAX_LINES_PER_NOTE + 1),
        Err(LimitViolation::TooManyLines {
            lines: MAX_LINES_PER_NOTE + 1
        })
    );
}

#[test]
fn line_count_matches_the_materialised_body() {
    assert_eq!(line_count(""), 0);
    assert_eq!(line_count("a"), 1);
    assert_eq!(line_count("a\nb"), 2);
    assert_eq!(line_count("a\n"), 2);
}

#[test]
fn check_body_enforces_both_line_limits() {
    assert!(check_body("").is_ok());
    let at_line_limit = "x\n".repeat(MAX_LINES_PER_NOTE - 1) + "x";
    assert_eq!(line_count(&at_line_limit), MAX_LINES_PER_NOTE);
    assert!(check_body(&at_line_limit).is_ok());
    let over_line_limit = "x\n".repeat(MAX_LINES_PER_NOTE) + "x";
    assert_eq!(line_count(&over_line_limit), MAX_LINES_PER_NOTE + 1);
    assert_eq!(
        check_body(&over_line_limit),
        Err(LimitViolation::TooManyLines {
            lines: MAX_LINES_PER_NOTE + 1
        })
    );
    let long_line = format!("ok\n{}", "a".repeat(MAX_LINE_BYTES + 1));
    assert_eq!(
        check_body(&long_line),
        Err(LimitViolation::LineTooLong {
            bytes: MAX_LINE_BYTES + 1
        })
    );
}

#[test]
fn notebook_capacity_rejects_the_note_that_would_exceed_the_cap() {
    assert!(check_notebook_capacity(0).is_ok());
    assert!(check_notebook_capacity(MAX_NOTES_PER_NOTEBOOK - 1).is_ok());
    assert_eq!(
        check_notebook_capacity(MAX_NOTES_PER_NOTEBOOK),
        Err(LimitViolation::NotebookFull {
            notes: MAX_NOTES_PER_NOTEBOOK
        })
    );
}

#[test]
fn every_violation_maps_to_its_wire_code_and_to_too_large() {
    let violations = [
        LimitViolation::LineTooLong { bytes: 1 },
        LimitViolation::TooManyLines { lines: 1 },
        LimitViolation::NotebookFull { notes: 1 },
    ];
    for violation in violations {
        assert!(is_limit_code(violation.code()));
        let mapped: StorageError = storage_error_from_limit(&violation);
        assert!(matches!(mapped, StorageError::TooLarge(_)));
        assert_eq!(mapped.message(), format!("Too large: {}", violation.message()));
    }
    assert!(!is_limit_code("bad_content"));
}

#[test]
fn each_violation_has_its_own_code() {
    assert_eq!(LimitViolation::LineTooLong { bytes: 5000 }.code(), CODE_LINE_TOO_LONG);
    assert_eq!(LimitViolation::TooManyLines { lines: 70000 }.code(), CODE_TOO_MANY_LINES);
    assert_eq!(LimitViolation::NotebookFull { notes: 3 }.code(), CODE_NOTEBOOK_FULL);
}
