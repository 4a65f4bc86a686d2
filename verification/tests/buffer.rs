use paw_edit::Buffer;
use paw_edit::BufferError;
use paw_edit::Position;
use paw_edit::Range;

#[test]
fn empty_create() {
    let buffer = Buffer::new();
    assert_eq!(buffer.len(), 1);
    assert_eq!(buffer.get_line(0).unwrap(), "");
}

#[test]
fn from_text_create() {
    let buffer = Buffer::from_text("hai :3");
    assert_eq!(buffer.len(), 1);
    assert_eq!(buffer.get_line(0).unwrap(), "hai :3");
}

#[test]
fn from_text_multi_create() {
    let buffer = Buffer::from_text("hai :3\nmrrp");
    assert_eq!(buffer.len(), 2);
    assert_eq!(buffer.get_line(0).unwrap(), "hai :3");
    assert_eq!(buffer.get_line(1).unwrap(), "mrrp");
}

#[test]
fn single_line_insert() {
    let mut buffer = Buffer::new();
    buffer.insert(Position::new(0, 0), "nya :3").unwrap();
    assert_eq!(buffer.get_line(0).unwrap(), "nya :3");
}

#[test]
fn mutli_line_insert() {
    let mut buffer = Buffer::new();
    buffer.insert(Position::new(0, 0), "Test\nwoof :3").unwrap();
    assert_eq!(buffer.len(), 2);
    assert_eq!(buffer.get_line(0).unwrap(), "Test");
    assert_eq!(buffer.get_line(1).unwrap(), "woof :3");
}

#[test]
fn delete_inline() {
    let mut buffer = Buffer::from_text("Hello nya :3");
    let res = buffer
        .delete(Range::new(Position::new(0, 1), Position::new(0, 4)))
        .unwrap();
    assert_eq!(res, "ello");
}

#[test]
fn delete_multiline() {
    let mut buffer = Buffer::from_text("Hello nya :3\nTesting\nWoah");
    let res = buffer
        .delete(Range::new(Position::new(0, 1), Position::new(1, 4)))
        .unwrap();
    assert_eq!(res, "ello nya :3\nTest");
}

#[test]
fn get_text_inline() {
    let buffer = Buffer::from_text("Hai nya :3");
    let res = buffer
        .get_text(Range::new(Position::new(0, 4), Position::new(0, 6)))
        .unwrap();
    assert_eq!(res, "nya");
}

#[test]
fn get_text_multiline() {
    let buffer = Buffer::from_text("Hai nya :3\nTesting\nmrrp");
    let res = buffer
        .get_text(Range::new(Position::new(0, 4), Position::new(2, 2)))
        .unwrap();
    assert_eq!(res, "nya :3\nTesting\nmr");
}

#[test]
fn from_text_empty_yields_one_empty_line() {
    let buffer = Buffer::from_text("");
    assert_eq!(buffer.len(), 1);
    assert_eq!(buffer.get_line(0).unwrap(), "");
    assert_eq!(buffer.get_buffer(), "");
}

#[test]
fn insert_grows_line_count_by_breaks() {
    let mut buffer = Buffer::from_text("one\ntwo");
    assert_eq!(buffer.len(), 2);
    buffer.insert(Position::new(1, 1), "a\nb\nc").unwrap();
    assert_eq!(buffer.len(), 4);
    assert_eq!(buffer.get_buffer(), "one\nta\nb\ncwo");
}

#[test]
fn delete_inline_leaves_remainder() {
    let mut buffer = Buffer::from_text("Hello nya :3");
    let res = buffer
        .delete(Range::new(Position::new(0, 1), Position::new(0, 4)))
        .unwrap();
    assert_eq!(res, "ello");
    assert_eq!(buffer.len(), 1);
    assert_eq!(buffer.get_line(0).unwrap(), "H nya :3");
}

#[test]
fn delete_multiline_merges_lines() {
    let mut buffer = Buffer::from_text("Hello nya :3\nTesting\nWoah");
    let res = buffer
        .delete(Range::new(Position::new(0, 1), Position::new(1, 4)))
        .unwrap();
    assert_eq!(res, "ello nya :3\nTest");
    assert_eq!(buffer.len(), 2);
    assert_eq!(buffer.get_line(0).unwrap(), "Hing");
    assert_eq!(buffer.get_line(1).unwrap(), "Woah");
}

#[test]
fn delete_then_insert_round_trip_single_line() {
    let original = "Hello nya :3";
    let mut buffer = Buffer::from_text(original);
    let range = Range::new(Position::new(0, 1), Position::new(0, 4));
    let deleted = buffer.delete(range).unwrap();
    buffer.insert(range.start, &deleted).unwrap();
    assert_eq!(buffer.get_buffer(), original);
}

#[test]
fn delete_then_insert_round_trip_multi_line() {
    let original = "Hello nya :3\nTesting\nWoah";
    let mut buffer = Buffer::from_text(original);
    let range = Range::new(Position::new(0, 1), Position::new(1, 4));
    let deleted = buffer.delete(range).unwrap();
    buffer.insert(range.start, &deleted).unwrap();
    assert_eq!(buffer.get_buffer(), original);
    assert_eq!(buffer.len(), 3);
}

#[test]
fn get_text_is_idempotent_and_non_mutating() {
    let buffer = Buffer::from_text("Hai nya :3\nTesting");
    let range = Range::new(Position::new(0, 4), Position::new(1, 3));
    let before_len = buffer.len();
    let before_text = buffer.get_buffer();
    let first = buffer.get_text(range).unwrap();
    let second = buffer.get_text(range).unwrap();
    assert_eq!(first, second);
    assert_eq!(buffer.len(), before_len);
    assert_eq!(buffer.get_buffer(), before_text);
}

#[test]
fn insert_at_invalid_position_fails() {
    let mut buffer = Buffer::from_text("abc");
    let res = buffer.insert(Position::new(1, 0), "x");
    assert_eq!(
        res,
        Err(BufferError::InvalidPosition { line: 1, column: 0 })
    );
    let res = buffer.insert(Position::new(0, 4), "x");
    assert_eq!(
        res,
        Err(BufferError::InvalidPosition { line: 0, column: 4 })
    );
    assert_eq!(buffer.get_buffer(), "abc");
}

#[test]
fn delete_rejects_inclusive_end_at_line_length() {
    let mut buffer = Buffer::from_text("abc");
    let res = buffer.delete(Range::new(Position::new(0, 1), Position::new(0, 3)));
    assert_eq!(
        res,
        Err(BufferError::InvalidPosition { line: 0, column: 3 })
    );
    assert_eq!(buffer.get_buffer(), "abc");
}

#[test]
fn validate_position_bounds() {
    let buffer = Buffer::from_text("abc\nde");
    assert!(buffer.validate_position(Position::new(0, 3)).is_ok());
    assert!(buffer.validate_position(Position::new(1, 2)).is_ok());
    assert_eq!(
        buffer.validate_position(Position::new(2, 0)),
        Err(BufferError::InvalidPosition { line: 2, column: 0 })
    );
    assert_eq!(
        buffer.validate_position(Position::new(1, 3)),
        Err(BufferError::InvalidPosition { line: 1, column: 3 })
    );
}

#[test]
fn validate_range_reports_invalid_range() {
    let buffer = Buffer::from_text("abc");
    assert!(buffer
        .validate_range(Range::new(Position::new(0, 0), Position::new(0, 3)))
        .is_ok());
    assert_eq!(
        buffer.validate_range(Range::new(Position::new(0, 0), Position::new(5, 0))),
        Err(BufferError::InvalidRange)
    );
    assert_eq!(
        buffer.validate_range(Range::new(Position::new(9, 9), Position::new(0, 0))),
        Err(BufferError::InvalidRange)
    );
}

#[test]
fn get_line_out_of_range() {
    let buffer = Buffer::from_text("abc");
    assert_eq!(
        buffer.get_line(1),
        Err(BufferError::InvalidPosition { line: 1, column: 0 })
    );
}

#[test]
fn file_path_is_kept() {
    let mut buffer = Buffer::from_text("abc");
    assert_eq!(buffer.file_path(), None);
    buffer.set_file_path("notes/today.txt");
    assert_eq!(buffer.file_path(), Some(String::from("notes/today.txt")));
    assert_eq!(buffer.get_buffer(), "abc");
}

#[test]
fn insert_empty_text_changes_nothing() {
    let mut buffer = Buffer::from_text("ab\ncd");
    buffer.insert(Position::new(1, 1), "").unwrap();
    assert_eq!(buffer.get_buffer(), "ab\ncd");
    assert_eq!(buffer.len(), 2);
}

#[test]
fn insert_text_with_trailing_break_splits_line() {
    let mut buffer = Buffer::from_text("ab");
    buffer.insert(Position::new(0, 1), "x\n").unwrap();
    assert_eq!(buffer.len(), 2);
    assert_eq!(buffer.get_line(0).unwrap(), "ax");
    assert_eq!(buffer.get_line(1).unwrap(), "b");
}

#[test]
fn get_text_single_line_end_is_inclusive() {
    let buffer = Buffer::from_text("abc");
    let res = buffer
        .get_text(Range::new(Position::new(0, 2), Position::new(0, 2)))
        .unwrap();
    assert_eq!(res, "c");
}
