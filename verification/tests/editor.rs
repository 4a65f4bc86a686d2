use paw_edit::Buffer;
use paw_edit::Editor;
use paw_edit::EditorMode;
use paw_edit::Key;
use paw_edit::Position;

fn current_text(editor: &Editor) -> String {
    editor.get_current_buffer().unwrap().get_buffer()
}

#[test]
fn new_editor_has_no_buffer() {
    let editor = Editor::new();
    assert_eq!(editor.buffer_count(), 0);
    assert!(editor.get_current_buffer().is_none());
    assert_eq!(editor.cursor_pos(), Position::new(0, 0));
    assert_eq!(editor.mode(), EditorMode::Normal);
}

#[test]
fn create_empty_buffer_becomes_current() {
    let mut editor = Editor::new();
    editor.create_empty_buffer();
    assert_eq!(editor.buffer_count(), 1);
    assert_eq!(editor.get_current_buffer_index(), 0);
    assert_eq!(current_text(&editor), "");
}

#[test]
fn backspace_at_origin_is_a_no_op() {
    let mut editor = Editor::new();
    editor.add_buffer(Buffer::from_text("abc\ndef"));
    editor.backspace();
    assert_eq!(current_text(&editor), "abc\ndef");
    assert_eq!(editor.cursor_pos(), Position::new(0, 0));
}

#[test]
fn backspace_deletes_character_before_cursor() {
    let mut editor = Editor::new();
    editor.add_buffer(Buffer::from_text("abc"));
    editor.move_cursor_to(Position::new(0, 2));
    editor.backspace();
    assert_eq!(current_text(&editor), "ac");
    assert_eq!(editor.cursor_pos(), Position::new(0, 1));
}

#[test]
fn backspace_at_column_zero_joins_lines() {
    let mut editor = Editor::new();
    editor.add_buffer(Buffer::from_text("abc\ndef"));
    editor.move_cursor_to(Position::new(1, 0));
    editor.backspace();
    assert_eq!(current_text(&editor), "abcdef");
    assert_eq!(editor.cursor_pos(), Position::new(0, 3));
}

#[test]
fn backspace_removes_empty_line() {
    let mut editor = Editor::new();
    editor.add_buffer(Buffer::from_text("abc\n\ndef"));
    editor.move_cursor_to(Position::new(1, 0));
    editor.backspace();
    assert_eq!(current_text(&editor), "abc\ndef");
    assert_eq!(editor.cursor_pos(), Position::new(0, 3));
}

#[test]
fn newline_splits_line_at_cursor() {
    let mut editor = Editor::new();
    editor.add_buffer(Buffer::from_text("abcd"));
    editor.move_cursor_to(Position::new(0, 2));
    editor.newline();
    assert_eq!(current_text(&editor), "ab\ncd");
    assert_eq!(editor.cursor_pos(), Position::new(1, 0));
}

#[test]
fn insert_char_advances_cursor() {
    let mut editor = Editor::new();
    editor.create_empty_buffer();
    editor.insert_char('h');
    editor.insert_char('i');
    assert_eq!(current_text(&editor), "hi");
    assert_eq!(editor.cursor_pos(), Position::new(0, 2));
}

#[test]
fn cursor_left_wraps_to_previous_line_end() {
    let mut editor = Editor::new();
    editor.add_buffer(Buffer::from_text("abc\ndef"));
    editor.move_cursor_to(Position::new(1, 0));
    editor.move_cursor_left();
    assert_eq!(editor.cursor_pos(), Position::new(0, 3));
    editor.move_cursor_left();
    assert_eq!(editor.cursor_pos(), Position::new(0, 2));
}

#[test]
fn cursor_right_wraps_to_next_line_start() {
    let mut editor = Editor::new();
    editor.add_buffer(Buffer::from_text("ab\ncd"));
    editor.move_cursor_to(Position::new(0, 2));
    editor.move_cursor_right();
    assert_eq!(editor.cursor_pos(), Position::new(1, 0));
    editor.move_cursor_right();
    assert_eq!(editor.cursor_pos(), Position::new(1, 1));
}

#[test]
fn cursor_up_and_down_clamp_to_line_length() {
    let mut editor = Editor::new();
    editor.add_buffer(Buffer::from_text("a\nlonger\nxy"));
    editor.move_cursor_to(Position::new(1, 6));
    editor.move_cursor_up();
    assert_eq!(editor.cursor_pos(), Position::new(0, 1));
    editor.move_cursor_to(Position::new(1, 6));
    editor.move_cursor_down();
    assert_eq!(editor.cursor_pos(), Position::new(2, 2));
}

#[test]
fn cursor_stops_at_document_boundaries() {
    let mut editor = Editor::new();
    editor.add_buffer(Buffer::from_text("ab\ncd"));
    editor.move_cursor_left();
    editor.move_cursor_up();
    assert_eq!(editor.cursor_pos(), Position::new(0, 0));
    editor.move_cursor_to(Position::new(1, 2));
    editor.move_cursor_right();
    editor.move_cursor_down();
    assert_eq!(editor.cursor_pos(), Position::new(1, 2));
}

#[test]
fn next_buffer_full_cycle_restores_state() {
    let mut editor = Editor::new();
    editor.add_buffer(Buffer::from_text("first\nbuffer"));
    editor.add_buffer(Buffer::from_text("second"));
    editor.add_buffer(Buffer::from_text("third one"));
    editor.move_cursor_to(Position::new(1, 3));
    editor.next_buffer();
    assert_eq!(editor.get_current_buffer_index(), 1);
    editor.move_cursor_to(Position::new(0, 5));
    editor.next_buffer();
    assert_eq!(editor.get_current_buffer_index(), 2);
    editor.next_buffer();
    assert_eq!(editor.get_current_buffer_index(), 0);
    assert_eq!(editor.cursor_pos(), Position::new(1, 3));
    editor.next_buffer();
    assert_eq!(editor.cursor_pos(), Position::new(0, 5));
}

#[test]
fn next_buffer_single_buffer_stays() {
    let mut editor = Editor::new();
    editor.add_buffer(Buffer::from_text("only"));
    editor.move_cursor_to(Position::new(0, 2));
    editor.next_buffer();
    assert_eq!(editor.get_current_buffer_index(), 0);
    assert_eq!(editor.cursor_pos(), Position::new(0, 2));
}

#[test]
fn normal_mode_dispatch() {
    let mut editor = Editor::new();
    editor.add_buffer(Buffer::from_text("abc\ndef"));
    editor.handle_normal_mode_input(Key::Char('i'));
    assert_eq!(editor.mode(), EditorMode::Insert);
    editor.handle_insert_mode_input(Key::Esc);
    assert_eq!(editor.mode(), EditorMode::Normal);
    editor.handle_normal_mode_input(Key::Char('v'));
    assert_eq!(editor.mode(), EditorMode::Visual);
    editor.handle_visual_mode_input(Key::Esc);
    editor.handle_normal_mode_input(Key::Char(':'));
    assert_eq!(editor.mode(), EditorMode::Command);
    editor.handle_command_mode_input(Key::Esc);
    assert_eq!(editor.mode(), EditorMode::Normal);
    editor.handle_normal_mode_input(Key::Char('l'));
    assert_eq!(editor.cursor_pos(), Position::new(0, 1));
    editor.handle_normal_mode_input(Key::Char('j'));
    assert_eq!(editor.cursor_pos(), Position::new(1, 1));
    editor.handle_normal_mode_input(Key::Char('k'));
    editor.handle_normal_mode_input(Key::Char('h'));
    assert_eq!(editor.cursor_pos(), Position::new(0, 0));
}

#[test]
fn insert_mode_typing() {
    let mut editor = Editor::new();
    editor.create_empty_buffer();
    editor.handle_normal_mode_input(Key::Char('i'));
    editor.handle_insert_mode_input(Key::Char('o'));
    editor.handle_insert_mode_input(Key::Char('k'));
    editor.handle_insert_mode_input(Key::Enter);
    editor.handle_insert_mode_input(Key::Char('!'));
    editor.handle_insert_mode_input(Key::Backspace);
    assert_eq!(current_text(&editor), "ok\n");
    assert_eq!(editor.cursor_pos(), Position::new(1, 0));
}

#[test]
fn display_names() {
    let mut editor = Editor::new();
    let mut with_path = Buffer::from_text("x");
    with_path.set_file_path("some/dir/notes.txt");
    editor.add_buffer(with_path);
    editor.create_empty_buffer();
    assert_eq!(editor.get_buffer_display_name(0), "notes.txt");
    assert_eq!(editor.get_buffer_display_name(1), "Untitled");
    assert_eq!(editor.get_buffer_display_name(7), "Unknown");
}

#[test]
fn mode_names() {
    assert_eq!(EditorMode::Normal.name(), "NORMAL");
    assert_eq!(EditorMode::Insert.name(), "INSERT");
    assert_eq!(EditorMode::Visual.name(), "VISUAL");
    assert_eq!(EditorMode::Command.name(), "COMMAND");
}
