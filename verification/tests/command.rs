use paw_edit::CommandEvent;
use paw_edit::CommandKind;
use paw_edit::CommandLine;
use paw_edit::Key;

#[test]
fn quit_command() {
    let mut line = CommandLine::new();
    assert_eq!(line.input(Key::Char('q')), CommandEvent::Pending);
    assert_eq!(
        line.input(Key::Enter),
        CommandEvent::Committed(CommandKind::Quit)
    );
}

#[test]
fn write_and_write_quit_commands() {
    let mut line = CommandLine::new();
    line.input(Key::Char('w'));
    assert_eq!(
        line.input(Key::Enter),
        CommandEvent::Committed(CommandKind::Write)
    );
    let mut line = CommandLine::new();
    line.input(Key::Char('w'));
    line.input(Key::Char('q'));
    assert_eq!(line.text(), "wq");
    assert_eq!(
        line.input(Key::Enter),
        CommandEvent::Committed(CommandKind::WriteQuit)
    );
}

#[test]
fn unknown_command_is_ignored() {
    let mut line = CommandLine::new();
    line.input(Key::Char('x'));
    line.input(Key::Char('y'));
    assert_eq!(
        line.input(Key::Enter),
        CommandEvent::Committed(CommandKind::Unknown)
    );
}

#[test]
fn backspace_edits_the_command_line() {
    let mut line = CommandLine::new();
    line.input(Key::Char('w'));
    line.input(Key::Char('x'));
    assert_eq!(line.input(Key::Backspace), CommandEvent::Pending);
    line.input(Key::Char('q'));
    assert_eq!(
        line.input(Key::Enter),
        CommandEvent::Committed(CommandKind::WriteQuit)
    );
    let mut empty = CommandLine::new();
    assert_eq!(empty.input(Key::Backspace), CommandEvent::Pending);
    assert_eq!(empty.text(), "");
}

#[test]
fn escape_aborts() {
    let mut line = CommandLine::new();
    line.input(Key::Char('q'));
    assert_eq!(line.input(Key::Esc), CommandEvent::Aborted);
}

#[test]
fn empty_command_is_unknown() {
    let mut line = CommandLine::new();
    assert_eq!(
        line.input(Key::Enter),
        CommandEvent::Committed(CommandKind::Unknown)
    );
}
