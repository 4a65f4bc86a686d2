//! Command mode's transient input accumulator: a line of typed characters
//! collected until enter commits it or escape abandons it, and the fixed
//! command set it is matched against on commit.

use vstd::prelude::*;

use crate::editor::Key;

verus! {

/// The fixed command set: write, write-and-exit, quit; anything else is
/// unrecognized and silently ignored.
#[derive(Clone, Copy, Debug, PartialEq, Eq, Structural)]
pub enum CommandKind {
    Write,
    WriteQuit,
    Quit,
    Unknown,
}

/// What one key does to the command line.
#[derive(Clone, Copy, Debug, PartialEq, Eq, Structural)]
pub enum CommandEvent {
    /// Still accumulating.
    Pending,
    /// Escape: the command line is abandoned.
    Aborted,
    /// Enter: the accumulated text, interpreted.
    Committed(CommandKind),
}

/// What an accumulated command line means.
pub open spec fn interpret(s: Seq<char>) -> CommandKind {
    if s == seq!['q'] {
        CommandKind::Quit
    } else if s == seq!['w'] {
        CommandKind::Write
    } else if s == seq!['w', 'q'] {
        CommandKind::WriteQuit
    } else {
        CommandKind::Unknown
    }
}

/// The accumulator itself.
#[derive(Debug)]
pub struct CommandLine {
    chars: Vec<char>,
}

impl CommandLine {
    /// The accumulated characters.
    pub closed spec fn chars_spec(&self) -> Seq<char> {
        self.chars@
    }

    /// An empty command line.
    pub fn new() -> (c: CommandLine)
        ensures
            c.chars_spec().len() == 0,
    {
        CommandLine { chars: Vec::new() }
    }

    /// The accumulated text, for display.
    pub fn text(&self) -> (s: String)
        ensures
            s@ == self.chars_spec(),
    {
        crate::text::chars_to_string(&self.chars)
    }

    /// Feed one key: a character appends, backspace drops the last
    /// character, enter commits the interpreted line, escape abandons it,
    /// anything else is ignored.
    pub fn input(&mut self, key: Key) -> (ev: CommandEvent)
        ensures
            match key {
                Key::Enter => ev == CommandEvent::Committed(interpret(old(self).chars_spec()))
                    && final(self).chars_spec() == old(self).chars_spec(),
                Key::Esc => ev == CommandEvent::Aborted && final(self).chars_spec() == old(
                    self,
                ).chars_spec(),
                Key::Char(c) => ev == CommandEvent::Pending && final(self).chars_spec() == old(
                    self,
                ).chars_spec().push(c),
                Key::Backspace => ev == CommandEvent::Pending && final(self).chars_spec() == (
                if old(self).chars_spec().len() > 0 {
                    old(self).chars_spec().drop_last()
                } else {
                    old(self).chars_spec()
                }),
                _ => ev == CommandEvent::Pending && final(self).chars_spec() == old(
                    self,
                ).chars_spec(),
            },
    {
        match key {
            Key::Enter => CommandEvent::Committed(self.interpret_command()),
            Key::Esc => CommandEvent::Aborted,
            Key::Char(c) => {
                self.chars.push(c);
                CommandEvent::Pending
            },
            Key::Backspace => {
                if self.chars.len() > 0 {
                    let _ = self.chars.pop();
                    proof {
                        assert(self.chars@ =~= old(self).chars@.drop_last());
                    }
                }
                CommandEvent::Pending
            },
            _ => CommandEvent::Pending,
        }
    }

    /// Match the accumulated line against the fixed command set.
    pub fn interpret_command(&self) -> (k: CommandKind)
        ensures
            k == interpret(self.chars_spec()),
    {
        let n = self.chars.len();
        if n == 1 && self.chars[0] == 'q' {
            proof {
                assert(self.chars_spec() =~= seq!['q']);
            }
            CommandKind::Quit
        } else if n == 1 && self.chars[0] == 'w' {
            proof {
                assert(self.chars_spec() =~= seq!['w']);
            }
            CommandKind::Write
        } else if n == 2 && self.chars[0] == 'w' && self.chars[1] == 'q' {
            proof {
                assert(self.chars_spec() =~= seq!['w', 'q']);
            }
            CommandKind::WriteQuit
        } else {
            proof {
                assert(self.chars_spec() != seq!['q'] && self.chars_spec() != seq!['w']
                    && self.chars_spec() != seq!['w', 'q']) by {
                    if self.chars_spec() == seq!['q'] {
                        assert(self.chars_spec().len() == 1 && self.chars_spec()[0] == 'q');
                    }
                    if self.chars_spec() == seq!['w'] {
                        assert(self.chars_spec().len() == 1 && self.chars_spec()[0] == 'w');
                    }
                    if self.chars_spec() == seq!['w', 'q'] {
                        assert(self.chars_spec().len() == 2 && self.chars_spec()[0] == 'w'
                            && self.chars_spec()[1] == 'q');
                    }
                }
            }
            CommandKind::Unknown
        }
    }
}

} // verus!
