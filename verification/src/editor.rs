//! The editor: a collection of buffers, the active-buffer selection, the
//! per-buffer remembered cursor position, the live cursor, and the mode
//! state machine that maps interpreted input onto buffer and cursor
//! mutations.

use vstd::prelude::*;

use crate::buffer::{
    Buffer, valid_pos, delete_ok, insert_lines, remaining_lines,
};
use crate::cursor::Cursor;
use crate::position::{Position, Range};
use crate::text::{after_last_slash, lemma_after_last_slash, str_to_chars, chars_to_string, push_range};
use vstd::string::StringExecFns;

verus! {

/// The editing mode: governs which input actions are available.
#[derive(Clone, Copy, Debug, PartialEq, Eq, Structural)]
pub enum EditorMode {
    Normal,
    Insert,
    Visual,
    Command,
}

/// An interpreted key-press action, as the input source delivers it. The
/// editor knows nothing of raw terminal events.
#[derive(Clone, Copy, Debug)]
pub enum Key {
    Char(char),
    Left,
    Right,
    Up,
    Down,
    Tab,
    Enter,
    Backspace,
    Esc,
    Other,
}

/// The editor state. Buffers are stored under dense identifiers (an
/// identifier is an index into the store); `buffer_order` lists the
/// identifiers in presentation order; `buffer_cursor_pos` remembers each
/// buffer's cursor, restored on switch.
#[derive(Debug)]
pub struct Editor {
    buffers: Vec<Buffer>,
    buffer_order: Vec<usize>,
    buffer_cursor_pos: Vec<Position>,
    current_buffer: Option<usize>,
    cursor: Cursor,
    mode: EditorMode,
}

impl Editor {
    /// The buffer store, identifier to buffer.
    pub closed spec fn buffers_spec(&self) -> Seq<Buffer> {
        self.buffers@
    }

    /// The identifiers in presentation order.
    pub closed spec fn order_spec(&self) -> Seq<usize> {
        self.buffer_order@
    }

    /// Each buffer's remembered cursor position, by identifier.
    pub closed spec fn saved_pos_spec(&self) -> Seq<Position> {
        self.buffer_cursor_pos@
    }

    /// The identifier of the active buffer, if any buffer exists.
    pub closed spec fn current_spec(&self) -> Option<usize> {
        self.current_buffer
    }

    /// The live cursor position.
    pub closed spec fn cursor_spec(&self) -> Position {
        self.cursor.pos
    }

    /// The current mode.
    pub closed spec fn mode_spec(&self) -> EditorMode {
        self.mode
    }

    /// Well-formed: the three stores agree in length, the order lists each
    /// identifier at most once and only real ones, the active identifier is
    /// present exactly when buffers exist, and every buffer is well-formed.
    pub open spec fn wf(&self) -> bool {
        &&& self.saved_pos_spec().len() == self.buffers_spec().len()
        &&& self.order_spec().len() == self.buffers_spec().len()
        &&& forall|i: int|
            0 <= i < self.order_spec().len() ==> (#[trigger] self.order_spec()[i])
                < self.buffers_spec().len()
        &&& forall|i: int, j: int|
            0 <= i < j < self.order_spec().len() ==> self.order_spec()[i] != self.order_spec()[j]
        &&& match self.current_spec() {
            Option::None => self.buffers_spec().len() == 0,
            Option::Some(id) => id < self.buffers_spec().len() && self.order_spec().contains(id),
        }
        &&& forall|i: int|
            0 <= i < self.buffers_spec().len() ==> (#[trigger] self.buffers_spec()[i]).wf()
    }
}

/// Where a left step lands: one column left, or the end of the previous
/// line when at column zero, or in place at the document start.
pub open spec fn left_pos(lines: Seq<Seq<char>>, p: Position) -> Position {
    if p.column > 0 {
        Position { line: p.line, column: (p.column - 1) as usize }
    } else if p.line > 0 && p.line - 1 < lines.len() {
        Position { line: (p.line - 1) as usize, column: lines[p.line - 1].len() as usize }
    } else {
        p
    }
}

/// Where a right step lands: one column right, or the start of the next
/// line when at the end of a line, or in place at the document end.
pub open spec fn right_pos(lines: Seq<Seq<char>>, p: Position) -> Position {
    if (p.line as int) < lines.len() {
        if p.column == lines[p.line as int].len() && p.line + 1 < lines.len() {
            Position { line: (p.line + 1) as usize, column: 0 }
        } else if p.column < lines[p.line as int].len() {
            Position { line: p.line, column: (p.column + 1) as usize }
        } else {
            p
        }
    } else {
        p
    }
}

/// Where a down step lands: one line down, the column clamped to that
/// line's length; in place on the last line.
pub open spec fn down_pos(lines: Seq<Seq<char>>, p: Position) -> Position {
    if p.line + 1 < lines.len() {
        let dl = lines[p.line + 1].len();
        Position {
            line: (p.line + 1) as usize,
            column: if p.column > dl { dl as usize } else { p.column },
        }
    } else {
        p
    }
}

/// Where an up step lands: one line up, the column clamped to that line's
/// length; in place on the first line.
pub open spec fn up_pos(lines: Seq<Seq<char>>, p: Position) -> Position {
    if p.line > 0 {
        let col = if p.line - 1 < lines.len() && p.column > lines[p.line - 1].len() {
            lines[p.line - 1].len() as usize
        } else {
            p.column
        };
        Position { line: (p.line - 1) as usize, column: col }
    } else {
        p
    }
}

/// Nothing observable changed.
pub open spec fn editor_unchanged(pre: Editor, post: Editor) -> bool {
    &&& post.buffers_spec() == pre.buffers_spec()
    &&& post.order_spec() == pre.order_spec()
    &&& post.saved_pos_spec() == pre.saved_pos_spec()
    &&& post.current_spec() == pre.current_spec()
    &&& post.cursor_spec() == pre.cursor_spec()
    &&& post.mode_spec() == pre.mode_spec()
}

/// Everything but the live cursor is unchanged.
pub open spec fn same_except_cursor(pre: Editor, post: Editor) -> bool {
    &&& post.buffers_spec() == pre.buffers_spec()
    &&& post.order_spec() == pre.order_spec()
    &&& post.saved_pos_spec() == pre.saved_pos_spec()
    &&& post.current_spec() == pre.current_spec()
    &&& post.mode_spec() == pre.mode_spec()
}

/// Only the mode changed, to `m`.
pub open spec fn mode_set_rel(pre: Editor, post: Editor, m: EditorMode) -> bool {
    &&& post.buffers_spec() == pre.buffers_spec()
    &&& post.order_spec() == pre.order_spec()
    &&& post.saved_pos_spec() == pre.saved_pos_spec()
    &&& post.current_spec() == pre.current_spec()
    &&& post.cursor_spec() == pre.cursor_spec()
    &&& post.mode_spec() == m
}

/// The active buffer's text became `new_text` (its path kept), every other
/// buffer and all remaining state but the cursor is unchanged.
pub open spec fn buffer_updated(pre: Editor, post: Editor, id: int, new_text: Seq<Seq<char>>) -> bool {
    &&& post.buffers_spec().len() == pre.buffers_spec().len()
    &&& forall|j: int|
        0 <= j < pre.buffers_spec().len() && j != id ==> #[trigger] post.buffers_spec()[j]
            == pre.buffers_spec()[j]
    &&& post.buffers_spec()[id].text() == new_text
    &&& post.buffers_spec()[id].path() == pre.buffers_spec()[id].path()
    &&& post.order_spec() == pre.order_spec()
    &&& post.saved_pos_spec() == pre.saved_pos_spec()
    &&& post.current_spec() == pre.current_spec()
    &&& post.mode_spec() == pre.mode_spec()
}

/// The cursor moved one step left against the active buffer; no active
/// buffer means no movement.
pub open spec fn left_rel(pre: Editor, post: Editor) -> bool {
    &&& same_except_cursor(pre, post)
    &&& post.cursor_spec() == match pre.current_spec() {
        Option::Some(id) => left_pos(pre.buffers_spec()[id as int].text(), pre.cursor_spec()),
        Option::None => pre.cursor_spec(),
    }
}

/// The cursor moved one step right against the active buffer.
pub open spec fn right_rel(pre: Editor, post: Editor) -> bool {
    &&& same_except_cursor(pre, post)
    &&& post.cursor_spec() == match pre.current_spec() {
        Option::Some(id) => right_pos(pre.buffers_spec()[id as int].text(), pre.cursor_spec()),
        Option::None => pre.cursor_spec(),
    }
}

/// The cursor moved one step down against the active buffer.
pub open spec fn down_rel(pre: Editor, post: Editor) -> bool {
    &&& same_except_cursor(pre, post)
    &&& post.cursor_spec() == match pre.current_spec() {
        Option::Some(id) => down_pos(pre.buffers_spec()[id as int].text(), pre.cursor_spec()),
        Option::None => pre.cursor_spec(),
    }
}

/// The cursor moved one step up against the active buffer.
pub open spec fn up_rel(pre: Editor, post: Editor) -> bool {
    &&& same_except_cursor(pre, post)
    &&& post.cursor_spec() == match pre.current_spec() {
        Option::Some(id) => up_pos(pre.buffers_spec()[id as int].text(), pre.cursor_spec()),
        Option::None => pre.cursor_spec(),
    }
}

/// The remembered position of the leaving buffer is written back, the
/// active buffer advances one step in order (wrapping), and the cursor is
/// restored from the entering buffer's remembered position.
pub open spec fn next_buffer_rel(pre: Editor, post: Editor) -> bool {
    match pre.current_spec() {
        Option::None => editor_unchanged(pre, post),
        Option::Some(id) => {
            let saved = pre.saved_pos_spec().update(id as int, pre.cursor_spec());
            let idx = pre.order_spec().index_of(id);
            let nid = pre.order_spec()[(idx + 1) % (pre.order_spec().len() as int)];
            &&& post.buffers_spec() == pre.buffers_spec()
            &&& post.order_spec() == pre.order_spec()
            &&& post.mode_spec() == pre.mode_spec()
            &&& post.saved_pos_spec() == saved
            &&& post.current_spec() == Option::Some(nid)
            &&& post.cursor_spec() == saved[nid as int]
        },
    }
}

impl Editor {
    /// An editor with no buffers, the cursor at the origin, in normal mode.
    pub fn new() -> (e: Editor)
        ensures
            e.wf(),
            e.buffers_spec().len() == 0,
            e.order_spec().len() == 0,
            e.saved_pos_spec().len() == 0,
            e.current_spec() is None,
            e.cursor_spec() == (Position { line: 0, column: 0 }),
            e.mode_spec() == EditorMode::Normal,
    {
        Editor {
            buffers: Vec::new(),
            buffer_order: Vec::new(),
            buffer_cursor_pos: Vec::new(),
            current_buffer: None,
            cursor: Cursor::new(Position::new(0, 0)),
            mode: EditorMode::Normal,
        }
    }

    /// Register `buffer` under a fresh identifier: append it to the store
    /// and to the presentation order, seed its remembered cursor at the
    /// editor's current cursor position, and make it active only if no
    /// buffer was.
    pub fn add_buffer(&mut self, buffer: Buffer)
        requires
            old(self).wf(),
            buffer.wf(),
        ensures
            final(self).wf(),
            final(self).buffers_spec() == old(self).buffers_spec().push(buffer),
            final(self).order_spec() == old(self).order_spec().push(
                old(self).buffers_spec().len() as usize,
            ),
            final(self).saved_pos_spec() == old(self).saved_pos_spec().push(
                old(self).cursor_spec(),
            ),
            final(self).current_spec() == (if old(self).current_spec() is None {
                Option::Some(old(self).buffers_spec().len() as usize)
            } else {
                old(self).current_spec()
            }),
            final(self).cursor_spec() == old(self).cursor_spec(),
            final(self).mode_spec() == old(self).mode_spec(),
    {
        let id = self.buffers.len();
        self.buffers.push(buffer);
        self.buffer_order.push(id);
        self.buffer_cursor_pos.push(self.cursor.pos);
        if self.current_buffer.is_none() {
            self.current_buffer = Some(id);
        }
        proof {
            assert forall|i: int, j: int| 0 <= i < j < self.order_spec().len() implies self
                .order_spec()[i] != self.order_spec()[j] by {
                if j < self.order_spec().len() - 1 {
                    assert(old(self).order_spec()[i] != old(self).order_spec()[j]);
                } else {
                    assert(old(self).order_spec()[i] < id);
                }
            }
            match self.current_spec() {
                Option::Some(cid) => {
                    if old(self).current_spec() is None {
                        assert(self.order_spec().last() == id);
                        assert(self.order_spec().contains(cid));
                    } else {
                        assert(old(self).order_spec().contains(cid));
                        let w = choose|w: int|
                            0 <= w < old(self).order_spec().len() && old(self).order_spec()[w]
                                == cid;
                        assert(self.order_spec()[w] == cid);
                    }
                },
                Option::None => {},
            }
        }
    }

    /// Open a new empty buffer (a single empty line, no backing path).
    pub fn create_empty_buffer(&mut self)
        requires
            old(self).wf(),
        ensures
            final(self).wf(),
            final(self).buffers_spec().len() == old(self).buffers_spec().len() + 1,
            final(self).buffers_spec().last().text() == seq![Seq::<char>::empty()],
            final(self).buffers_spec().last().path() is None,
            forall|i: int|
                0 <= i < old(self).buffers_spec().len() ==> #[trigger] final(self).buffers_spec()[i]
                    == old(self).buffers_spec()[i],
            final(self).order_spec() == old(self).order_spec().push(
                old(self).buffers_spec().len() as usize,
            ),
            final(self).saved_pos_spec() == old(self).saved_pos_spec().push(
                old(self).cursor_spec(),
            ),
            final(self).current_spec() == (if old(self).current_spec() is None {
                Option::Some(old(self).buffers_spec().len() as usize)
            } else {
                old(self).current_spec()
            }),
            final(self).cursor_spec() == old(self).cursor_spec(),
            final(self).mode_spec() == old(self).mode_spec(),
    {
        self.add_buffer(Buffer::new());
    }

    /// The active buffer, if any.
    pub fn get_current_buffer(&self) -> (r: Option<&Buffer>)
        requires
            self.wf(),
        ensures
            match self.current_spec() {
                Option::Some(id) => r matches Some(b) && *b == self.buffers_spec()[id as int],
                Option::None => r is None,
            },
    {
        match self.current_buffer {
            Some(id) => Some(&self.buffers[id]),
            None => None,
        }
    }

    /// The position of the active buffer's identifier in presentation
    /// order, or zero when no buffer is active.
    pub fn get_current_buffer_index(&self) -> (idx: usize)
        requires
            self.wf(),
        ensures
            match self.current_spec() {
                Option::Some(id) => idx == self.order_spec().index_of(id) && idx
                    < self.order_spec().len() && self.order_spec()[idx as int] == id,
                Option::None => idx == 0,
            },
    {
        match self.current_buffer {
            Some(cid) => {
                let mut i: usize = 0;
                while i < self.buffer_order.len()
                    invariant
                        self.wf(),
                        self.current_spec() == Option::Some(cid),
                        i <= self.order_spec().len(),
                        forall|j: int| 0 <= j < i ==> #[trigger] self.order_spec()[j] != cid,
                    decreases self.order_spec().len() - i,
                {
                    if self.buffer_order[i] == cid {
                        proof {
                            let w = self.order_spec().index_of(cid);
                            assert(self.order_spec().contains(cid));
                            assert(0 <= w < self.order_spec().len() && self.order_spec()[w] == cid);
                            assert(w == i as int);
                        }
                        return i;
                    }
                    i = i + 1;
                }
                proof {
                    assert(self.order_spec().contains(cid));
                    let w = choose|w: int|
                        0 <= w < self.order_spec().len() && self.order_spec()[w] == cid;
                    assert(self.order_spec()[w] != cid);
                }
                0
            },
            None => 0,
        }
    }

    /// Switch to the next buffer in presentation order, wrapping at the
    /// end: the live cursor is written back into the leaving buffer's
    /// remembered slot and restored from the entering buffer's.
    pub fn next_buffer(&mut self)
        requires
            old(self).wf(),
        ensures
            final(self).wf(),
            next_buffer_rel(*old(self), *final(self)),
    {
        match self.current_buffer {
            None => {},
            Some(id) => {
                self.buffer_cursor_pos.set(id, self.cursor.pos);
                let idx = self.get_current_buffer_index();
                let n = self.buffer_order.len();
                let next_idx = (idx + 1) % n;
                let nid = self.buffer_order[next_idx];
                self.current_buffer = Some(nid);
                self.cursor.pos = self.buffer_cursor_pos[nid];
                proof {
                    assert(self.order_spec()[next_idx as int] == nid);
                    assert(self.order_spec().contains(nid));
                }
            },
        }
    }

    /// Set the mode.
    pub fn change_mode(&mut self, mode: EditorMode)
        requires
            old(self).wf(),
        ensures
            final(self).wf(),
            mode_set_rel(*old(self), *final(self), mode),
    {
        self.mode = mode;
    }

    /// Move the cursor to `pos` if the active buffer validates it; invalid
    /// targets and the no-buffer case leave the cursor in place.
    pub fn move_cursor_to(&mut self, pos: Position)
        requires
            old(self).wf(),
        ensures
            final(self).wf(),
            same_except_cursor(*old(self), *final(self)),
            final(self).cursor_spec() == match old(self).current_spec() {
                Option::Some(id) => if valid_pos(
                    old(self).buffers_spec()[id as int].text(),
                    pos,
                ) {
                    pos
                } else {
                    old(self).cursor_spec()
                },
                Option::None => old(self).cursor_spec(),
            },
    {
        match self.current_buffer {
            None => {},
            Some(id) => {
                match self.buffers[id].validate_position(pos) {
                    Ok(_) => {
                        self.cursor.pos = pos;
                    },
                    Err(_) => {},
                }
            },
        }
    }

    /// Move the cursor one step left (see [`left_pos`]).
    pub fn move_cursor_left(&mut self)
        requires
            old(self).wf(),
        ensures
            final(self).wf(),
            left_rel(*old(self), *final(self)),
    {
        match self.current_buffer {
            None => {},
            Some(id) => {
                if self.cursor.pos.column == 0 && self.cursor.pos.line > 0 {
                    let new_line = self.cursor.pos.line - 1;
                    if new_line < self.buffers[id].len() {
                        let ll = self.buffers[id].line_len(new_line);
                        self.cursor.pos = Position::new(new_line, ll);
                    }
                } else if self.cursor.pos.column > 0 {
                    self.cursor.pos = Position::new(self.cursor.pos.line, self.cursor.pos.column - 1);
                }
            },
        }
    }

    /// Move the cursor one step right (see [`right_pos`]).
    pub fn move_cursor_right(&mut self)
        requires
            old(self).wf(),
        ensures
            final(self).wf(),
            right_rel(*old(self), *final(self)),
    {
        match self.current_buffer {
            None => {},
            Some(id) => {
                let line = self.cursor.pos.line;
                if line < self.buffers[id].len() {
                    let ll = self.buffers[id].line_len(line);
                    if self.cursor.pos.column == ll {
                        if line + 1 < self.buffers[id].len() {
                            self.cursor.pos = Position::new(line + 1, 0);
                        }
                    } else if self.cursor.pos.column < ll {
                        self.cursor.pos = Position::new(line, self.cursor.pos.column + 1);
                    }
                }
            },
        }
    }

    /// Move the cursor one step down (see [`down_pos`]).
    pub fn move_cursor_down(&mut self)
        requires
            old(self).wf(),
        ensures
            final(self).wf(),
            down_rel(*old(self), *final(self)),
    {
        match self.current_buffer {
            None => {},
            Some(id) => {
                let line = self.cursor.pos.line;
                if line < self.buffers[id].len() && line + 1 < self.buffers[id].len() {
                    let dl = self.buffers[id].line_len(line + 1);
                    let col = if self.cursor.pos.column > dl {
                        dl
                    } else {
                        self.cursor.pos.column
                    };
                    self.cursor.pos = Position::new(line + 1, col);
                }
            },
        }
    }

    /// Move the cursor one step up (see [`up_pos`]).
    pub fn move_cursor_up(&mut self)
        requires
            old(self).wf(),
        ensures
            final(self).wf(),
            up_rel(*old(self), *final(self)),
    {
        match self.current_buffer {
            None => {},
            Some(id) => {
                let line = self.cursor.pos.line;
                if line > 0 {
                    let col = if line - 1 < self.buffers[id].len() {
                        let ul = self.buffers[id].line_len(line - 1);
                        if self.cursor.pos.column > ul {
                            ul
                        } else {
                            self.cursor.pos.column
                        }
                    } else {
                        self.cursor.pos.column
                    };
                    self.cursor.pos = Position::new(line - 1, col);
                }
            },
        }
    }
}

/// What backspace does. At the document start nothing changes. At column
/// zero of a later line the line is joined onto the previous one and the
/// cursor moves to the join point; at a later column the character before
/// the cursor goes and the cursor moves one left. A failed deletion is a
/// silent no-op.
pub open spec fn backspace_rel(pre: Editor, post: Editor) -> bool {
    let p = pre.cursor_spec();
    if p.line == 0 && p.column == 0 {
        editor_unchanged(pre, post)
    } else {
        match pre.current_spec() {
            Option::None => editor_unchanged(pre, post),
            Option::Some(id) => {
                let lines = pre.buffers_spec()[id as int].text();
                if p.column > 0 {
                    let q = Position { line: p.line, column: (p.column - 1) as usize };
                    let r = Range { start: q, end: q };
                    if delete_ok(lines, r) {
                        &&& buffer_updated(pre, post, id as int, remaining_lines(lines, r))
                        &&& post.cursor_spec() == q
                    } else {
                        editor_unchanged(pre, post)
                    }
                } else {
                    if (p.line as int) < lines.len() {
                        let q = Position {
                            line: (p.line - 1) as usize,
                            column: lines[p.line - 1].len() as usize,
                        };
                        let r = Range { start: q, end: Position { line: p.line, column: 0 } };
                        &&& buffer_updated(pre, post, id as int, remaining_lines(lines, r))
                        &&& post.cursor_spec() == q
                    } else {
                        editor_unchanged(pre, post)
                    }
                }
            },
        }
    }
}

/// What inserting a line break at the cursor does: the target line splits
/// there and the cursor moves to column zero of the following line. An
/// invalid cursor is a silent no-op.
pub open spec fn newline_rel(pre: Editor, post: Editor) -> bool {
    match pre.current_spec() {
        Option::None => editor_unchanged(pre, post),
        Option::Some(id) => {
            let lines = pre.buffers_spec()[id as int].text();
            let p = pre.cursor_spec();
            if valid_pos(lines, p) {
                &&& buffer_updated(pre, post, id as int, insert_lines(lines, p, seq!['\n']))
                &&& post.cursor_spec() == (Position { line: (p.line + 1) as usize, column: 0 })
            } else {
                editor_unchanged(pre, post)
            }
        },
    }
}

/// What typing `c` does: the character splices in at the cursor and the
/// cursor advances one step right against the new text. An invalid cursor
/// is a silent no-op.
pub open spec fn insert_char_rel(pre: Editor, post: Editor, c: char) -> bool {
    match pre.current_spec() {
        Option::None => editor_unchanged(pre, post),
        Option::Some(id) => {
            let lines = pre.buffers_spec()[id as int].text();
            let p = pre.cursor_spec();
            if valid_pos(lines, p) {
                &&& buffer_updated(pre, post, id as int, insert_lines(lines, p, seq![c]))
                &&& post.cursor_spec() == right_pos(insert_lines(lines, p, seq![c]), p)
            } else {
                editor_unchanged(pre, post)
            }
        },
    }
}

impl Editor {
    /// Delete backwards at the cursor (see [`backspace_rel`]); a no-op at
    /// the document start.
    pub fn backspace(&mut self)
        requires
            old(self).wf(),
        ensures
            final(self).wf(),
            backspace_rel(*old(self), *final(self)),
    {
        let pos = self.cursor.pos;
        if pos.column == 0 && pos.line == 0 {
            return;
        }
        let id = match self.current_buffer {
            None => {
                return;
            },
            Some(id) => id,
        };
        if pos.column > 0 {
            let q = Position::new(pos.line, pos.column - 1);
            let res = self.buffers[id].delete(Range::new(q, q));
            match res {
                Ok(_) => {
                    self.cursor.pos = q;
                },
                Err(_) => {
                    proof {
                        assert(self.buffers@ =~= old(self).buffers@);
                    }
                },
            }
        } else {
            if pos.line < self.buffers[id].len() {
                let prev_len = self.buffers[id].line_len(pos.line - 1);
                let q = Position::new(pos.line - 1, prev_len);
                let res = self.buffers[id].delete(Range::new(q, Position::new(pos.line, 0)));
                self.cursor.pos = q;
            }
        }
    }

    /// Insert a line break at the cursor (see [`newline_rel`]).
    pub fn newline(&mut self)
        requires
            old(self).wf(),
        ensures
            final(self).wf(),
            newline_rel(*old(self), *final(self)),
    {
        let pos = self.cursor.pos;
        let id = match self.current_buffer {
            None => {
                return;
            },
            Some(id) => id,
        };
        let n = self.buffers[id].len();
        let res = self.buffers[id].insert(pos, "\n");
        match res {
            Ok(_) => {
                proof {
                    reveal_strlit("\n");
                    assert("\n"@ =~= seq!['\n']);
                    assert(pos.line < n);
                }
                self.cursor.pos = Position::new(pos.line + 1, 0);
            },
            Err(_) => {
                proof {
                    assert(self.buffers@ =~= old(self).buffers@);
                }
            },
        }
    }

    /// Type the character `c` at the cursor (see [`insert_char_rel`]).
    pub fn insert_char(&mut self, c: char)
        requires
            old(self).wf(),
        ensures
            final(self).wf(),
            insert_char_rel(*old(self), *final(self), c),
    {
        let pos = self.cursor.pos;
        let id = match self.current_buffer {
            None => {
                return;
            },
            Some(id) => id,
        };
        let mut s = String::new();
        crate::text::push_char(&mut s, c);
        proof {
            assert(s@ =~= seq![c]);
        }
        let res = self.buffers[id].insert(pos, s.as_str());
        match res {
            Ok(_) => {
                self.move_cursor_right();
            },
            Err(_) => {
                proof {
                    assert(self.buffers@ =~= old(self).buffers@);
                }
            },
        }
    }

    /// Dispatch a key in normal mode: `i`, `v` and `:` switch mode,
    /// `hjkl` and the arrows move, tab advances to the next buffer.
    pub fn handle_normal_mode_input(&mut self, key: Key)
        requires
            old(self).wf(),
        ensures
            final(self).wf(),
            match key {
                Key::Char(c) => (if c == 'i' {
                    mode_set_rel(*old(self), *final(self), EditorMode::Insert)
                } else if c == 'v' {
                    mode_set_rel(*old(self), *final(self), EditorMode::Visual)
                } else if c == ':' {
                    mode_set_rel(*old(self), *final(self), EditorMode::Command)
                } else if c == 'h' {
                    left_rel(*old(self), *final(self))
                } else if c == 'j' {
                    down_rel(*old(self), *final(self))
                } else if c == 'k' {
                    up_rel(*old(self), *final(self))
                } else if c == 'l' {
                    right_rel(*old(self), *final(self))
                } else {
                    editor_unchanged(*old(self), *final(self))
                }),
                Key::Left => left_rel(*old(self), *final(self)),
                Key::Down => down_rel(*old(self), *final(self)),
                Key::Up => up_rel(*old(self), *final(self)),
                Key::Right => right_rel(*old(self), *final(self)),
                Key::Tab => next_buffer_rel(*old(self), *final(self)),
                _ => editor_unchanged(*old(self), *final(self)),
            },
    {
        match key {
            Key::Char(c) => {
                if c == 'i' {
                    self.change_mode(EditorMode::Insert);
                } else if c == 'v' {
                    self.change_mode(EditorMode::Visual);
                } else if c == ':' {
                    self.change_mode(EditorMode::Command);
                } else if c == 'h' {
                    self.move_cursor_left();
                } else if c == 'j' {
                    self.move_cursor_down();
                } else if c == 'k' {
                    self.move_cursor_up();
                } else if c == 'l' {
                    self.move_cursor_right();
                }
            },
            Key::Left => self.move_cursor_left(),
            Key::Down => self.move_cursor_down(),
            Key::Up => self.move_cursor_up(),
            Key::Right => self.move_cursor_right(),
            Key::Tab => self.next_buffer(),
            _ => {},
        }
    }

    /// Dispatch a key in insert mode: escape returns to normal mode,
    /// backspace and enter edit, a character types itself, the arrows move.
    pub fn handle_insert_mode_input(&mut self, key: Key)
        requires
            old(self).wf(),
        ensures
            final(self).wf(),
            match key {
                Key::Esc => mode_set_rel(*old(self), *final(self), EditorMode::Normal),
                Key::Backspace => backspace_rel(*old(self), *final(self)),
                Key::Enter => newline_rel(*old(self), *final(self)),
                Key::Char(c) => insert_char_rel(*old(self), *final(self), c),
                Key::Left => left_rel(*old(self), *final(self)),
                Key::Down => down_rel(*old(self), *final(self)),
                Key::Up => up_rel(*old(self), *final(self)),
                Key::Right => right_rel(*old(self), *final(self)),
                _ => editor_unchanged(*old(self), *final(self)),
            },
    {
        match key {
            Key::Esc => self.change_mode(EditorMode::Normal),
            Key::Backspace => self.backspace(),
            Key::Enter => self.newline(),
            Key::Char(c) => self.insert_char(c),
            Key::Left => self.move_cursor_left(),
            Key::Down => self.move_cursor_down(),
            Key::Up => self.move_cursor_up(),
            Key::Right => self.move_cursor_right(),
            _ => {},
        }
    }

    /// Dispatch a key in visual mode: escape returns to normal mode,
    /// everything else is ignored.
    pub fn handle_visual_mode_input(&mut self, key: Key)
        requires
            old(self).wf(),
        ensures
            final(self).wf(),
            match key {
                Key::Esc => mode_set_rel(*old(self), *final(self), EditorMode::Normal),
                _ => editor_unchanged(*old(self), *final(self)),
            },
    {
        match key {
            Key::Esc => self.change_mode(EditorMode::Normal),
            _ => {},
        }
    }

    /// Dispatch a key in command mode: escape returns to normal mode,
    /// everything else is ignored here (the command line itself accumulates
    /// separately, see the command module).
    pub fn handle_command_mode_input(&mut self, key: Key)
        requires
            old(self).wf(),
        ensures
            final(self).wf(),
            match key {
                Key::Esc => mode_set_rel(*old(self), *final(self), EditorMode::Normal),
                _ => editor_unchanged(*old(self), *final(self)),
            },
    {
        match key {
            Key::Esc => self.change_mode(EditorMode::Normal),
            _ => {},
        }
    }

    /// The current mode.
    pub fn mode(&self) -> (m: EditorMode)
        ensures
            m == self.mode_spec(),
    {
        self.mode
    }

    /// The live cursor position.
    pub fn cursor_pos(&self) -> (p: Position)
        ensures
            p == self.cursor_spec(),
    {
        self.cursor.pos
    }

    /// How many buffers are open.
    pub fn buffer_count(&self) -> (n: usize)
        ensures
            n == self.buffers_spec().len(),
    {
        self.buffers.len()
    }

    /// The buffer identifiers in presentation order.
    pub fn buffer_ids(&self) -> (r: Vec<usize>)
        ensures
            r@ == self.order_spec(),
    {
        let mut r: Vec<usize> = Vec::new();
        let mut i: usize = 0;
        while i < self.buffer_order.len()
            invariant
                i <= self.order_spec().len(),
                r@ =~= self.order_spec().take(i as int),
            decreases self.order_spec().len() - i,
        {
            r.push(self.buffer_order[i]);
            i = i + 1;
            proof {
                assert(r@ =~= self.order_spec().take(i as int));
            }
        }
        proof {
            assert(r@ =~= self.order_spec());
        }
        r
    }

    /// The name to show for a buffer: the file name part of its path, or
    /// `Untitled` without a path, or `Unknown` for an identifier that names
    /// no buffer.
    pub fn get_buffer_display_name(&self, buffer_id: usize) -> (r: String)
        requires
            self.wf(),
        ensures
            (buffer_id as int) < self.buffers_spec().len() ==> match self.buffers_spec()[
                buffer_id as int
            ].path() {
                Option::Some(p) => r@ == after_last_slash(p),
                Option::None => r@ == "Untitled"@,
            },
            (buffer_id as int) >= self.buffers_spec().len() ==> r@ == "Unknown"@,
    {
        if buffer_id < self.buffers.len() {
            match self.buffers[buffer_id].file_path() {
                Some(p) => {
                    let chars = str_to_chars(p.as_str());
                    let mut i: usize = chars.len();
                    while i > 0 && chars[i - 1] != '/'
                        invariant
                            i <= chars@.len(),
                            forall|j: int| i <= j < chars@.len() ==> chars@[j] != '/',
                        decreases i,
                    {
                        i = i - 1;
                    }
                    let n = chars.len();
                    let mut out: Vec<char> = Vec::new();
                    push_range(&mut out, &chars, i, n);
                    proof {
                        lemma_after_last_slash(chars@, i as int);
                    }
                    chars_to_string(&out)
                },
                None => String::from_str("Untitled"),
            }
        } else {
            String::from_str("Unknown")
        }
    }
}

/// No identifier appears twice in the order.
pub open spec fn order_distinct(order: Seq<usize>) -> bool {
    forall|i: int, j: int| 0 <= i < j < order.len() ==> order[i] != order[j]
}

/// The state one buffer switch touches: the active identifier, the live
/// cursor, and the remembered positions (indexed by identifier).
pub struct SwitchState {
    pub cur: usize,
    pub cursor: Position,
    pub saved: Seq<Position>,
}

/// One buffer switch: the live cursor is written back into the leaving
/// buffer's slot, the active identifier advances one step in order
/// (wrapping), and the cursor is restored from the entering buffer's slot.
pub open spec fn switch_step(order: Seq<usize>, s: SwitchState) -> SwitchState
    recommends
        order.len() > 0,
        order.contains(s.cur),
{
    let saved = s.saved.update(s.cur as int, s.cursor);
    let nid = order[(order.index_of(s.cur) + 1) % (order.len() as int)];
    SwitchState { cur: nid, cursor: saved[nid as int], saved }
}

/// `k` buffer switches in a row.
pub open spec fn switch_iter(order: Seq<usize>, s: SwitchState, k: nat) -> SwitchState
    decreases k,
{
    if k == 0 {
        s
    } else {
        switch_step(order, switch_iter(order, s, (k - 1) as nat))
    }
}

/// `next_buffer` performs exactly one switch step on the switch state.
pub proof fn lemma_next_buffer_is_switch_step(pre: Editor, post: Editor, id0: usize)
    requires
        pre.wf(),
        next_buffer_rel(pre, post),
        pre.current_spec() == Option::Some(id0),
    ensures
        ({
            let s = switch_step(
                pre.order_spec(),
                SwitchState { cur: id0, cursor: pre.cursor_spec(), saved: pre.saved_pos_spec() },
            );
            &&& post.current_spec() == Option::Some(s.cur)
            &&& post.cursor_spec() == s.cursor
            &&& post.saved_pos_spec() == s.saved
        }),
{
}

/// In a duplicate-free order, the index of the element at `m` is `m`.
proof fn lemma_index_of_in_distinct(order: Seq<usize>, m: int)
    requires
        order_distinct(order),
        0 <= m < order.len(),
    ensures
        order.index_of(order[m]) == m,
{
    assert(order.contains(order[m]));
    let w = order.index_of(order[m]);
    assert(0 <= w < order.len() && order[w] == order[m]);
    if w < m {
        assert(order[w] != order[m]);
    } else if m < w {
        assert(order[m] != order[w]);
    }
}

/// Taking the remainder before or after adding one comes to the same.
proof fn lemma_mod_succ(a: int, n: int)
    requires
        0 <= a,
        0 < n,
    ensures
        (a % n + 1) % n == (a + 1) % n,
{
    if n == 1 {
        vstd::arithmetic::div_mod::lemma_mod_division_less_than_divisor(a, 1);
        vstd::arithmetic::div_mod::lemma_mod_division_less_than_divisor(a % 1 + 1, 1);
        vstd::arithmetic::div_mod::lemma_mod_division_less_than_divisor(a + 1, 1);
    } else {
        vstd::arithmetic::div_mod::lemma_add_mod_noop(a, 1, n);
        vstd::arithmetic::div_mod::lemma_small_mod(1nat, n as nat);
    }
}

/// After `k` switches (`k` at least one): the active identifier has
/// advanced `k` steps around the order, the remembered positions are the
/// starting ones with only the starting buffer's slot rewritten to the
/// starting cursor, and the live cursor reads from the active slot.
proof fn lemma_switch_cycle_inv(order: Seq<usize>, s0: SwitchState, k: int)
    requires
        order.len() > 0,
        order_distinct(order),
        order.contains(s0.cur),
        forall|i: int| 0 <= i < order.len() ==> (#[trigger] order[i] as int) < s0.saved.len(),
        1 <= k <= order.len(),
    ensures
        ({
            let n = order.len() as int;
            let i0 = order.index_of(s0.cur);
            let sk = switch_iter(order, s0, k as nat);
            &&& sk.cur == order[(i0 + k) % n]
            &&& sk.saved == s0.saved.update(s0.cur as int, s0.cursor)
            &&& sk.cursor == sk.saved[sk.cur as int]
        }),
    decreases k,
{
    let n = order.len() as int;
    let i0 = order.index_of(s0.cur);
    assert(0 <= i0 < n && order[i0] == s0.cur);
    if k == 1 {
        assert(switch_iter(order, s0, 0nat) == s0);
        assert(switch_iter(order, s0, 1nat) == switch_step(order, s0));
        vstd::arithmetic::div_mod::lemma_mod_division_less_than_divisor(i0 + 1, n);
    } else {
        lemma_switch_cycle_inv(order, s0, k - 1);
        let sk1 = switch_iter(order, s0, (k - 1) as nat);
        let ik1 = (i0 + k - 1) % n;
        vstd::arithmetic::div_mod::lemma_mod_division_less_than_divisor(i0 + k - 1, n);
        assert(sk1.cur == order[ik1]);
        lemma_index_of_in_distinct(order, ik1);
        let sk = switch_iter(order, s0, k as nat);
        assert(sk == switch_step(order, sk1));
        assert(sk.saved =~= sk1.saved);
        lemma_mod_succ(i0 + k - 1, n);
        vstd::arithmetic::div_mod::lemma_mod_division_less_than_divisor(i0 + k, n);
    }
}

/// Switching buffers as many times as there are open buffers returns the
/// active identifier to its starting value and restores the live cursor
/// exactly; every remembered position is as it stood when its buffer was
/// last left (the starting buffer's slot holds the starting cursor, written
/// back at the first switch; every other slot was restored on entering and
/// written back unchanged on leaving).
pub proof fn lemma_full_cycle_restores(order: Seq<usize>, s0: SwitchState)
    requires
        order.len() > 0,
        order_distinct(order),
        order.contains(s0.cur),
        forall|i: int| 0 <= i < order.len() ==> (#[trigger] order[i] as int) < s0.saved.len(),
    ensures
        switch_iter(order, s0, order.len()).cur == s0.cur,
        switch_iter(order, s0, order.len()).cursor == s0.cursor,
        switch_iter(order, s0, order.len()).saved == s0.saved.update(s0.cur as int, s0.cursor),
{
    let n = order.len() as int;
    let i0 = order.index_of(s0.cur);
    assert(0 <= i0 < n && order[i0] == s0.cur);
    lemma_switch_cycle_inv(order, s0, n);
    vstd::arithmetic::div_mod::lemma_mod_multiples_vanish(1, i0, n);
    vstd::arithmetic::div_mod::lemma_small_mod(i0 as nat, n as nat);
    let sn = switch_iter(order, s0, n as nat);
    assert(sn.cur == order[i0]);
    assert(sn.cursor == sn.saved[s0.cur as int]);
}

impl EditorMode {
    /// The mode's display name.
    pub fn name(&self) -> (s: String)
        ensures
            self is Normal ==> s@ == "NORMAL"@,
            self is Insert ==> s@ == "INSERT"@,
            self is Visual ==> s@ == "VISUAL"@,
            self is Command ==> s@ == "COMMAND"@,
    {
        match self {
            EditorMode::Normal => String::from_str("NORMAL"),
            EditorMode::Insert => String::from_str("INSERT"),
            EditorMode::Visual => String::from_str("VISUAL"),
            EditorMode::Command => String::from_str("COMMAND"),
        }
    }
}

} // verus!
