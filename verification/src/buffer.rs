//! A line-oriented text buffer: the exclusive owner of one document's text,
//! with verified splice semantics for insertion, deletion and reading.
//!
//! The abstract state is a sequence of lines (`Seq<Seq<char>>`), always
//! non-empty and with no line holding a break, plus an optional backing
//! file path. Spans use an inclusive end column on single-line ranges and
//! an exclusive end column on the last line of multi-line ranges; this
//! asymmetry is deliberate and preserved exactly, since the delete /
//! re-insert round trip depends on it.

use vstd::prelude::*;
use vstd::pervasive::VecAdditionalExecFns;

use crate::errors::BufferError;
use crate::position::{Position, Range, pos_le};
use crate::text::{
    count_breaks,
    split_lines, join_lines, lines_ok, line_ok, lemma_split_ok, lemma_split_single,
    lemma_split_len, lemma_split_join, lemma_subrange_line_ok,
    lemma_concat_line_ok, views_of, str_to_chars, chars_to_string, push_range, split_chars, join_chars,
};

verus! {

broadcast use crate::text::lemma_views_of_index, crate::text::lemma_views_of_len;

/// `p` names a character slot in `lines`: a real line, and a column at most
/// that line's length.
pub open spec fn valid_pos(lines: Seq<Seq<char>>, p: Position) -> bool {
    &&& (p.line as int) < lines.len()
    &&& p.column <= lines[p.line as int].len()
}

/// The span stays within one line.
pub open spec fn single_line_span(r: Range) -> bool {
    r.start.line == r.end.line
}

/// When a deletion or read of `r` succeeds: both endpoints valid, and on a
/// single-line span the inclusive end column must name a real character.
pub open spec fn delete_ok(lines: Seq<Seq<char>>, r: Range) -> bool {
    &&& valid_pos(lines, r.start)
    &&& valid_pos(lines, r.end)
    &&& (single_line_span(r) ==> (r.end.column as int) < lines[r.end.line as int].len())
}

/// Splice the segments of an inserted text into one line at `col`: the
/// first segment joins the text before `col`, the last joins the text after,
/// interior segments become whole lines.
pub open spec fn splice_segs(line: Seq<char>, col: int, segs: Seq<Seq<char>>) -> Seq<Seq<char>>
    recommends
        0 <= col <= line.len(),
        segs.len() >= 1,
{
    let before = line.subrange(0, col);
    let after = line.subrange(col, line.len() as int);
    if segs.len() == 1 {
        seq![before + segs[0] + after]
    } else {
        seq![before + segs[0]] + segs.subrange(1, segs.len() - 1) + seq![segs.last() + after]
    }
}

/// The line sequence after inserting text `t` at `p`.
pub open spec fn insert_lines(lines: Seq<Seq<char>>, p: Position, t: Seq<char>) -> Seq<Seq<char>>
    recommends
        valid_pos(lines, p),
{
    lines.take(p.line as int) + splice_segs(
        lines[p.line as int],
        p.column as int,
        split_lines(t),
    ) + lines.skip(p.line as int + 1)
}

/// The segments a deletion or read of `r` covers: on one line, the span with
/// its end column included; across lines, the start line from the start
/// column on, every interior line whole, and the end line up to the end
/// column excluded.
pub open spec fn deleted_segs(lines: Seq<Seq<char>>, r: Range) -> Seq<Seq<char>>
    recommends
        delete_ok(lines, r),
        pos_le(r.start, r.end),
{
    if single_line_span(r) {
        seq![
            lines[r.start.line as int].subrange(r.start.column as int, r.end.column as int + 1),
        ]
    } else {
        seq![
            lines[r.start.line as int].subrange(
                r.start.column as int,
                lines[r.start.line as int].len() as int,
            ),
        ] + lines.subrange(r.start.line as int + 1, r.end.line as int) + seq![
            lines[r.end.line as int].subrange(0, r.end.column as int),
        ]
    }
}

/// The text a deletion of `r` returns, its segments joined by line breaks.
pub open spec fn deleted_text(lines: Seq<Seq<char>>, r: Range) -> Seq<char> {
    join_lines(deleted_segs(lines, r))
}

/// The line sequence after deleting `r`: on one line the span drops out;
/// across lines the covered lines collapse into one merged line made of the
/// start line before the start column and the end line from the end column
/// on.
pub open spec fn remaining_lines(lines: Seq<Seq<char>>, r: Range) -> Seq<Seq<char>>
    recommends
        delete_ok(lines, r),
        pos_le(r.start, r.end),
{
    if single_line_span(r) {
        let l = lines[r.start.line as int];
        lines.update(
            r.start.line as int,
            l.subrange(0, r.start.column as int) + l.subrange(r.end.column as int + 1, l.len() as int),
        )
    } else {
        lines.take(r.start.line as int) + seq![
            lines[r.start.line as int].subrange(0, r.start.column as int) + lines[
                r.end.line as int
            ].subrange(r.end.column as int, lines[r.end.line as int].len() as int),
        ] + lines.skip(r.end.line as int + 1)
    }
}

/// Inserting a non-empty, break-free text at the origin of a buffer with a
/// single empty line yields a single line equal to that text.
pub proof fn lemma_insert_into_empty(t: Seq<char>)
    requires
        t.len() > 0,
        line_ok(t),
    ensures
        insert_lines(seq![Seq::<char>::empty()], Position { line: 0, column: 0 }, t) == seq![t],
{
    lemma_split_single(t);
    let lines = seq![Seq::<char>::empty()];
    let p = Position { line: 0, column: 0 };
    assert(split_lines(t) == seq![t]);
    assert(splice_segs(lines[0], 0, seq![t]) =~~= seq![t]);
    assert(insert_lines(lines, p, t) =~~= seq![t]);
}

/// Inserting a text grows the line count by exactly the number of line
/// breaks in the text.
pub proof fn lemma_insert_line_count(lines: Seq<Seq<char>>, p: Position, t: Seq<char>)
    requires
        valid_pos(lines, p),
    ensures
        insert_lines(lines, p, t).len() == lines.len() + count_breaks(t),
{
    lemma_split_len(t);
    let segs = split_lines(t);
    if segs.len() == 1 {
        assert(splice_segs(lines[p.line as int], p.column as int, segs).len() == 1);
    } else {
        assert(splice_segs(lines[p.line as int], p.column as int, segs).len() == segs.len());
    }
}

/// The segments a valid deletion covers are themselves well-formed lines.
proof fn lemma_deleted_segs_ok(lines: Seq<Seq<char>>, r: Range)
    requires
        lines_ok(lines),
        pos_le(r.start, r.end),
        delete_ok(lines, r),
    ensures
        lines_ok(deleted_segs(lines, r)),
{
    let segs = deleted_segs(lines, r);
    let sl = r.start.line as int;
    let sc = r.start.column as int;
    let el = r.end.line as int;
    let ec = r.end.column as int;
    if single_line_span(r) {
        lemma_subrange_line_ok(lines[sl], sc, ec + 1);
    } else {
        lemma_subrange_line_ok(lines[sl], sc, lines[sl].len() as int);
        lemma_subrange_line_ok(lines[el], 0, ec);
        assert forall|i: int| 0 <= i < segs.len() implies line_ok(#[trigger] segs[i]) by {
            if 0 < i < segs.len() - 1 {
                assert(segs[i] == lines[sl + i]);
            }
        }
    }
}

/// Deleting a span and re-inserting the returned text at the span's start
/// restores the document exactly, including its line structure.
pub proof fn lemma_delete_insert_round_trip(lines: Seq<Seq<char>>, r: Range)
    requires
        lines_ok(lines),
        pos_le(r.start, r.end),
        delete_ok(lines, r),
    ensures
        insert_lines(remaining_lines(lines, r), r.start, deleted_text(lines, r)) == lines,
{
    let segs = deleted_segs(lines, r);
    lemma_deleted_segs_ok(lines, r);
    lemma_split_join(segs);
    let rem = remaining_lines(lines, r);
    let sl = r.start.line as int;
    let sc = r.start.column as int;
    let el = r.end.line as int;
    let ec = r.end.column as int;
    if single_line_span(r) {
        let b = lines[sl].subrange(0, sc);
        let a = lines[sl].subrange(ec + 1, lines[sl].len() as int);
        assert(rem[sl] == b + a);
        assert((b + a).subrange(0, sc) =~= b);
        assert((b + a).subrange(sc, (b + a).len() as int) =~= a);
        assert(b + segs[0] + a =~= lines[sl]);
        assert(insert_lines(rem, r.start, deleted_text(lines, r)) =~~= lines);
    } else {
        let b = lines[sl].subrange(0, sc);
        let e = lines[el].subrange(ec, lines[el].len() as int);
        assert(rem[sl] == b + e);
        assert((b + e).subrange(0, sc) =~= b);
        assert((b + e).subrange(sc, (b + e).len() as int) =~= e);
        assert(b + segs[0] =~= lines[sl]);
        assert(segs.last() + e =~= lines[el]);
        assert(segs.subrange(1, segs.len() - 1) =~~= lines.subrange(sl + 1, el));
        assert(rem.take(sl) =~~= lines.take(sl));
        assert(rem.skip(sl + 1) =~~= lines.skip(el + 1));
        assert(insert_lines(rem, r.start, deleted_text(lines, r)) =~~= lines);
    }
}

/// One document's text as an ordered sequence of lines, and its optional
/// backing file path.
#[derive(Debug)]
pub struct Buffer {
    lines: Vec<Vec<char>>,
    file_path: Option<Vec<char>>,
}

impl Buffer {
    /// The buffer's lines.
    pub closed spec fn text(&self) -> Seq<Seq<char>> {
        views_of(self.lines)
    }

    /// The buffer's backing file path, if one is set.
    pub closed spec fn path(&self) -> Option<Seq<char>> {
        match self.file_path {
            Some(p) => Some(p@),
            None => None,
        }
    }

    /// Well-formed: at least one line, and no line holds a break.
    pub open spec fn wf(&self) -> bool {
        lines_ok(self.text())
    }

    /// A buffer with a single empty line and no backing path.
    pub fn new() -> (b: Buffer)
        ensures
            b.wf(),
            b.text() == seq![Seq::<char>::empty()],
            b.path() is None,
    {
        let mut lines: Vec<Vec<char>> = Vec::new();
        lines.push(Vec::new());
        let b = Buffer { lines, file_path: None };
        proof {
            assert(b.text() =~~= seq![Seq::<char>::empty()]);
            assert(!Seq::<char>::empty().contains('\n'));
        }
        b
    }

    /// A buffer holding `text`, split into lines at `'\n'`; empty text
    /// yields a single empty line. No backing path is set.
    pub fn from_text(text: &str) -> (b: Buffer)
        ensures
            b.wf(),
            b.text() == split_lines(text@),
            b.path() is None,
    {
        let chars = str_to_chars(text);
        let lines = split_chars(&chars);
        proof {
            lemma_split_ok(text@);
        }
        Buffer { lines, file_path: None }
    }

    /// Set the backing file path; the text is untouched.
    pub fn set_file_path(&mut self, path: &str)
        ensures
            final(self).text() == old(self).text(),
            final(self).path() == Some(path@),
            final(self).wf() == old(self).wf(),
    {
        self.file_path = Some(str_to_chars(path));
    }

    /// The backing file path, if one is set.
    pub fn file_path(&self) -> (r: Option<String>)
        ensures
            match r {
                Some(p) => self.path() == Some(p@),
                None => self.path() is None,
            },
    {
        match &self.file_path {
            Some(p) => Some(chars_to_string(p)),
            None => None,
        }
    }

    /// The number of lines.
    pub fn len(&self) -> (n: usize)
        ensures
            n == self.text().len(),
    {
        self.lines.len()
    }

    /// The length in characters of the line at index `line`.
    pub fn line_len(&self, line: usize) -> (n: usize)
        requires
            (line as int) < self.text().len(),
        ensures
            n == self.text()[line as int].len(),
    {
        self.lines[line].len()
    }

    /// The line at index `line`, or `InvalidPosition` if there is none.
    pub fn get_line(&self, line: usize) -> (r: Result<String, BufferError>)
        ensures
            r is Ok <==> (line as int) < self.text().len(),
            r matches Ok(s) ==> s@ == self.text()[line as int],
            r is Err ==> r == Err::<String, BufferError>(
                BufferError::InvalidPosition { line: line, column: 0 },
            ),
    {
        if line < self.lines.len() {
            Ok(chars_to_string(&self.lines[line]))
        } else {
            Err(BufferError::InvalidPosition { line: line, column: 0 })
        }
    }

    /// Check that `pos` names a slot of this buffer: its line exists and its
    /// column is at most that line's length.
    pub fn validate_position(&self, pos: Position) -> (r: Result<(), BufferError>)
        ensures
            r is Ok <==> valid_pos(self.text(), pos),
            r is Err ==> r == Err::<(), BufferError>(
                BufferError::InvalidPosition { line: pos.line, column: pos.column },
            ),
    {
        if pos.line >= self.lines.len() {
            return Err(BufferError::InvalidPosition { line: pos.line, column: pos.column });
        }
        if pos.column > self.lines[pos.line].len() {
            return Err(BufferError::InvalidPosition { line: pos.line, column: pos.column });
        }
        Ok(())
    }

    /// Check both endpoints of `range`, failing with `InvalidRange` if
    /// either is invalid.
    pub fn validate_range(&self, range: Range) -> (r: Result<(), BufferError>)
        ensures
            r is Ok <==> valid_pos(self.text(), range.start) && valid_pos(self.text(), range.end),
            r is Err ==> r == Err::<(), BufferError>(BufferError::InvalidRange),
    {
        match self.validate_position(range.start) {
            Ok(_) => {},
            Err(_) => {
                return Err(BufferError::InvalidRange);
            },
        }
        match self.validate_position(range.end) {
            Ok(_) => Ok(()),
            Err(_) => Err(BufferError::InvalidRange),
        }
    }

    /// The full document text, lines joined by line breaks, no trailing
    /// break.
    pub fn get_buffer(&self) -> (s: String)
        ensures
            s@ == join_lines(self.text()),
    {
        let joined = join_chars(&self.lines);
        chars_to_string(&joined)
    }

    /// The characters the span `range` covers, joined by line breaks.
    fn span_chars(&self, range: Range) -> (v: Vec<char>)
        requires
            self.wf(),
            pos_le(range.start, range.end),
            delete_ok(self.text(), range),
        ensures
            v@ == deleted_text(self.text(), range),
    {
        let sl = range.start.line;
        let sc = range.start.column;
        let el = range.end.line;
        let ec = range.end.column;
        if sl == el {
            let line_len = self.lines[sl].len();
            proof {
                assert(ec < line_len);
            }
            let mut seg: Vec<char> = Vec::new();
            push_range(&mut seg, &self.lines[sl], sc, ec + 1);
            proof {
                assert(deleted_segs(self.text(), range).len() == 1);
                assert(seg@ =~= deleted_segs(self.text(), range)[0]);
            }
            seg
        } else {
            let mut segs: Vec<Vec<char>> = Vec::new();
            let mut first: Vec<char> = Vec::new();
            let sl_len = self.lines[sl].len();
            push_range(&mut first, &self.lines[sl], sc, sl_len);
            segs.push(first);
            let ghost target = deleted_segs(self.text(), range);
            proof {
                assert(views_of(segs) =~~= target.take(1));
            }
            let mut i: usize = sl + 1;
            while i < el
                invariant
                    sl < i <= el,
                    el < self.text().len(),
                    self.wf(),
                    pos_le(range.start, range.end),
                    delete_ok(self.text(), range),
                    range.start.line == sl,
                    range.end.line == el,
                    target == deleted_segs(self.text(), range),
                    views_of(segs) == target.take(i - sl),
                decreases el - i,
            {
                let mut mid: Vec<char> = Vec::new();
                let mid_len = self.lines[i].len();
                push_range(&mut mid, &self.lines[i], 0, mid_len);
                proof {
                    assert(mid@ =~= self.text()[i as int]);
                    assert(target[i - sl] == self.text()[i as int]);
                }
                segs.push(mid);
                i = i + 1;
                proof {
                    assert(views_of(segs) =~~= target.take(i - sl));
                }
            }
            let mut last: Vec<char> = Vec::new();
            push_range(&mut last, &self.lines[el], 0, ec);
            segs.push(last);
            proof {
                assert(target.len() == el - sl + 1);
                assert(views_of(segs) =~~= target);
            }
            join_chars(&segs)
        }
    }

    /// Read the text the span `range` covers, without mutating the buffer:
    /// the same inclusive / exclusive asymmetry as `delete`.
    pub fn get_text(&self, range: Range) -> (r: Result<String, BufferError>)
        requires
            self.wf(),
            pos_le(range.start, range.end),
        ensures
            r is Ok <==> delete_ok(self.text(), range),
            r matches Ok(s) ==> s@ == deleted_text(self.text(), range),
            r is Err ==> (if !valid_pos(self.text(), range.start) {
                r == Err::<String, BufferError>(
                    BufferError::InvalidPosition {
                        line: range.start.line,
                        column: range.start.column,
                    },
                )
            } else {
                r == Err::<String, BufferError>(
                    BufferError::InvalidPosition { line: range.end.line, column: range.end.column },
                )
            }),
    {
        match self.validate_position(range.start) {
            Ok(_) => {},
            Err(e) => {
                return Err(e);
            },
        }
        match self.validate_position(range.end) {
            Ok(_) => {},
            Err(e) => {
                return Err(e);
            },
        }
        if range.start.line == range.end.line && range.end.column >= self.lines[range.end.line].len() {
            return Err(
                BufferError::InvalidPosition { line: range.end.line, column: range.end.column },
            );
        }
        let span = self.span_chars(range);
        Ok(chars_to_string(&span))
    }

    /// Remove the text the span `range` covers and return it. On one line
    /// the end column is inclusive and must name a real character; across
    /// lines the end column is exclusive and the covered lines collapse
    /// into one merged line. A failed validation leaves the buffer
    /// untouched.
    pub fn delete(&mut self, range: Range) -> (r: Result<String, BufferError>)
        requires
            old(self).wf(),
            pos_le(range.start, range.end),
        ensures
            final(self).wf(),
            r is Ok <==> delete_ok(old(self).text(), range),
            r matches Ok(s) ==> s@ == deleted_text(old(self).text(), range) && final(self).text()
                == remaining_lines(old(self).text(), range) && final(self).path() == old(
                self,
            ).path(),
            r is Err ==> *final(self) == *old(self),
            r is Err ==> (if !valid_pos(old(self).text(), range.start) {
                r == Err::<String, BufferError>(
                    BufferError::InvalidPosition {
                        line: range.start.line,
                        column: range.start.column,
                    },
                )
            } else {
                r == Err::<String, BufferError>(
                    BufferError::InvalidPosition { line: range.end.line, column: range.end.column },
                )
            }),
    {
        match self.validate_position(range.start) {
            Ok(_) => {},
            Err(e) => {
                return Err(e);
            },
        }
        match self.validate_position(range.end) {
            Ok(_) => {},
            Err(e) => {
                return Err(e);
            },
        }
        if range.start.line == range.end.line && range.end.column >= self.lines[range.end.line].len() {
            return Err(
                BufferError::InvalidPosition { line: range.end.line, column: range.end.column },
            );
        }
        let ghost l0 = old(self).text();
        let span = self.span_chars(range);
        let deleted = chars_to_string(&span);
        let sl = range.start.line;
        let sc = range.start.column;
        let el = range.end.line;
        let ec = range.end.column;
        if sl == el {
            let line_len = self.lines[sl].len();
            let mut nl: Vec<char> = Vec::new();
            push_range(&mut nl, &self.lines[sl], 0, sc);
            push_range(&mut nl, &self.lines[sl], ec + 1, line_len);
            proof {
                lemma_subrange_line_ok(l0[sl as int], 0, sc as int);
                lemma_subrange_line_ok(l0[sl as int], ec + 1, l0[sl as int].len() as int);
                lemma_concat_line_ok(
                    l0[sl as int].subrange(0, sc as int),
                    l0[sl as int].subrange(ec + 1, l0[sl as int].len() as int),
                );
            }
            self.lines.set(sl, nl);
            proof {
                assert(self.text() =~~= remaining_lines(l0, range));
                assert forall|i: int| 0 <= i < self.text().len() implies line_ok(
                    #[trigger] self.text()[i],
                ) by {
                    if i != sl as int {
                        assert(self.text()[i] == l0[i]);
                    }
                }
            }
            Ok(deleted)
        } else {
            let mut merged: Vec<char> = Vec::new();
            push_range(&mut merged, &self.lines[sl], 0, sc);
            let el_len = self.lines[el].len();
            push_range(&mut merged, &self.lines[el], ec, el_len);
            proof {
                lemma_subrange_line_ok(l0[sl as int], 0, sc as int);
                lemma_subrange_line_ok(l0[el as int], ec as int, l0[el as int].len() as int);
                lemma_concat_line_ok(
                    l0[sl as int].subrange(0, sc as int),
                    l0[el as int].subrange(ec as int, l0[el as int].len() as int),
                );
            }
            let ghost m = merged@;
            self.lines.set(sl, merged);
            proof {
                assert(views_of(self.lines) =~~= l0.take(sl as int).push(m) + l0.skip(
                    sl as int + 1,
                ));
            }
            let mut removed: usize = 0;
            while removed < el - sl
                invariant
                    sl < el < l0.len(),
                    removed <= el - sl,
                    views_of(self.lines) == l0.take(sl as int).push(m) + l0.skip(
                        sl as int + 1 + removed,
                    ),
                    self.path() == old(self).path(),
                decreases el - sl - removed,
            {
                proof {
                    assert(views_of(self.lines).len() == l0.len() - removed);
                }
                self.lines.remove(sl + 1);
                removed = removed + 1;
                proof {
                    assert(views_of(self.lines) =~~= l0.take(sl as int).push(m) + l0.skip(
                        sl as int + 1 + removed,
                    ));
                }
            }
            proof {
                assert(self.text() =~~= remaining_lines(l0, range));
                assert forall|i: int| 0 <= i < self.text().len() implies line_ok(
                    #[trigger] self.text()[i],
                ) by {
                    if i < sl as int {
                        assert(self.text()[i] == l0[i]);
                    } else if i == sl as int {
                        assert(self.text()[i] == m);
                    } else {
                        assert(self.text()[i] == l0[i + (el - sl)]);
                    }
                }
            }
            Ok(deleted)
        }
    }

    /// Insert `text` at `pos`. A break-free text splices into the target
    /// line; a text with breaks splits the target line at the column, its
    /// first segment closing the text before, its last opening the text
    /// after, and interior segments becoming whole new lines. A failed
    /// validation leaves the buffer untouched.
    pub fn insert(&mut self, pos: Position, text: &str) -> (r: Result<(), BufferError>)
        requires
            old(self).wf(),
        ensures
            final(self).wf(),
            r is Ok <==> valid_pos(old(self).text(), pos),
            r is Ok ==> final(self).text() == insert_lines(old(self).text(), pos, text@)
                && final(self).path() == old(self).path(),
            r is Err ==> *final(self) == *old(self) && r == Err::<(), BufferError>(
                BufferError::InvalidPosition { line: pos.line, column: pos.column },
            ),
    {
        match self.validate_position(pos) {
            Ok(_) => {},
            Err(e) => {
                return Err(e);
            },
        }
        let ghost l0 = old(self).text();
        let ghost segs_spec = split_lines(text@);
        proof {
            lemma_split_ok(text@);
        }
        let chars = str_to_chars(text);
        let mut segs = split_chars(&chars);
        let l = pos.line;
        let col = pos.column;
        let k = segs.len();
        if k == 1 {
            let mut seg0 = match segs.pop() {
                Some(s) => s,
                None => Vec::new(),
            };
            proof {
                assert(seg0@ == segs_spec[0]);
            }
            let line_len = self.lines[l].len();
            let mut nl: Vec<char> = Vec::new();
            push_range(&mut nl, &self.lines[l], 0, col);
            nl.append(&mut seg0);
            push_range(&mut nl, &self.lines[l], col, line_len);
            proof {
                lemma_subrange_line_ok(l0[l as int], 0, col as int);
                lemma_subrange_line_ok(l0[l as int], col as int, l0[l as int].len() as int);
                lemma_concat_line_ok(l0[l as int].subrange(0, col as int), segs_spec[0]);
                lemma_concat_line_ok(
                    l0[l as int].subrange(0, col as int) + segs_spec[0],
                    l0[l as int].subrange(col as int, l0[l as int].len() as int),
                );
            }
            self.lines.set(l, nl);
            proof {
                assert(self.text() =~~= insert_lines(l0, pos, text@));
                assert forall|i: int| 0 <= i < self.text().len() implies line_ok(
                    #[trigger] self.text()[i],
                ) by {
                    if i != l as int {
                        assert(self.text()[i] == l0[i]);
                    }
                }
            }
            Ok(())
        } else {
            let line_len = self.lines[l].len();
            let mut after: Vec<char> = Vec::new();
            push_range(&mut after, &self.lines[l], col, line_len);
            let mut first_new: Vec<char> = Vec::new();
            push_range(&mut first_new, &self.lines[l], 0, col);
            let mut seg0 = segs.remove(0);
            first_new.append(&mut seg0);
            proof {
                assert(first_new@ == l0[l as int].subrange(0, col as int) + segs_spec[0]);
                lemma_subrange_line_ok(l0[l as int], 0, col as int);
                lemma_subrange_line_ok(l0[l as int], col as int, l0[l as int].len() as int);
                lemma_concat_line_ok(l0[l as int].subrange(0, col as int), segs_spec[0]);
            }
            self.lines.set(l, first_new);
            let mut last = match segs.pop() {
                Some(s) => s,
                None => Vec::new(),
            };
            proof {
                assert(last@ == segs_spec.last());
                lemma_concat_line_ok(
                    segs_spec.last(),
                    l0[l as int].subrange(col as int, l0[l as int].len() as int),
                );
            }
            last.append(&mut after);
            // `segs` now holds the interior segments; insert them after the
            // target line, back to front so earlier ones end up first.
            let ghost b = l0[l as int].subrange(0, col as int);
            let ghost interior = segs_spec.subrange(1, k - 1);
            proof {
                assert(views_of(segs) =~~= interior);
                assert(views_of(self.lines) =~~= l0.update(l as int, b + segs_spec[0]));
            }
            proof {
                assert(interior.take(interior.len() as int) =~= interior);
                assert(interior.skip(interior.len() as int) =~= Seq::<Seq<char>>::empty());
                assert(l0.take(l as int).push(b + segs_spec[0]) + interior.skip(
                    interior.len() as int,
                ) + l0.skip(l as int + 1) =~~= l0.update(l as int, b + segs_spec[0]));
            }
            while segs.len() > 0
                invariant
                    (l as int) < l0.len(),
                    k >= 2,
                    k == segs_spec.len(),
                    interior == segs_spec.subrange(1, k - 1),
                    interior.len() == k - 2,
                    segs@.len() <= interior.len(),
                    views_of(segs) == interior.take(segs@.len() as int),
                    views_of(self.lines) == l0.take(l as int).push(b + segs_spec[0]) + interior.skip(
                        segs@.len() as int,
                    ) + l0.skip(l as int + 1),
                    self.path() == old(self).path(),
                decreases segs.len(),
            {
                let ghost segs_pre = segs;
                let ghost n = segs@.len() as int;
                let s = match segs.pop() {
                    Some(s) => s,
                    None => Vec::new(),
                };
                proof {
                    assert(s == segs_pre@[n - 1]);
                    assert(views_of(segs_pre)[n - 1] == segs_pre@[n - 1]@);
                    assert(s@ == interior[n - 1]);
                    assert(views_of(segs) =~~= interior.take(n - 1));
                    assert(views_of(self.lines).len() == l + 1 + (interior.len() - n) + (l0.len()
                        - l - 1));
                    assert(l + 1 <= self.lines.len());
                }
                self.lines.insert(l + 1, s);
                proof {
                    assert(views_of(self.lines) =~~= l0.take(l as int).push(b + segs_spec[0])
                        + interior.skip(n - 1) + l0.skip(l as int + 1));
                }
            }
            proof {
                assert(interior.skip(0) =~~= interior);
                assert((k - 1) + l <= self.lines.len()) by {
                    assert(views_of(self.lines).len() == l0.len() + k - 2);
                }
            }
            self.lines.insert((k - 1) + l, last);
            proof {
                assert(self.text() =~~= insert_lines(l0, pos, text@));
                let result = self.text();
                assert forall|i: int| 0 <= i < result.len() implies line_ok(
                    #[trigger] result[i],
                ) by {
                    if i < l as int {
                        assert(result[i] == l0[i]);
                    } else if i == l as int {
                        assert(result[i] == b + segs_spec[0]);
                    } else if i < l as int + k - 1 {
                        assert(result[i] == segs_spec[i - l]);
                    } else if i == l as int + k - 1 {
                        assert(result[i] == segs_spec.last() + l0[l as int].subrange(
                            col as int,
                            l0[l as int].len() as int,
                        ));
                    } else {
                        assert(result[i] == l0[i - (k - 1)]);
                    }
                }
            }
            Ok(())
        }
    }
}

} // verus!
