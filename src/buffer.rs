//! The text buffer: an ordered list of lines and a cursor inside them.

use vstd::prelude::*;
use crate::text::{chars_of, join_crlf, join_lines, line_ok, lines_ok, parse_lines, split_lines, string_of, view_lines};

verus! {

/// What a buffer holds, as mathematical values.
pub struct BufferView {
    pub lines: Seq<Seq<char>>,
    pub row: nat,
    pub col: nat,
    pub path: Seq<char>,
}

impl BufferView {
    /// Lines hold no line feed, and the cursor is on a line and at most one
    /// past its last character; with no lines it rests at the origin.
    pub open spec fn wf(self) -> bool {
        &&& lines_ok(self.lines)
        &&& if self.lines.len() == 0 {
            self.row == 0 && self.col == 0
        } else {
            self.row < self.lines.len() && self.col <= self.lines[self.row as int].len()
        }
    }

    /// The same buffer with the cursor moved to `(row, col)`.
    pub open spec fn at(self, row: nat, col: nat) -> BufferView {
        BufferView { lines: self.lines, row, col, path: self.path }
    }

    /// The same buffer with other lines and the cursor at `(row, col)`.
    pub open spec fn with_lines(self, lines: Seq<Seq<char>>, row: nat, col: nat) -> BufferView {
        BufferView { lines, row, col, path: self.path }
    }

    /// A buffer without lines is given one empty line before an edit.
    pub open spec fn materialized(self) -> BufferView {
        if self.lines.len() == 0 {
            self.with_lines(seq![seq![]], 0, 0)
        } else {
            self
        }
    }

    /// Left: one character back, or to the end of the line above.
    pub open spec fn moved_left(self) -> BufferView {
        if self.col > 0 {
            self.at(self.row, (self.col - 1) as nat)
        } else if self.row > 0 {
            self.at((self.row - 1) as nat, self.lines[self.row - 1].len())
        } else {
            self
        }
    }

    /// Right: one character on, or to the start of the line below; it stays
    /// put at the end of the last line.
    pub open spec fn moved_right(self) -> BufferView {
        if self.lines.len() == 0 {
            self
        } else if self.col < self.lines[self.row as int].len() {
            self.at(self.row, self.col + 1)
        } else if self.row + 1 < self.lines.len() {
            self.at(self.row + 1, 0)
        } else {
            self
        }
    }

    /// Up one line, the column clamped to that line's length.
    pub open spec fn moved_up(self) -> BufferView {
        if self.row > 0 {
            let len = self.lines[self.row - 1].len();
            self.at((self.row - 1) as nat, if self.col <= len { self.col } else { len })
        } else {
            self
        }
    }

    /// Down one line, the column clamped to that line's length.
    pub open spec fn moved_down(self) -> BufferView {
        if self.row + 1 < self.lines.len() {
            let len = self.lines[self.row + 1 as int].len();
            self.at(self.row + 1, if self.col <= len { self.col } else { len })
        } else {
            self
        }
    }

    /// `c` inserted at the cursor, which then moves right.
    pub open spec fn inserted(self, c: char) -> BufferView {
        let m = self.materialized();
        let line = m.lines[m.row as int];
        m.with_lines(m.lines.update(m.row as int, line.insert(m.col as int, c)), m.row, m.col).moved_right()
    }

    /// Backspace: the character before the cursor is deleted; at the start of
    /// a line the rest of it joins the line above; at the origin nothing
    /// happens. The cursor then moves left.
    pub open spec fn removed(self) -> BufferView {
        if self.lines.len() == 0 {
            self
        } else if self.col > 0 {
            let line = self.lines[self.row as int];
            self.with_lines(
                self.lines.update(self.row as int, line.remove(self.col - 1)),
                self.row,
                self.col,
            ).moved_left()
        } else if self.row > 0 {
            let line = self.lines[self.row as int];
            let above = self.lines[self.row - 1];
            let merged = above + line.subrange(self.col as int, line.len() as int);
            self.with_lines(
                self.lines.update(self.row - 1, merged).remove(self.row as int),
                self.row,
                self.col,
            ).moved_left()
        } else {
            self
        }
    }

    /// Enter: the line is split at the cursor, and the cursor goes to the
    /// start of the new line below.
    pub open spec fn split(self) -> BufferView {
        let m = self.materialized();
        let line = m.lines[m.row as int];
        let head = line.subrange(0, m.col as int);
        let tail = line.subrange(m.col as int, line.len() as int);
        m.with_lines(m.lines.update(m.row as int, head).insert(m.row + 1 as int, tail), m.row + 1, 0)
    }
}

impl BufferView {
    /// The buffer after typing each character of `cs` in turn.
    pub open spec fn inserted_all(self, cs: Seq<char>) -> BufferView
        decreases cs.len(),
    {
        if cs.len() == 0 {
            self
        } else {
            self.inserted_all(cs.drop_last()).inserted(cs.last())
        }
    }

    /// The buffer after `k` moves right.
    pub open spec fn moved_right_times(self, k: nat) -> BufferView
        decreases k,
    {
        if k == 0 {
            self
        } else {
            self.moved_right_times((k - 1) as nat).moved_right()
        }
    }

    /// The cursor sits after the last character of the last line.
    pub open spec fn at_end(self) -> bool {
        self.lines.len() > 0 && self.row == self.lines.len() - 1 && self.col
            == self.lines[self.row as int].len()
    }

    /// How many cursor positions precede the cursor, counting one position
    /// per character and one per line end.
    pub open spec fn offset(self) -> nat {
        line_start(self.lines, self.row) + self.col
    }

    /// The offset of the end of the last line.
    pub open spec fn span(self) -> nat {
        line_start(self.lines, (self.lines.len() - 1) as nat) + self.lines.last().len()
    }
}

/// The number of cursor positions on the lines before `row`.
pub open spec fn line_start(lines: Seq<Seq<char>>, row: nat) -> nat
    decreases row,
{
    if row == 0 {
        0
    } else {
        line_start(lines, (row - 1) as nat) + lines[row - 1].len() + 1
    }
}

/// Later lines start at later offsets.
proof fn lemma_line_start_monotonic(lines: Seq<Seq<char>>, a: nat, b: nat)
    requires
        a <= b,
    ensures
        line_start(lines, a) <= line_start(lines, b),
    decreases b - a,
{
    if a < b {
        lemma_line_start_monotonic(lines, a, (b - 1) as nat);
    }
}

/// In a well-formed buffer with lines, the offset is at most the span, and
/// equals it exactly at the end.
proof fn lemma_offset_bounded(v: BufferView)
    requires
        v.wf(),
        v.lines.len() > 0,
    ensures
        v.offset() <= v.span(),
        v.offset() == v.span() <==> v.at_end(),
{
    let last = (v.lines.len() - 1) as nat;
    if v.row < last {
        lemma_line_start_monotonic(v.lines, v.row + 1, last);
        assert(line_start(v.lines, v.row + 1) == line_start(v.lines, v.row) + v.lines[v.row as int].len() + 1);
    }
}

/// Moving right from anywhere but the end advances the offset by one; at
/// the end it changes nothing.
proof fn lemma_move_right_step(v: BufferView)
    requires
        v.wf(),
        v.lines.len() > 0,
    ensures
        v.moved_right().wf(),
        v.at_end() ==> v.moved_right() == v,
        !v.at_end() ==> v.moved_right().offset() == v.offset() + 1,
        v.moved_right().lines == v.lines,
{
    if v.col >= v.lines[v.row as int].len() && v.row + 1 < v.lines.len() {
        assert(line_start(v.lines, v.row + 1) == line_start(v.lines, v.row) + v.lines[v.row as int].len() + 1);
    }
}

/// Typing characters into a buffer of one line puts them at the cursor, in
/// order: the line grows by exactly their number and the cursor column by
/// the same amount.
pub proof fn lemma_typing_extends_line(v: BufferView, cs: Seq<char>)
    requires
        v.wf(),
        v.lines.len() == 1,
        line_ok(cs),
    ensures
        v.inserted_all(cs).wf(),
        v.inserted_all(cs).lines.len() == 1,
        v.inserted_all(cs).lines[0] == v.lines[0].subrange(0, v.col as int) + cs
            + v.lines[0].subrange(v.col as int, v.lines[0].len() as int),
        v.inserted_all(cs).lines[0].len() == v.lines[0].len() + cs.len(),
        v.inserted_all(cs).row == 0,
        v.inserted_all(cs).col == v.col + cs.len(),
        v.inserted_all(cs).path == v.path,
    decreases cs.len(),
{
    let l = v.lines[0];
    let head = l.subrange(0, v.col as int);
    let tail = l.subrange(v.col as int, l.len() as int);
    if cs.len() == 0 {
        assert(head + cs + tail =~= l);
    } else {
        let init = cs.drop_last();
        let c = cs.last();
        assert forall|i: int| 0 <= i < init.len() implies init[i] != '\n' by {
            assert(init[i] == cs[i]);
        }
        lemma_typing_extends_line(v, init);
        let w = v.inserted_all(init);
        let nl = w.lines[0].insert(w.col as int, c);
        assert(nl =~= head + cs + tail);
        assert(w.lines.update(0, nl) =~= seq![nl]);
        assert(line_ok(nl)) by {
            assert(line_ok(l));
            assert forall|i: int| 0 <= i < nl.len() implies nl[i] != '\n' by {
                if i < head.len() {
                    assert(nl[i] == l[i]);
                } else if i < head.len() + cs.len() {
                    assert(nl[i] == cs[i - head.len()]);
                } else {
                    assert(nl[i] == l[i - cs.len()]);
                }
            }
        }
    }
}

/// Enter followed by backspace gives the lines back as they were, with the
/// cursor on its row at the end of the line; the cursor is restored as well
/// when it stood at that end to begin with.
pub proof fn lemma_split_then_remove(v: BufferView)
    requires
        v.wf(),
        v.lines.len() > 0,
    ensures
        v.split().removed().lines == v.lines,
        v.split().removed().row == v.row,
        v.split().removed().col == v.lines[v.row as int].len(),
        v.split().removed().path == v.path,
        v.col == v.lines[v.row as int].len() ==> v.split().removed() == v,
{
    let s = v.split();
    let l = v.lines[v.row as int];
    let head = l.subrange(0, v.col as int);
    let tail = l.subrange(v.col as int, l.len() as int);
    assert(s.lines[v.row + 1 as int] == tail);
    assert(s.lines[v.row as int] == head);
    assert(tail.subrange(0, tail.len() as int) =~= tail);
    assert(head + tail =~= l);
    assert(s.lines.update(v.row as int, l).remove(v.row + 1 as int) =~= v.lines);
}

/// Moving right again and again from the origin keeps the cursor inside
/// the buffer, and once enough moves are made it rests after the last
/// character of the last line.
pub proof fn lemma_move_right_saturates(v: BufferView, k: nat)
    requires
        v.wf(),
        v.lines.len() > 0,
        v.row == 0,
        v.col == 0,
    ensures
        v.moved_right_times(k).wf(),
        v.moved_right_times(k).lines == v.lines,
        v.moved_right_times(k).row < v.lines.len(),
        v.moved_right_times(k).offset() == if k <= v.span() { k } else { v.span() },
        k >= v.span() ==> v.moved_right_times(k).at_end(),
    decreases k,
{
    if k > 0 {
        lemma_move_right_saturates(v, (k - 1) as nat);
        let w = v.moved_right_times((k - 1) as nat);
        lemma_move_right_step(w);
        lemma_offset_bounded(w);
    }
    let r = v.moved_right_times(k);
    lemma_offset_bounded(r);
}

/// An editable text: its lines, a cursor, and the path it is saved to.
pub struct Buffer {
    lines: Vec<Vec<char>>,
    cursor_x: usize,
    cursor_y: usize,
    file_name: String,
}

impl View for Buffer {
    type V = BufferView;

    closed spec fn view(&self) -> BufferView {
        BufferView {
            lines: view_lines(self.lines@),
            row: self.cursor_y as nat,
            col: self.cursor_x as nat,
            path: self.file_name@,
        }
    }
}

impl Buffer {
    /// A buffer holding the lines of `file_content`, saved to `file_name`,
    /// with the cursor at the origin.
    pub fn new_from_file(file_content: String, file_name: String) -> (r: Buffer)
        ensures
            r@ == (BufferView { lines: parse_lines(file_content@), row: 0, col: 0, path: file_name@ }),
            r@.wf(),
    {
        let text = chars_of(file_content.as_str());
        let lines = split_lines(&text);
        proof {
            crate::text::lemma_parse_lines_ok(text@);
        }
        Buffer { lines, cursor_x: 0, cursor_y: 0, file_name }
    }

    /// A buffer with no lines, the cursor at the origin and an empty path.
    pub fn new_empty() -> (r: Buffer)
        ensures
            r@ == (BufferView { lines: seq![], row: 0, col: 0, path: seq![] }),
            r@.wf(),
    {
        let r = Buffer { lines: Vec::new(), cursor_x: 0, cursor_y: 0, file_name: String::new() };
        assert(view_lines(r.lines@) =~= seq![]);
        r
    }

    /// Gives a buffer without lines its one empty line.
    fn materialize(&mut self)
        requires
            old(self)@.wf(),
        ensures
            final(self)@ == old(self)@.materialized(),
            final(self)@.wf(),
            final(self)@.lines.len() > 0,
    {
        if self.lines.len() == 0 {
            self.lines.push(Vec::new());
            assert(view_lines(self.lines@) =~= seq![seq![]]);
        }
    }

    /// Inserts `c` at the cursor and moves the cursor right.
    pub fn insert_char(&mut self, c: char)
        requires
            old(self)@.wf(),
            c != '\n',
        ensures
            final(self)@ == old(self)@.inserted(c),
            final(self)@.wf(),
    {
        self.materialize();
        let ghost m = self@;
        let row = self.cursor_y;
        self.lines[row].insert(self.cursor_x, c);
        proof {
            let nl = m.lines[row as int].insert(m.col as int, c);
            assert(view_lines(self.lines@) =~= m.lines.update(row as int, nl));
            assert forall|i: int| 0 <= i < nl.len() implies nl[i] != '\n' by {
                assert(line_ok(m.lines[row as int]));
            }
            assert(lines_ok(view_lines(self.lines@)));
        }
        self.move_right();
    }

    /// Backspace: deletes the character before the cursor, or joins the
    /// line to the one above when the cursor is at its start.
    pub fn remove_char(&mut self)
        requires
            old(self)@.wf(),
        ensures
            final(self)@ == old(self)@.removed(),
            final(self)@.wf(),
    {
        if self.lines.len() == 0 {
            return;
        }
        let ghost v = self@;
        let row = self.cursor_y;
        if self.cursor_x > 0 {
            self.lines[row].remove(self.cursor_x - 1);
            proof {
                let nl = v.lines[row as int].remove(v.col - 1);
                assert(view_lines(self.lines@) =~= v.lines.update(row as int, nl));
                assert forall|i: int| 0 <= i < nl.len() implies nl[i] != '\n' by {
                    assert(line_ok(v.lines[row as int]));
                    assert(i < v.col - 1 ==> nl[i] == v.lines[row as int][i]);
                    assert(i >= v.col - 1 ==> nl[i] == v.lines[row as int][i + 1]);
                }
                assert(lines_ok(view_lines(self.lines@)));
            }
            self.cursor_x = self.cursor_x - 1;
        } else if row > 0 {
            let ghost pre = self.lines@;
            let line = self.lines.remove(row);
            let n = line.len();
            let mut j: usize = self.cursor_x;
            let ghost start = self.lines@;
            while j < n
                invariant
                    n == line.len(),
                    0 < row,
                    row - 1 < start.len(),
                    self.cursor_x == v.col,
                    self.cursor_y == row,
                    self.file_name@ == v.path,
                    self.cursor_x <= j <= n,
                    self.lines@.len() == start.len(),
                    forall|k: int| 0 <= k < start.len() && k != row - 1 ==> self.lines@[k] == start[k],
                    self.lines@[row - 1]@ == start[row - 1]@ + line@.subrange(
                        self.cursor_x as int,
                        j as int,
                    ),
                decreases n - j,
            {
                self.lines[row - 1].push(line[j]);
                j += 1;
                assert(line@.subrange(self.cursor_x as int, j as int) =~= line@.subrange(
                    self.cursor_x as int,
                    j - 1,
                ).push(line@[j - 1]));
            }
            proof {
                let ln = v.lines[row as int];
                let merged = v.lines[row - 1] + ln.subrange(v.col as int, ln.len() as int);
                assert(start[row - 1] == pre[row - 1]);
                assert(pre[row - 1]@ == v.lines[row - 1]);
                assert(line@ == ln);
                assert(self.lines@[row - 1]@ =~= merged);
                assert forall|k: int| 0 <= k < start.len() && k != row - 1 implies
                    #[trigger] view_lines(self.lines@)[k] == v.lines.update(row - 1, merged).remove(row as int)[k] by {
                    if k < row {
                        assert(start[k] == pre[k]);
                    } else {
                        assert(start[k] == pre[k + 1]);
                    }
                }
                assert(view_lines(self.lines@) =~= v.lines.update(row - 1, merged).remove(row as int));
                assert forall|i: int| 0 <= i < merged.len() implies merged[i] != '\n' by {
                    assert(line_ok(v.lines[row - 1]));
                    assert(line_ok(ln));
                    assert(i >= v.lines[row - 1].len() ==> merged[i] == ln[i - v.lines[row - 1].len() + v.col]);
                }
                let nls = view_lines(self.lines@);
                assert forall|i: int| 0 <= i < nls.len() implies line_ok(#[trigger] nls[i]) by {
                    if i < row - 1 {
                        assert(nls[i] == v.lines[i]);
                    } else if i > row - 1 {
                        assert(nls[i] == v.lines[i + 1]);
                    }
                }
            }
            self.cursor_y = row - 1;
            self.cursor_x = self.lines[row - 1].len();
        }
    }

    /// Enter: splits the line at the cursor; the cursor goes to the start of
    /// the new line.
    pub fn new_line(&mut self)
        requires
            old(self)@.wf(),
        ensures
            final(self)@ == old(self)@.split(),
            final(self)@.wf(),
    {
        self.materialize();
        let ghost m = self@;
        let row = self.cursor_y;
        assert(row < self.lines.len());
        let tail = self.lines[row].split_off(self.cursor_x);
        self.lines.insert(row + 1, tail);
        self.cursor_x = 0;
        self.cursor_y = row + 1;
        proof {
            let ln = m.lines[row as int];
            let head = ln.subrange(0, m.col as int);
            let rest = ln.subrange(m.col as int, ln.len() as int);
            assert(view_lines(self.lines@) =~= m.lines.update(row as int, head).insert(row + 1, rest));
            assert(line_ok(ln));
            assert(line_ok(head));
            assert(line_ok(rest));
            let nls = view_lines(self.lines@);
            assert forall|i: int| 0 <= i < nls.len() implies line_ok(#[trigger] nls[i]) by {
                if i < row {
                    assert(nls[i] == m.lines[i]);
                } else if i > row + 1 {
                    assert(nls[i] == m.lines[i - 1]);
                }
            }
        }
    }

    /// Moves the cursor one character left, wrapping to the end of the line
    /// above.
    pub fn move_left(&mut self)
        requires
            old(self)@.wf(),
        ensures
            final(self)@ == old(self)@.moved_left(),
            final(self)@.wf(),
    {
        if self.cursor_x > 0 {
            self.cursor_x -= 1;
        } else if self.cursor_y > 0 {
            self.cursor_y -= 1;
            self.cursor_x = self.lines[self.cursor_y].len();
        }
    }

    /// Moves the cursor one character right, wrapping to the start of the
    /// line below; at the end of the last line it stays.
    pub fn move_right(&mut self)
        requires
            old(self)@.wf(),
        ensures
            final(self)@ == old(self)@.moved_right(),
            final(self)@.wf(),
    {
        if self.lines.len() == 0 {
            return;
        }
        let line_len = self.lines[self.cursor_y].len();
        if self.cursor_x < line_len {
            self.cursor_x += 1;
        } else if self.cursor_y + 1 < self.lines.len() {
            self.cursor_y += 1;
            self.cursor_x = 0;
        }
    }

    /// Moves the cursor up a line, never past that line's end.
    pub fn move_up(&mut self)
        requires
            old(self)@.wf(),
        ensures
            final(self)@ == old(self)@.moved_up(),
            final(self)@.wf(),
    {
        if self.cursor_y > 0 {
            self.cursor_y -= 1;
            let line_len = self.lines[self.cursor_y].len();
            if line_len < self.cursor_x {
                self.cursor_x = line_len;
            }
        }
    }

    /// Moves the cursor down a line, never past that line's end.
    pub fn move_down(&mut self)
        requires
            old(self)@.wf(),
        ensures
            final(self)@ == old(self)@.moved_down(),
            final(self)@.wf(),
    {
        if self.lines.len() > 0 && self.cursor_y < self.lines.len() - 1 {
            self.cursor_y += 1;
            let line_len = self.lines[self.cursor_y].len();
            if line_len < self.cursor_x {
                self.cursor_x = line_len;
            }
        }
    }

    /// The text that saving writes: the lines joined by CR LF, with no
    /// terminator after the last.
    pub fn contents(&self) -> (r: String)
        ensures
            r@ == join_crlf(self@.lines),
    {
        let text = join_lines(&self.lines);
        string_of(&text)
    }

    /// The path the buffer is saved to.
    pub fn file_name(&self) -> (r: &String)
        ensures
            r@ == self@.path,
    {
        &self.file_name
    }

    /// The number of lines.
    pub fn line_count(&self) -> (r: usize)
        ensures
            r == self@.lines.len(),
    {
        self.lines.len()
    }

    /// The line at index `i`.
    pub fn line(&self, i: usize) -> (r: String)
        requires
            i < self@.lines.len(),
        ensures
            r@ == self@.lines[i as int],
    {
        string_of(&self.lines[i])
    }

    /// The cursor as (column, row).
    pub fn cursor(&self) -> (r: (usize, usize))
        ensures
            r.0 == self@.col,
            r.1 == self@.row,
    {
        (self.cursor_x, self.cursor_y)
    }
}

} // verus!
