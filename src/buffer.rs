use vstd::prelude::*;
use crate::text::{chars_of, is_whitespace, is_ws, split_chars, split_on, string_of, sub_vec};

verus! {

/// A position in a buffer: a line index and a column counted in characters.
#[derive(Clone, Copy, Debug, PartialEq, Eq, Structural)]
pub struct Cursor {
    pub line: usize,
    pub col: usize,
}

impl Cursor {
    pub fn new() -> (r: Cursor)
        ensures
            r.line == 0 && r.col == 0,
    {
        Cursor { line: 0, col: 0 }
    }
}

/// Lines of text with a cursor and a window of visible lines.
#[derive(Clone, Debug)]
pub struct TextBuffer {
    pub lines: Vec<String>,
    pub cursor: Cursor,
    /// Index of the first visible line.
    pub viewport_top: usize,
    /// How many lines are visible at once.
    pub viewport_lines: usize,
    pub modified: bool,
}

/// The first visible line after scrolling just enough to show `line`.
pub open spec fn follow(top: int, rows: int, line: int) -> int {
    if line < top {
        line
    } else if line >= top + rows {
        line - rows + 1
    } else {
        top
    }
}

/// Scrolling to follow the same line a second time changes nothing.
pub proof fn lemma_follow_idempotent(top: int, rows: int, line: int)
    requires
        rows > 0,
    ensures
        follow(follow(top, rows, line), rows, line) == follow(top, rows, line),
{
}

/// `n` clamped to at most `max`.
pub open spec fn clamp(n: int, max: int) -> int {
    if n > max {
        max
    } else {
        n
    }
}

/// `s` without one trailing carriage return.
pub open spec fn strip_cr(s: Seq<char>) -> Seq<char> {
    if s.len() > 0 && s.last() == '\r' {
        s.drop_last()
    } else {
        s
    }
}

/// The lines of `s` as `str::lines` yields them: split at each `'\n'`, a `'\r'` just before
/// it dropped, and no empty line after a final `'\n'`.
pub open spec fn text_lines(s: Seq<char>) -> Seq<Seq<char>> {
    let p = split_on(s, '\n');
    let body = p.drop_last().map_values(|x: Seq<char>| strip_cr(x));
    if p.last().len() == 0 {
        body
    } else {
        body.push(p.last())
    }
}

/// The lines a buffer holds for `s`: the parts between line feeds, every other character
/// kept, with no empty line after a final line feed; one empty line for empty text.
pub open spec fn buffer_lines(s: Seq<char>) -> Seq<Seq<char>> {
    let p = split_on(s, '\n');
    if p.len() > 1 && p.last().len() == 0 {
        p.drop_last()
    } else {
        p
    }
}

/// The lines joined with `'\n'` between them.
pub open spec fn join_lines(lines: Seq<Seq<char>>) -> Seq<char>
    decreases lines.len(),
{
    if lines.len() == 0 {
        Seq::empty()
    } else if lines.len() == 1 {
        lines[0]
    } else {
        join_lines(lines.drop_last()) + seq!['\n'] + lines.last()
    }
}

/// Number of maximal runs of non-whitespace characters in `s`.
pub open spec fn words(s: Seq<char>) -> nat
    decreases s.len(),
{
    if s.len() == 0 {
        0
    } else {
        words(s.drop_last()) + if !is_ws(s.last()) && (s.len() == 1 || is_ws(s[s.len() - 2])) {
            1nat
        } else {
            0nat
        }
    }
}

/// Words over all lines.
pub open spec fn total_words(lines: Seq<Seq<char>>) -> nat
    decreases lines.len(),
{
    if lines.len() == 0 {
        0
    } else {
        total_words(lines.drop_last()) + words(lines.last())
    }
}

/// Characters over all lines.
pub open spec fn total_chars(lines: Seq<Seq<char>>) -> nat
    decreases lines.len(),
{
    if lines.len() == 0 {
        0
    } else {
        total_chars(lines.drop_last()) + lines.last().len()
    }
}

pub proof fn lemma_words_bound(s: Seq<char>)
    ensures
        words(s) <= s.len(),
    decreases s.len(),
{
    if s.len() > 0 {
        lemma_words_bound(s.drop_last());
    }
}

pub proof fn lemma_total_words_bound(lines: Seq<Seq<char>>)
    ensures
        total_words(lines) <= total_chars(lines),
    decreases lines.len(),
{
    if lines.len() > 0 {
        lemma_total_words_bound(lines.drop_last());
        lemma_words_bound(lines.last());
    }
}

pub proof fn lemma_total_chars_prefix(lines: Seq<Seq<char>>, i: int)
    requires
        0 <= i <= lines.len(),
    ensures
        total_chars(lines.subrange(0, i)) <= total_chars(lines),
    decreases lines.len() - i,
{
    if i < lines.len() {
        lemma_total_chars_prefix(lines, i + 1);
        assert(lines.subrange(0, i + 1).drop_last() =~= lines.subrange(0, i));
    } else {
        assert(lines.subrange(0, i) =~= lines);
    }
}

/// Number of words in `v`.
fn count_words(v: &Vec<char>) -> (r: usize)
    ensures
        r == words(v@),
{
    let mut n: usize = 0;
    let mut i: usize = 0;
    while i < v.len()
        invariant
            i <= v@.len(),
            n == words(v@.subrange(0, i as int)),
            n <= i,
        decreases v@.len() - i,
    {
        let ghost pre = v@.subrange(0, i as int);
        assert(v@.subrange(0, i + 1).drop_last() =~= pre);
        if !is_whitespace(v[i]) && (i == 0 || is_whitespace(v[i - 1])) {
            n = n + 1;
        }
        i = i + 1;
    }
    assert(v@.subrange(0, i as int) =~= v@);
    n
}

proof fn lemma_join_split(s: Seq<char>)
    ensures
        join_lines(split_on(s, '\n')) == s,
    decreases s.len(),
{
    if s.len() > 0 {
        let t = s.drop_last();
        let c = s.last();
        let r = split_on(t, '\n');
        lemma_join_split(t);
        crate::text::lemma_split_on_nonempty(t, '\n');
        let r2 = split_on(s, '\n');
        if c == '\n' {
            assert(r2.drop_last() =~= r);
            assert(join_lines(r2) =~= s);
        } else if r.len() == 1 {
            assert(join_lines(r2) =~= s);
        } else {
            assert(r2.drop_last() =~= r.drop_last());
            assert(r2.last() == r.last().push(c));
            assert(join_lines(r) == join_lines(r.drop_last()) + seq!['\n'] + r.last());
            assert(s =~= t.push(c));
            assert(join_lines(r2) =~= s);
        }
    }
}

proof fn lemma_split_last(s: Seq<char>)
    ensures
        split_on(s, '\n').len() >= 1,
        split_on(s, '\n').last().len() > 0 ==> s.len() > 0 && split_on(s, '\n').last().last()
            == s.last(),
    decreases s.len(),
{
    crate::text::lemma_split_on_nonempty(s, '\n');
    if s.len() > 0 {
        lemma_split_last(s.drop_last());
    }
}

/// Text that does not end in a line feed comes back unchanged from a buffer built from it.
pub proof fn lemma_text_round_trip(s: Seq<char>)
    requires
        s.len() == 0 || s.last() != '\n',
    ensures
        join_lines(buffer_lines(s)) == s,
{
    lemma_split_last(s);
    lemma_join_split(s);
}

/// The lines of `text`, split at line feeds as `str::lines` does.
pub fn lines_of(text: &str) -> (r: Vec<String>)
    ensures
        r@.map_values(|s: String| s@) == text_lines(text@),
{
    let v = chars_of(text);
    let parts = split_chars(&v, '\n');
    let ghost p = split_on(v@, '\n');
    proof {
        crate::text::lemma_split_on_nonempty(v@, '\n');
    }
    let last = parts.len() - 1;
    let mut lines: Vec<String> = Vec::new();
    let mut i: usize = 0;
    while i < last
        invariant
            last + 1 == parts@.len() == p.len(),
            p == split_on(text@, '\n'),
            forall|k: int| 0 <= k < parts@.len() ==> #[trigger] parts@[k]@ == p[k],
            i <= last,
            lines@.map_values(|s: String| s@) == p.drop_last().subrange(0, i as int).map_values(
                |x: Seq<char>| strip_cr(x),
            ),
        decreases last - i,
    {
        let part = &parts[i];
        let n = part.len();
        let line = if n > 0 && part[n - 1] == '\r' {
            sub_vec(part, 0, n - 1)
        } else {
            sub_vec(part, 0, n)
        };
        assert(part@.subrange(0, n as int) =~= part@);
        assert(part@.subrange(0, n - 1) =~= part@.drop_last());
        assert(part@ == p[i as int]);
        assert(line@ == strip_cr(p.drop_last()[i as int]));
        let ghost before = lines@.map_values(|s: String| s@);
        lines.push(string_of(&line));
        assert(lines@.map_values(|s: String| s@) =~= before.push(line@));
        i = i + 1;
        assert(lines@.map_values(|s: String| s@) =~= p.drop_last().subrange(0, i as int).map_values(
            |x: Seq<char>| strip_cr(x),
        ));
    }
    assert(p.drop_last().subrange(0, i as int) =~= p.drop_last());
    if parts[last].len() > 0 {
        let ghost before = lines@.map_values(|s: String| s@);
        lines.push(string_of(&parts[last]));
        assert(lines@.map_values(|s: String| s@) =~= before.push(p.last()));
    }
    lines
}

impl TextBuffer {
    /// The text of each line.
    pub open spec fn text(&self) -> Seq<Seq<char>> {
        self.lines@.map_values(|s: String| s@)
    }

    /// There is at least one line, and the cursor is on a line and within it.
    pub open spec fn wf(&self) -> bool {
        &&& self.lines@.len() >= 1
        &&& self.cursor.line < self.lines@.len()
        &&& self.cursor.col <= self.text()[self.cursor.line as int].len()
    }

    /// The text of the cursor's line.
    pub open spec fn current(&self) -> Seq<char> {
        self.text()[self.cursor.line as int]
    }

    /// An empty buffer: one empty line, cursor at its start, thirteen visible lines.
    pub fn new() -> (r: TextBuffer)
        ensures
            r.text() == seq![Seq::<char>::empty()],
            r.cursor == (Cursor { line: 0, col: 0 }),
            r.viewport_top == 0,
            r.viewport_lines == 13,
            !r.modified,
            r.wf(),
    {
        let mut lines: Vec<String> = Vec::new();
        lines.push(String::new());
        let r = TextBuffer {
            lines,
            cursor: Cursor::new(),
            viewport_top: 0,
            viewport_lines: 13,
            modified: false,
        };
        assert(r.text() =~= seq![Seq::<char>::empty()]);
        r
    }

    fn line_chars(&self, i: usize) -> (r: Vec<char>)
        requires
            i < self.lines@.len(),
        ensures
            r@ == self.text()[i as int],
    {
        chars_of(self.lines[i].as_str())
    }

    fn set_line(&mut self, i: usize, v: &Vec<char>)
        requires
            i < old(self).lines@.len(),
        ensures
            final(self).text() == old(self).text().update(i as int, v@),
            final(self).lines@.len() == old(self).lines@.len(),
            final(self).cursor == old(self).cursor,
            final(self).viewport_top == old(self).viewport_top,
            final(self).viewport_lines == old(self).viewport_lines,
            final(self).modified == old(self).modified,
    {
        let s = string_of(v);
        self.lines.set(i, s);
        assert(self.text() =~= old(self).text().update(i as int, v@));
    }

    /// Scrolls just enough that the cursor's line is visible.
    pub fn ensure_cursor_visible(&mut self)
        requires
            old(self).cursor.line < old(self).lines@.len(),
        ensures
            final(self).viewport_top == follow(
                old(self).viewport_top as int,
                old(self).viewport_lines as int,
                old(self).cursor.line as int,
            ),
            final(self).viewport_lines > 0 ==> final(self).viewport_top <= final(self).cursor.line
                < final(self).viewport_top + final(self).viewport_lines,
            final(self).lines == old(self).lines,
            final(self).cursor == old(self).cursor,
            final(self).viewport_lines == old(self).viewport_lines,
            final(self).modified == old(self).modified,
    {
        // The cursor's line is below the line count, so one past it still fits a `usize`.
        let line_count = self.lines.len();
        assert(self.cursor.line < line_count);
        if self.cursor.line < self.viewport_top {
            self.viewport_top = self.cursor.line;
        } else if self.cursor.line - self.viewport_top >= self.viewport_lines {
            self.viewport_top = self.cursor.line - self.viewport_lines + 1;
        }
    }

    /// Inserts `ch` at the cursor and moves the cursor past it.
    pub fn insert_char(&mut self, ch: char)
        requires
            old(self).wf(),
            old(self).current().len() < usize::MAX,
        ensures
            final(self).wf(),
            final(self).text() == old(self).text().update(
                old(self).cursor.line as int,
                old(self).current().insert(old(self).cursor.col as int, ch),
            ),
            final(self).cursor.line == old(self).cursor.line,
            final(self).cursor.col == old(self).cursor.col + 1,
            final(self).modified,
            final(self).viewport_top == old(self).viewport_top,
            final(self).viewport_lines == old(self).viewport_lines,
    {
        let l = self.cursor.line;
        let mut v = self.line_chars(l);
        v.insert(self.cursor.col, ch);
        self.set_line(l, &v);
        self.cursor.col = self.cursor.col + 1;
        self.modified = true;
    }

    /// Deletes the character before the cursor; at the start of a line, joins the line onto
    /// the one above. Nothing changes at the start of the buffer.
    pub fn delete_back(&mut self)
        requires
            old(self).wf(),
        ensures
            final(self).wf(),
            ({
                let t = old(self).text();
                let l = old(self).cursor.line as int;
                let c = old(self).cursor.col as int;
                if c > 0 {
                    &&& final(self).text() == t.update(l, t[l].remove(c - 1))
                    &&& final(self).cursor == Cursor { line: l as usize, col: (c - 1) as usize }
                    &&& final(self).modified
                } else if l > 0 {
                    &&& final(self).text() == t.update(l - 1, t[l - 1] + t[l]).remove(l)
                    &&& final(self).cursor == Cursor {
                        line: (l - 1) as usize,
                        col: t[l - 1].len() as usize,
                    }
                    &&& final(self).modified
                } else {
                    &&& final(self).text() == t
                    &&& final(self).cursor == old(self).cursor
                    &&& final(self).modified == old(self).modified
                }
            }),
            final(self).viewport_top == follow(
                old(self).viewport_top as int,
                old(self).viewport_lines as int,
                final(self).cursor.line as int,
            ),
            final(self).viewport_lines == old(self).viewport_lines,
    {
        let l = self.cursor.line;
        if self.cursor.col > 0 {
            let mut v = self.line_chars(l);
            self.cursor.col = self.cursor.col - 1;
            v.remove(self.cursor.col);
            self.set_line(l, &v);
            self.modified = true;
        } else if l > 0 {
            let mut prev = self.line_chars(l - 1);
            let cur = self.line_chars(l);
            let col = prev.len();
            let ghost t = self.text();
            let mut i: usize = 0;
            while i < cur.len()
                invariant
                    i <= cur@.len(),
                    prev@ == t[l - 1] + cur@.subrange(0, i as int),
                decreases cur@.len() - i,
            {
                prev.push(cur[i]);
                i = i + 1;
                assert(prev@ =~= t[l - 1] + cur@.subrange(0, i as int));
            }
            assert(cur@.subrange(0, i as int) =~= cur@);
            self.set_line(l - 1, &prev);
            self.lines.remove(l);
            assert(self.text() =~= t.update(l - 1, t[l - 1] + t[l as int]).remove(l as int));
            self.cursor.line = l - 1;
            self.cursor.col = col;
            self.modified = true;
        }
        self.ensure_cursor_visible();
    }

    /// Deletes the character at the cursor; at the end of a line, joins the next line onto
    /// it. The cursor stays. Nothing changes at the end of the buffer.
    pub fn delete_forward(&mut self)
        requires
            old(self).wf(),
        ensures
            final(self).wf(),
            ({
                let t = old(self).text();
                let l = old(self).cursor.line as int;
                let c = old(self).cursor.col as int;
                if c < t[l].len() {
                    &&& final(self).text() == t.update(l, t[l].remove(c))
                    &&& final(self).modified
                } else if l + 1 < t.len() {
                    &&& final(self).text() == t.update(l, t[l] + t[l + 1]).remove(l + 1)
                    &&& final(self).modified
                } else {
                    &&& final(self).text() == t
                    &&& final(self).modified == old(self).modified
                }
            }),
            final(self).cursor == old(self).cursor,
            final(self).viewport_top == old(self).viewport_top,
            final(self).viewport_lines == old(self).viewport_lines,
    {
        let l = self.cursor.line;
        let mut cur = self.line_chars(l);
        if self.cursor.col < cur.len() {
            cur.remove(self.cursor.col);
            self.set_line(l, &cur);
            self.modified = true;
        } else if l < self.lines.len() - 1 {
            let next = self.line_chars(l + 1);
            let ghost t = self.text();
            let mut i: usize = 0;
            while i < next.len()
                invariant
                    i <= next@.len(),
                    cur@ == t[l as int] + next@.subrange(0, i as int),
                decreases next@.len() - i,
            {
                cur.push(next[i]);
                i = i + 1;
                assert(cur@ =~= t[l as int] + next@.subrange(0, i as int));
            }
            assert(next@.subrange(0, i as int) =~= next@);
            self.set_line(l, &cur);
            self.lines.remove(l + 1);
            assert(self.text() =~= t.update(l as int, t[l as int] + t[l + 1]).remove(l + 1));
            self.modified = true;
        }
    }

    /// Splits the cursor's line at the cursor; the cursor moves to the start of the new line.
    pub fn newline(&mut self)
        requires
            old(self).wf(),
        ensures
            final(self).wf(),
            ({
                let t = old(self).text();
                let l = old(self).cursor.line as int;
                let c = old(self).cursor.col as int;
                final(self).text() == t.update(l, t[l].subrange(0, c)).insert(
                    l + 1,
                    t[l].subrange(c, t[l].len() as int),
                )
            }),
            final(self).cursor == (Cursor { line: (old(self).cursor.line + 1) as usize, col: 0 }),
            final(self).modified,
            final(self).viewport_top == follow(
                old(self).viewport_top as int,
                old(self).viewport_lines as int,
                final(self).cursor.line as int,
            ),
            final(self).viewport_lines == old(self).viewport_lines,
    {
        let l = self.cursor.line;
        let c = self.cursor.col;
        let cur = self.line_chars(l);
        let head = crate::text::sub_vec(&cur, 0, c);
        let tail = crate::text::sub_vec(&cur, c, cur.len());
        let ghost t = self.text();
        self.set_line(l, &head);
        let n = self.lines.len();
        assert(l < n);
        self.lines.insert(l + 1, string_of(&tail));
        assert(self.text() =~= t.update(l as int, t[l as int].subrange(0, c as int)).insert(
            l + 1,
            t[l as int].subrange(c as int, t[l as int].len() as int),
        ));
        self.cursor.line = l + 1;
        self.cursor.col = 0;
        self.modified = true;
        self.ensure_cursor_visible();
    }

    /// Moves up one line, if there is one, keeping the column where the line is long enough.
    pub fn move_up(&mut self)
        requires
            old(self).wf(),
        ensures
            final(self).wf(),
            final(self).lines == old(self).lines,
            final(self).modified == old(self).modified,
            final(self).viewport_lines == old(self).viewport_lines,
            old(self).cursor.line > 0 ==> {
                let l = old(self).cursor.line - 1;
                &&& final(self).cursor.line == l
                &&& final(self).cursor.col == clamp(
                    old(self).cursor.col as int,
                    old(self).text()[l].len() as int,
                )
                &&& final(self).viewport_top == follow(
                    old(self).viewport_top as int,
                    old(self).viewport_lines as int,
                    l,
                )
            },
            old(self).cursor.line == 0 ==> final(self).cursor == old(self).cursor
                && final(self).viewport_top == old(self).viewport_top,
    {
        if self.cursor.line > 0 {
            self.cursor.line = self.cursor.line - 1;
            let len = self.line_chars(self.cursor.line).len();
            if self.cursor.col > len {
                self.cursor.col = len;
            }
            self.ensure_cursor_visible();
        }
    }

    /// Moves down one line, if there is one, keeping the column where the line is long enough.
    pub fn move_down(&mut self)
        requires
            old(self).wf(),
        ensures
            final(self).wf(),
            final(self).lines == old(self).lines,
            final(self).modified == old(self).modified,
            final(self).viewport_lines == old(self).viewport_lines,
            old(self).cursor.line + 1 < old(self).lines@.len() ==> {
                let l = old(self).cursor.line + 1;
                &&& final(self).cursor.line == l
                &&& final(self).cursor.col == clamp(
                    old(self).cursor.col as int,
                    old(self).text()[l].len() as int,
                )
                &&& final(self).viewport_top == follow(
                    old(self).viewport_top as int,
                    old(self).viewport_lines as int,
                    l,
                )
            },
            old(self).cursor.line + 1 >= old(self).lines@.len() ==> final(self).cursor == old(
                self,
            ).cursor && final(self).viewport_top == old(self).viewport_top,
    {
        if self.cursor.line < self.lines.len() - 1 {
            self.cursor.line = self.cursor.line + 1;
            let len = self.line_chars(self.cursor.line).len();
            if self.cursor.col > len {
                self.cursor.col = len;
            }
            self.ensure_cursor_visible();
        }
    }

    /// Moves back one character, to the end of the line above from the start of a line.
    pub fn move_left(&mut self)
        requires
            old(self).wf(),
        ensures
            final(self).wf(),
            final(self).lines == old(self).lines,
            final(self).modified == old(self).modified,
            final(self).viewport_lines == old(self).viewport_lines,
            ({
                let l = old(self).cursor.line as int;
                let c = old(self).cursor.col as int;
                if c > 0 {
                    &&& final(self).cursor == Cursor { line: l as usize, col: (c - 1) as usize }
                    &&& final(self).viewport_top == old(self).viewport_top
                } else if l > 0 {
                    &&& final(self).cursor == Cursor {
                        line: (l - 1) as usize,
                        col: old(self).text()[l - 1].len() as usize,
                    }
                    &&& final(self).viewport_top == follow(
                        old(self).viewport_top as int,
                        old(self).viewport_lines as int,
                        l - 1,
                    )
                } else {
                    &&& final(self).cursor == old(self).cursor
                    &&& final(self).viewport_top == old(self).viewport_top
                }
            }),
    {
        if self.cursor.col > 0 {
            self.cursor.col = self.cursor.col - 1;
        } else if self.cursor.line > 0 {
            self.cursor.line = self.cursor.line - 1;
            self.cursor.col = self.line_chars(self.cursor.line).len();
            self.ensure_cursor_visible();
        }
    }

    /// Moves forward one character, to the start of the line below from the end of a line.
    pub fn move_right(&mut self)
        requires
            old(self).wf(),
        ensures
            final(self).wf(),
            final(self).lines == old(self).lines,
            final(self).modified == old(self).modified,
            final(self).viewport_lines == old(self).viewport_lines,
            ({
                let l = old(self).cursor.line as int;
                let c = old(self).cursor.col as int;
                if c < old(self).current().len() {
                    &&& final(self).cursor == Cursor { line: l as usize, col: (c + 1) as usize }
                    &&& final(self).viewport_top == old(self).viewport_top
                } else if l + 1 < old(self).lines@.len() {
                    &&& final(self).cursor == Cursor { line: (l + 1) as usize, col: 0 }
                    &&& final(self).viewport_top == follow(
                        old(self).viewport_top as int,
                        old(self).viewport_lines as int,
                        l + 1,
                    )
                } else {
                    &&& final(self).cursor == old(self).cursor
                    &&& final(self).viewport_top == old(self).viewport_top
                }
            }),
    {
        let len = self.line_chars(self.cursor.line).len();
        if self.cursor.col < len {
            self.cursor.col = self.cursor.col + 1;
        } else if self.cursor.line < self.lines.len() - 1 {
            self.cursor.line = self.cursor.line + 1;
            self.cursor.col = 0;
            self.ensure_cursor_visible();
        }
    }

    /// Moves to the start of the line.
    pub fn move_home(&mut self)
        requires
            old(self).wf(),
        ensures
            final(self).wf(),
            final(self).cursor == (Cursor { line: old(self).cursor.line, col: 0 }),
            final(self).lines == old(self).lines,
            final(self).modified == old(self).modified,
            final(self).viewport_top == old(self).viewport_top,
            final(self).viewport_lines == old(self).viewport_lines,
    {
        self.cursor.col = 0;
    }

    /// Moves to the end of the line.
    pub fn move_end(&mut self)
        requires
            old(self).wf(),
        ensures
            final(self).wf(),
            final(self).cursor == (Cursor {
                line: old(self).cursor.line,
                col: old(self).current().len() as usize,
            }),
            final(self).lines == old(self).lines,
            final(self).modified == old(self).modified,
            final(self).viewport_top == old(self).viewport_top,
            final(self).viewport_lines == old(self).viewport_lines,
    {
        self.cursor.col = self.line_chars(self.cursor.line).len();
    }

    /// Appends `ch` to the last line and puts the cursor after it, wherever it was.
    pub fn append_char(&mut self, ch: char)
        requires
            old(self).lines@.len() >= 1,
            old(self).text().last().len() < usize::MAX,
        ensures
            final(self).wf(),
            final(self).text() == old(self).text().update(
                old(self).lines@.len() - 1,
                old(self).text().last().push(ch),
            ),
            final(self).cursor == (Cursor {
                line: (old(self).lines@.len() - 1) as usize,
                col: (old(self).text().last().len() + 1) as usize,
            }),
            final(self).modified,
            final(self).viewport_top == follow(
                old(self).viewport_top as int,
                old(self).viewport_lines as int,
                old(self).lines@.len() - 1,
            ),
            final(self).viewport_lines == old(self).viewport_lines,
    {
        let last = self.lines.len() - 1;
        let mut v = self.line_chars(last);
        v.push(ch);
        self.set_line(last, &v);
        self.cursor.line = last;
        self.cursor.col = v.len();
        self.modified = true;
        self.ensure_cursor_visible();
    }

    /// Adds an empty last line and puts the cursor on it, wherever it was.
    pub fn append_newline(&mut self)
        requires
            old(self).lines@.len() < usize::MAX,
        ensures
            final(self).wf(),
            final(self).text() == old(self).text().push(Seq::<char>::empty()),
            final(self).cursor == (Cursor { line: old(self).lines@.len() as usize, col: 0 }),
            final(self).modified,
            final(self).viewport_top == follow(
                old(self).viewport_top as int,
                old(self).viewport_lines as int,
                old(self).lines@.len() as int,
            ),
            final(self).viewport_lines == old(self).viewport_lines,
    {
        self.lines.push(String::new());
        assert(self.text() =~= old(self).text().push(Seq::<char>::empty()));
        self.cursor.line = self.lines.len() - 1;
        self.cursor.col = 0;
        self.modified = true;
        self.ensure_cursor_visible();
    }

    /// A buffer holding the lines of `text`, cursor at the start, thirteen visible lines.
    pub fn from_text(text: &str) -> (r: TextBuffer)
        ensures
            r.text() == buffer_lines(text@),
            r.cursor == (Cursor { line: 0, col: 0 }),
            r.viewport_top == 0,
            r.viewport_lines == 13,
            !r.modified,
            r.wf(),
    {
        let v = chars_of(text);
        let parts = split_chars(&v, '\n');
        let ghost p = split_on(v@, '\n');
        proof {
            crate::text::lemma_split_on_nonempty(v@, '\n');
        }
        let n = if parts.len() > 1 && parts[parts.len() - 1].len() == 0 {
            parts.len() - 1
        } else {
            parts.len()
        };
        let mut lines: Vec<String> = Vec::new();
        let mut i: usize = 0;
        while i < n
            invariant
                n <= parts@.len() == p.len(),
                p == split_on(text@, '\n'),
                buffer_lines(text@) == p.subrange(0, n as int),
                forall|k: int| 0 <= k < parts@.len() ==> #[trigger] parts@[k]@ == p[k],
                i <= n,
                lines@.map_values(|s: String| s@) == p.subrange(0, i as int),
            decreases n - i,
        {
            let ghost before = lines@.map_values(|s: String| s@);
            lines.push(string_of(&parts[i]));
            assert(lines@.map_values(|s: String| s@) =~= before.push(p[i as int]));
            i = i + 1;
            assert(p.subrange(0, i as int) =~= before.push(p[i - 1]));
        }
        TextBuffer {
            lines,
            cursor: Cursor::new(),
            viewport_top: 0,
            viewport_lines: 13,
            modified: false,
        }
    }

    /// The lines joined with a newline between each two.
    pub fn to_string(&self) -> (r: String)
        ensures
            r@ == join_lines(self.text()),
    {
        let ghost t = self.text();
        let mut acc: Vec<char> = Vec::new();
        let mut i: usize = 0;
        while i < self.lines.len()
            invariant
                t == self.text(),
                i <= t.len(),
                acc@ == join_lines(t.subrange(0, i as int)),
            decreases t.len() - i,
        {
            let line = self.line_chars(i);
            let ghost before = acc@;
            if i > 0 {
                acc.push('\n');
            }
            let mut j: usize = 0;
            while j < line.len()
                invariant
                    j <= line@.len(),
                    acc@ == (if i > 0 {
                        before + seq!['\n']
                    } else {
                        before
                    }) + line@.subrange(0, j as int),
                decreases line@.len() - j,
            {
                acc.push(line[j]);
                j = j + 1;
                assert(acc@ =~= (if i > 0 {
                    before + seq!['\n']
                } else {
                    before
                }) + line@.subrange(0, j as int));
            }
            assert(line@.subrange(0, j as int) =~= line@);
            assert(t.subrange(0, i + 1).drop_last() =~= t.subrange(0, i as int));
            if i == 0 {
                assert(acc@ =~= join_lines(t.subrange(0, 1)));
            }
            i = i + 1;
        }
        assert(t.subrange(0, i as int) =~= t);
        string_of(&acc)
    }

    /// Number of whitespace-separated words over all lines.
    pub fn word_count(&self) -> (r: usize)
        requires
            total_chars(self.text()) <= usize::MAX,
        ensures
            r == total_words(self.text()),
    {
        let ghost t = self.text();
        let mut n: usize = 0;
        let mut i: usize = 0;
        while i < self.lines.len()
            invariant
                t == self.text(),
                total_chars(t) <= usize::MAX,
                i <= t.len(),
                n == total_words(t.subrange(0, i as int)),
            decreases t.len() - i,
        {
            let w = count_words(&self.line_chars(i));
            proof {
                assert(t.subrange(0, i + 1).drop_last() =~= t.subrange(0, i as int));
                lemma_total_words_bound(t.subrange(0, i + 1));
                lemma_total_chars_prefix(t, i + 1);
            }
            n = n + w;
            i = i + 1;
        }
        assert(t.subrange(0, i as int) =~= t);
        n
    }

    /// Characters over all lines, plus one newline between each two lines.
    pub fn char_count(&self) -> (r: usize)
        requires
            total_chars(self.text()) + self.lines@.len() <= usize::MAX + 1,
        ensures
            r == total_chars(self.text()) + if self.lines@.len() > 0 {
                self.lines@.len() - 1
            } else {
                0
            },
    {
        let ghost t = self.text();
        let mut n: usize = 0;
        let mut i: usize = 0;
        while i < self.lines.len()
            invariant
                t == self.text(),
                total_chars(t) + t.len() <= usize::MAX + 1,
                i <= t.len(),
                n == total_chars(t.subrange(0, i as int)),
            decreases t.len() - i,
        {
            let len = self.line_chars(i).len();
            proof {
                assert(t.subrange(0, i + 1).drop_last() =~= t.subrange(0, i as int));
                lemma_total_chars_prefix(t, i + 1);
            }
            n = n + len;
            i = i + 1;
        }
        assert(t.subrange(0, i as int) =~= t);
        if self.lines.len() > 0 {
            n + (self.lines.len() - 1)
        } else {
            n
        }
    }

    /// How many lines the buffer holds.
    pub fn line_count(&self) -> (r: usize)
        ensures
            r == self.lines@.len(),
    {
        self.lines.len()
    }
}

} // verus!
