//! The text box editor: a sequence of individually styled characters with a
//! caret and an optional selection anchor, plus the conversion to and from
//! the style runs that a stored text annotation keeps.

use vstd::prelude::*;

use crate::document::{lemma_runs_pairs_view, run_view, runs_pairs, runs_view, Color, StyleView, TextRun, TextStyle};
use crate::strings::push_char;

verus! {

/// A single character with its own style (color, font, highlight, weight).
#[derive(Clone, Debug)]
pub struct Glyph {
    pub ch: char,
    pub style: TextStyle,
}

/// The editing state of a text box: its glyphs, the caret position (a glyph
/// index) and the selection anchor; the selection spans anchor..cursor.
pub struct TextEdit {
    pub glyphs: Vec<Glyph>,
    pub cursor: usize,
    pub anchor: Option<usize>,
}

/// Unicode `White_Space`, the property `char::is_whitespace` tests.
pub open spec fn is_ws(c: char) -> bool {
    let u = c as u32;
    ||| 0x09 <= u <= 0x0d
    ||| u == 0x20
    ||| u == 0x85
    ||| u == 0xa0
    ||| u == 0x1680
    ||| 0x2000 <= u <= 0x200a
    ||| u == 0x2028
    ||| u == 0x2029
    ||| u == 0x202f
    ||| u == 0x205f
    ||| u == 0x3000
}

/// Whether `c` has the Unicode `White_Space` property.
pub fn is_whitespace(c: char) -> (r: bool)
    ensures
        r == is_ws(c),
{
    let u = c as u32;
    (0x09 <= u && u <= 0x0d) || u == 0x20 || u == 0x85 || u == 0xa0 || u == 0x1680 || (0x2000
        <= u && u <= 0x200a) || u == 0x2028 || u == 0x2029 || u == 0x202f || u == 0x205f || u
        == 0x3000
}

/// Start of the line holding position `pos`: just after the nearest newline
/// before `pos`, or 0.
pub open spec fn line_start(g: Seq<Glyph>, pos: int) -> int
    decreases pos,
{
    if pos <= 0 {
        0
    } else if g[pos - 1].ch == '\n' {
        pos
    } else {
        line_start(g, pos - 1)
    }
}

/// End of the line holding position `pos`: the next newline at or after
/// `pos`, or the end of the text.
pub open spec fn line_end(g: Seq<Glyph>, pos: int) -> int
    decreases g.len() - pos,
{
    if pos >= g.len() {
        pos
    } else if g[pos].ch == '\n' {
        pos
    } else {
        line_end(g, pos + 1)
    }
}

/// Moves left from `pos` over whitespace.
pub open spec fn skip_ws_left(g: Seq<Glyph>, pos: int) -> int
    decreases pos,
{
    if pos <= 0 {
        pos
    } else if is_ws(g[pos - 1].ch) {
        skip_ws_left(g, pos - 1)
    } else {
        pos
    }
}

/// Moves left from `pos` over non-whitespace.
pub open spec fn skip_word_left(g: Seq<Glyph>, pos: int) -> int
    decreases pos,
{
    if pos <= 0 {
        pos
    } else if !is_ws(g[pos - 1].ch) {
        skip_word_left(g, pos - 1)
    } else {
        pos
    }
}

/// Moves right from `pos` over whitespace.
pub open spec fn skip_ws_right(g: Seq<Glyph>, pos: int) -> int
    decreases g.len() - pos,
{
    if pos >= g.len() {
        pos
    } else if is_ws(g[pos].ch) {
        skip_ws_right(g, pos + 1)
    } else {
        pos
    }
}

/// Moves right from `pos` over non-whitespace.
pub open spec fn skip_word_right(g: Seq<Glyph>, pos: int) -> int
    decreases g.len() - pos,
{
    if pos >= g.len() {
        pos
    } else if !is_ws(g[pos].ch) {
        skip_word_right(g, pos + 1)
    } else {
        pos
    }
}

/// Word boundary to the left of `pos`: skip whitespace, then the word itself.
pub open spec fn word_left(g: Seq<Glyph>, pos: int) -> int {
    skip_word_left(g, skip_ws_left(g, pos))
}

/// Word boundary to the right of `pos`: skip whitespace, then the word itself.
pub open spec fn word_right(g: Seq<Glyph>, pos: int) -> int {
    skip_word_right(g, skip_ws_right(g, pos))
}

proof fn lemma_line_start_bounds(g: Seq<Glyph>, pos: int)
    requires
        0 <= pos <= g.len(),
    ensures
        0 <= line_start(g, pos) <= pos,
    decreases pos,
{
    if pos > 0 && g[pos - 1].ch != '\n' {
        lemma_line_start_bounds(g, pos - 1);
    }
}

proof fn lemma_line_end_bounds(g: Seq<Glyph>, pos: int)
    requires
        0 <= pos <= g.len(),
    ensures
        pos <= line_end(g, pos) <= g.len(),
        line_end(g, pos) < g.len() ==> g[line_end(g, pos)].ch == '\n',
    decreases g.len() - pos,
{
    if pos < g.len() && g[pos].ch != '\n' {
        lemma_line_end_bounds(g, pos + 1);
    }
}

proof fn lemma_skip_left_bounds(g: Seq<Glyph>, pos: int)
    requires
        0 <= pos <= g.len(),
    ensures
        0 <= skip_ws_left(g, pos) <= pos,
        0 <= skip_word_left(g, pos) <= pos,
    decreases pos,
{
    if pos > 0 {
        lemma_skip_left_bounds(g, pos - 1);
    }
}

proof fn lemma_skip_right_bounds(g: Seq<Glyph>, pos: int)
    requires
        0 <= pos <= g.len(),
    ensures
        pos <= skip_ws_right(g, pos) <= g.len(),
        pos <= skip_word_right(g, pos) <= g.len(),
    decreases g.len() - pos,
{
    if pos < g.len() {
        lemma_skip_right_bounds(g, pos + 1);
    }
}

/// The glyphs with `[s, e)` cut out.
pub open spec fn cut(g: Seq<Glyph>, s: int, e: int) -> Seq<Glyph> {
    g.subrange(0, s) + g.subrange(e, g.len() as int)
}

impl TextEdit {
    /// The caret lies within the text.
    pub open spec fn wf(self) -> bool {
        self.cursor <= self.glyphs@.len()
    }

    /// The selection anchor, if any, lies within the text.
    pub open spec fn anchor_in_bounds(self) -> bool {
        self.anchor matches Some(a) ==> a <= self.glyphs@.len()
    }

    /// The selected range `(start, end)`, if the selection is non-empty.
    pub open spec fn spec_selection(self) -> Option<(usize, usize)> {
        match self.anchor {
            Some(a) => if a < self.cursor {
                Some((a, self.cursor))
            } else if self.cursor < a {
                Some((self.cursor, a))
            } else {
                None
            },
            None => None,
        }
    }

    /// This editor with the caret moved to `pos` (clamped to the text),
    /// either extending the selection (keeping or setting the anchor) or
    /// dropping it.
    pub open spec fn moved_to(self, pos: int, extend: bool) -> TextEdit {
        TextEdit {
            glyphs: self.glyphs,
            cursor: if pos < self.glyphs@.len() { pos as usize } else { self.glyphs@.len() as usize },
            anchor: if extend {
                if self.anchor is None {
                    Some(self.cursor)
                } else {
                    self.anchor
                }
            } else {
                None
            },
        }
    }

    /// An empty editor with the caret at 0 and no selection.
    pub fn new() -> (ed: TextEdit)
        ensures
            ed.glyphs@.len() == 0,
            ed.cursor == 0,
            ed.anchor == None::<usize>,
    {
        TextEdit { glyphs: Vec::new(), cursor: 0, anchor: None }
    }

    /// An editor over `glyphs` with the caret at the end and no selection.
    pub fn with_glyphs(glyphs: Vec<Glyph>) -> (ed: TextEdit)
        ensures
            ed.glyphs@ == glyphs@,
            ed.cursor == glyphs@.len(),
            ed.anchor == None::<usize>,
    {
        let cursor = glyphs.len();
        TextEdit { glyphs, cursor, anchor: None }
    }

    /// The selected glyph range, if any (non-empty).
    pub fn selection(&self) -> (r: Option<(usize, usize)>)
        ensures
            r == self.spec_selection(),
    {
        match self.anchor {
            Some(a) => if a < self.cursor {
                Some((a, self.cursor))
            } else if self.cursor < a {
                Some((self.cursor, a))
            } else {
                None
            },
            None => None,
        }
    }

    /// Removes the selected glyphs, leaving the caret where they started;
    /// returns whether there was a selection.
    pub fn delete_selection(&mut self) -> (deleted: bool)
        requires
            old(self).wf(),
            old(self).anchor_in_bounds(),
        ensures
            deleted == old(self).spec_selection() is Some,
            final(self).wf(),
            final(self).anchor_in_bounds(),
            match old(self).spec_selection() {
                Some((s, e)) => {
                    &&& final(self).glyphs@ == cut(old(self).glyphs@, s as int, e as int)
                    &&& final(self).cursor == s
                    &&& final(self).anchor == None::<usize>
                },
                None => *final(self) == *old(self),
            },
    {
        match self.selection() {
            Some((s, e)) => {
                let mut tail = self.glyphs.split_off(e);
                self.glyphs.truncate(s);
                self.glyphs.append(&mut tail);
                self.cursor = s;
                self.anchor = None;
                true
            },
            None => false,
        }
    }

    /// Types `ch` in `style`, replacing the selection if there is one.
    pub fn insert(&mut self, ch: char, style: TextStyle)
        requires
            old(self).wf(),
            old(self).anchor_in_bounds(),
        ensures
            final(self).wf(),
            final(self).anchor == None::<usize>,
            ({
                let (g, c) = match old(self).spec_selection() {
                    Some((s, e)) => (cut(old(self).glyphs@, s as int, e as int), s as int),
                    None => (old(self).glyphs@, old(self).cursor as int),
                };
                &&& final(self).glyphs@ == g.insert(c, Glyph { ch, style })
                &&& final(self).cursor == c + 1
            }),
    {
        self.delete_selection();
        self.glyphs.insert(self.cursor, Glyph { ch, style });
        let len = self.glyphs.len();
        assert(self.cursor < len);
        self.cursor = self.cursor + 1;
        self.anchor = None;
    }

    /// Deletes the selection, or else the glyph before the caret.
    pub fn backspace(&mut self)
        requires
            old(self).wf(),
            old(self).anchor_in_bounds(),
        ensures
            final(self).wf(),
            match old(self).spec_selection() {
                Some((s, e)) => {
                    &&& final(self).glyphs@ == cut(old(self).glyphs@, s as int, e as int)
                    &&& final(self).cursor == s
                    &&& final(self).anchor == None::<usize>
                },
                None => if old(self).cursor > 0 {
                    &&& final(self).glyphs@ == old(self).glyphs@.remove(old(self).cursor - 1)
                    &&& final(self).cursor == old(self).cursor - 1
                    &&& final(self).anchor == old(self).anchor
                } else {
                    *final(self) == *old(self)
                },
            },
    {
        if self.delete_selection() {
            return;
        }
        if self.cursor > 0 {
            self.glyphs.remove(self.cursor - 1);
            self.cursor = self.cursor - 1;
        }
    }

    /// Deletes the selection, or else the glyph after the caret.
    pub fn delete_forward(&mut self)
        requires
            old(self).wf(),
            old(self).anchor_in_bounds(),
        ensures
            final(self).wf(),
            final(self).anchor_in_bounds(),
            match old(self).spec_selection() {
                Some((s, e)) => {
                    &&& final(self).glyphs@ == cut(old(self).glyphs@, s as int, e as int)
                    &&& final(self).cursor == s
                    &&& final(self).anchor == None::<usize>
                },
                None => if old(self).cursor < old(self).glyphs@.len() {
                    &&& final(self).glyphs@ == old(self).glyphs@.remove(old(self).cursor as int)
                    &&& final(self).cursor == old(self).cursor
                    &&& final(self).anchor == old(self).anchor
                } else {
                    *final(self) == *old(self)
                },
            },
    {
        if self.delete_selection() {
            return;
        }
        if self.cursor < self.glyphs.len() {
            self.glyphs.remove(self.cursor);
        }
    }

    /// Moves the caret to `pos` (clamped to the text); `extend` keeps (or
    /// starts) the selection, otherwise it is dropped.
    pub fn set_cursor(&mut self, pos: usize, extend: bool)
        requires
            old(self).wf(),
        ensures
            *final(self) == old(self).moved_to(pos as int, extend),
            final(self).wf(),
    {
        if extend {
            if self.anchor.is_none() {
                self.anchor = Some(self.cursor);
            }
        } else {
            self.anchor = None;
        }
        let len = self.glyphs.len();
        self.cursor = if pos < len { pos } else { len };
    }

    /// Start of the line holding `pos`.
    pub fn line_start(&self, pos: usize) -> (r: usize)
        requires
            pos <= self.glyphs@.len(),
        ensures
            r == line_start(self.glyphs@, pos as int),
    {
        let mut i = pos;
        while i > 0 && self.glyphs[i - 1].ch != '\n'
            invariant
                i <= pos <= self.glyphs@.len(),
                line_start(self.glyphs@, i as int) == line_start(self.glyphs@, pos as int),
            decreases i,
        {
            i = i - 1;
        }
        i
    }

    /// End of the line holding `pos`.
    pub fn line_end(&self, pos: usize) -> (r: usize)
        requires
            pos <= self.glyphs@.len(),
        ensures
            r == line_end(self.glyphs@, pos as int),
    {
        let mut i = pos;
        while i < self.glyphs.len() && self.glyphs[i].ch != '\n'
            invariant
                pos <= i <= self.glyphs@.len(),
                line_end(self.glyphs@, i as int) == line_end(self.glyphs@, pos as int),
            decreases self.glyphs@.len() - i,
        {
            i = i + 1;
        }
        i
    }

    /// Caret one glyph left.
    pub fn move_left(&mut self, extend: bool)
        requires
            old(self).wf(),
        ensures
            *final(self) == old(self).moved_to(
                if old(self).cursor > 0 { old(self).cursor - 1 } else { 0 },
                extend,
            ),
            final(self).wf(),
    {
        let p = if self.cursor > 0 { self.cursor - 1 } else { 0 };
        self.set_cursor(p, extend);
    }

    /// Caret one glyph right (not past the end).
    pub fn move_right(&mut self, extend: bool)
        requires
            old(self).wf(),
        ensures
            *final(self) == old(self).moved_to(old(self).cursor + 1, extend),
            final(self).wf(),
    {
        let p = if self.cursor < self.glyphs.len() { self.cursor + 1 } else { self.glyphs.len() };
        self.set_cursor(p, extend);
    }

    /// Word boundary to the left of `pos`.
    pub fn word_left(&self, pos: usize) -> (r: usize)
        requires
            pos <= self.glyphs@.len(),
        ensures
            r == word_left(self.glyphs@, pos as int),
    {
        let mut i = pos;
        while i > 0 && is_whitespace(self.glyphs[i - 1].ch)
            invariant
                i <= pos <= self.glyphs@.len(),
                skip_ws_left(self.glyphs@, i as int) == skip_ws_left(self.glyphs@, pos as int),
            decreases i,
        {
            i = i - 1;
        }
        let mid = i;
        while i > 0 && !is_whitespace(self.glyphs[i - 1].ch)
            invariant
                i <= mid <= self.glyphs@.len(),
                mid == skip_ws_left(self.glyphs@, pos as int),
                skip_word_left(self.glyphs@, i as int) == skip_word_left(self.glyphs@, mid as int),
            decreases i,
        {
            i = i - 1;
        }
        i
    }

    /// Word boundary to the right of `pos`.
    pub fn word_right(&self, pos: usize) -> (r: usize)
        requires
            pos <= self.glyphs@.len(),
        ensures
            r == word_right(self.glyphs@, pos as int),
    {
        let mut i = pos;
        while i < self.glyphs.len() && is_whitespace(self.glyphs[i].ch)
            invariant
                pos <= i <= self.glyphs@.len(),
                skip_ws_right(self.glyphs@, i as int) == skip_ws_right(self.glyphs@, pos as int),
            decreases self.glyphs@.len() - i,
        {
            i = i + 1;
        }
        let mid = i;
        while i < self.glyphs.len() && !is_whitespace(self.glyphs[i].ch)
            invariant
                mid <= i <= self.glyphs@.len(),
                mid == skip_ws_right(self.glyphs@, pos as int),
                skip_word_right(self.glyphs@, i as int) == skip_word_right(
                    self.glyphs@,
                    mid as int,
                ),
            decreases self.glyphs@.len() - i,
        {
            i = i + 1;
        }
        i
    }

    /// Caret to the previous word boundary.
    pub fn move_word_left(&mut self, extend: bool)
        requires
            old(self).wf(),
        ensures
            *final(self) == old(self).moved_to(
                word_left(old(self).glyphs@, old(self).cursor as int),
                extend,
            ),
            final(self).wf(),
    {
        let p = self.word_left(self.cursor);
        self.set_cursor(p, extend);
    }

    /// Caret to the next word boundary.
    pub fn move_word_right(&mut self, extend: bool)
        requires
            old(self).wf(),
        ensures
            *final(self) == old(self).moved_to(
                word_right(old(self).glyphs@, old(self).cursor as int),
                extend,
            ),
            final(self).wf(),
    {
        let p = self.word_right(self.cursor);
        self.set_cursor(p, extend);
    }

    /// Caret to the start of its line.
    pub fn move_home(&mut self, extend: bool)
        requires
            old(self).wf(),
        ensures
            *final(self) == old(self).moved_to(
                line_start(old(self).glyphs@, old(self).cursor as int),
                extend,
            ),
            final(self).wf(),
    {
        let p = self.line_start(self.cursor);
        self.set_cursor(p, extend);
    }

    /// Caret to the end of its line.
    pub fn move_end(&mut self, extend: bool)
        requires
            old(self).wf(),
        ensures
            *final(self) == old(self).moved_to(
                line_end(old(self).glyphs@, old(self).cursor as int),
                extend,
            ),
            final(self).wf(),
    {
        let p = self.line_end(self.cursor);
        self.set_cursor(p, extend);
    }

    /// Where the caret lands when moved one line up (`up`) or down, keeping
    /// its column (clamped to the target line's length); `None` when there
    /// is no such line.
    pub open spec fn line_target(self, up: bool) -> Option<int> {
        let g = self.glyphs@;
        let start = line_start(g, self.cursor as int);
        let col = self.cursor - start;
        if up {
            if start == 0 {
                None
            } else {
                let prev_start = line_start(g, start - 1);
                let prev_end = start - 1;
                Some(if prev_start + col < prev_end { prev_start + col } else { prev_end })
            }
        } else {
            let end = line_end(g, self.cursor as int);
            if end >= g.len() {
                None
            } else {
                let next_start = end + 1;
                let next_end = line_end(g, next_start);
                Some(if next_start + col < next_end { next_start + col } else { next_end })
            }
        }
    }

    /// Moves the caret one line up (`dir < 0`) or down, keeping the same
    /// character column; does nothing on the first/last line.
    pub fn move_line(&mut self, dir: isize, extend: bool)
        requires
            old(self).wf(),
        ensures
            final(self).wf(),
            match old(self).line_target(dir < 0) {
                Some(p) => *final(self) == old(self).moved_to(p, extend),
                None => *final(self) == *old(self),
            },
    {
        let ghost g = self.glyphs@;
        proof {
            lemma_line_start_bounds(g, self.cursor as int);
            lemma_line_end_bounds(g, self.cursor as int);
        }
        let start = self.line_start(self.cursor);
        let col = self.cursor - start;
        if dir < 0 {
            if start == 0 {
                return;
            }
            proof {
                lemma_line_start_bounds(g, start - 1);
            }
            let prev_start = self.line_start(start - 1);
            let prev_end = start - 1;
            let target = if col < prev_end - prev_start { prev_start + col } else { prev_end };
            self.set_cursor(target, extend);
        } else {
            let end = self.line_end(self.cursor);
            if end >= self.glyphs.len() {
                return;
            }
            let next_start = end + 1;
            proof {
                lemma_line_end_bounds(g, next_start as int);
            }
            let next_end = self.line_end(next_start);
            let target = if col < next_end - next_start { next_start + col } else { next_end };
            self.set_cursor(target, extend);
        }
    }

    /// Caret one line up.
    pub fn move_up(&mut self, extend: bool)
        requires
            old(self).wf(),
        ensures
            final(self).wf(),
            match old(self).line_target(true) {
                Some(p) => *final(self) == old(self).moved_to(p, extend),
                None => *final(self) == *old(self),
            },
    {
        self.move_line(-1, extend);
    }

    /// Caret one line down.
    pub fn move_down(&mut self, extend: bool)
        requires
            old(self).wf(),
        ensures
            final(self).wf(),
            match old(self).line_target(false) {
                Some(p) => *final(self) == old(self).moved_to(p, extend),
                None => *final(self) == *old(self),
            },
    {
        self.move_line(1, extend);
    }

    /// Applies `change` to every selected glyph's style; returns whether a
    /// selection existed.
    pub fn style_selection(&mut self, change: &StyleChange) -> (r: bool)
        requires
            old(self).wf(),
            old(self).anchor_in_bounds(),
        ensures
            r == old(self).spec_selection() is Some,
            final(self).cursor == old(self).cursor,
            final(self).anchor == old(self).anchor,
            match old(self).spec_selection() {
                Some((s, e)) => restyled_range(
                    old(self).glyphs@,
                    final(self).glyphs@,
                    s as int,
                    e as int,
                    *change,
                ),
                None => final(self).glyphs == old(self).glyphs,
            },
    {
        match self.selection() {
            Some((s, e)) => {
                let mut i = s;
                while i < e
                    invariant
                        s <= i <= e <= self.glyphs@.len(),
                        self.cursor == old(self).cursor,
                        self.anchor == old(self).anchor,
                        old(self).spec_selection() == Some((s, e)),
                        restyled_range(old(self).glyphs@, self.glyphs@, s as int, i as int, *change),
                        forall|j: int| i <= j < self.glyphs@.len() ==> #[trigger] self.glyphs@[j] == old(self).glyphs@[j],
                    decreases e - i,
                {
                    let g = &mut self.glyphs[i];
                    apply_change(&mut g.style, change);
                    i = i + 1;
                }
                true
            },
            None => false,
        }
    }

    /// Merges consecutive same-style glyphs into runs for storage.
    pub fn to_runs(&self) -> (runs: Vec<TextRun>)
        ensures
            runs_view(runs@) == glyphs_view(self.glyphs@),
            maximal_runs(runs@),
    {
        let mut runs: Vec<TextRun> = Vec::new();
        let mut i: usize = 0;
        while i < self.glyphs.len()
            invariant
                i <= self.glyphs@.len(),
                runs_view(runs@) == glyphs_view(self.glyphs@.take(i as int)),
                maximal_runs(runs@),
                i == 0 ==> runs@.len() == 0,
                i > 0 ==> runs@.len() > 0 && runs@.last().style@ == self.glyphs@[i - 1].style@,
            decreases self.glyphs@.len() - i,
        {
            let g = &self.glyphs[i];
            let ghost old_runs = runs@;
            let ghost gv = (g.ch, g.style@);
            proof {
                assert(glyphs_view(self.glyphs@.take(i + 1)) =~= glyphs_view(
                    self.glyphs@.take(i as int),
                ).push(gv));
            }
            let n = runs.len();
            if n > 0 && runs[n - 1].style.same_as(&g.style) {
                let r = &mut runs[n - 1];
                push_char(&mut r.text, g.ch);
                proof {
                    let last = old_runs.last();
                    let head = old_runs.drop_last();
                    assert(old_runs =~= head.push(last));
                    assert(runs@ =~= head.push(runs@.last()));
                    head.lemma_flat_map_push(|r: TextRun| run_view(r), last);
                    head.lemma_flat_map_push(|r: TextRun| run_view(r), runs@.last());
                    assert(run_view(runs@.last()) =~= run_view(last).push(gv));
                    assert(runs_view(runs@) =~= runs_view(old_runs).push(gv));
                }
            } else {
                let mut text = String::new();
                push_char(&mut text, g.ch);
                let run = TextRun { text, style: g.style.duplicate() };
                runs.push(run);
                proof {
                    old_runs.lemma_flat_map_push(|r: TextRun| run_view(r), run);
                    assert(run_view(run) =~= seq![gv]);
                    assert(runs_view(runs@) =~= runs_view(old_runs).push(gv));
                }
            }
            i = i + 1;
        }
        proof {
            assert(self.glyphs@.take(self.glyphs@.len() as int) =~= self.glyphs@);
        }
        runs
    }

    pub fn select_all(&mut self)
        ensures
            final(self).glyphs == old(self).glyphs,
            final(self).anchor == Some(0usize),
            final(self).cursor == old(self).glyphs@.len(),
    {
        self.anchor = Some(0);
        self.cursor = self.glyphs.len();
    }

    /// Whether the text is empty or whitespace only.
    pub fn is_blank(&self) -> (r: bool)
        ensures
            r == (forall|i: int| 0 <= i < self.glyphs@.len() ==> is_ws(#[trigger] self.glyphs@[i].ch)),
    {
        let mut i: usize = 0;
        while i < self.glyphs.len()
            invariant
                i <= self.glyphs@.len(),
                forall|j: int| 0 <= j < i ==> is_ws(#[trigger] self.glyphs@[j].ch),
            decreases self.glyphs@.len() - i,
        {
            if !is_whitespace(self.glyphs[i].ch) {
                return false;
            }
            i = i + 1;
        }
        true
    }
}


/// A change of one style attribute.
pub enum StyleChange {
    Color(Color),
    Font(String),
    Bold(bool),
    Italic(bool),
    Underline(bool),
    Strikethrough(bool),
    Highlight(Option<Color>),
}

/// `style` with `change` applied.
pub open spec fn restyled(style: TextStyle, change: StyleChange) -> TextStyle {
    match change {
        StyleChange::Color(c) => TextStyle { color: c, ..style },
        StyleChange::Font(f) => TextStyle { font: f, ..style },
        StyleChange::Bold(b) => TextStyle { bold: b, ..style },
        StyleChange::Italic(b) => TextStyle { italic: b, ..style },
        StyleChange::Underline(b) => TextStyle { underline: b, ..style },
        StyleChange::Strikethrough(b) => TextStyle { strikethrough: b, ..style },
        StyleChange::Highlight(h) => TextStyle { highlight: h, ..style },
    }
}

/// Applies `change` to `style`.
pub fn apply_change(style: &mut TextStyle, change: &StyleChange)
    ensures
        *final(style) == restyled(*old(style), *change),
{
    match change {
        StyleChange::Color(c) => style.color = *c,
        StyleChange::Font(f) => style.font = f.clone(),
        StyleChange::Bold(b) => style.bold = *b,
        StyleChange::Italic(b) => style.italic = *b,
        StyleChange::Underline(b) => style.underline = *b,
        StyleChange::Strikethrough(b) => style.strikethrough = *b,
        StyleChange::Highlight(h) => style.highlight = *h,
    }
}

/// `after` is `before` with the styles of glyphs `[s, e)` changed by
/// `change`; characters and everything else are unchanged.
pub open spec fn restyled_range(
    before: Seq<Glyph>,
    after: Seq<Glyph>,
    s: int,
    e: int,
    change: StyleChange,
) -> bool {
    &&& after.len() == before.len()
    &&& forall|i: int|
        0 <= i < before.len() ==> #[trigger] after[i] == if s <= i < e {
            Glyph { ch: before[i].ch, style: restyled(before[i].style, change) }
        } else {
            before[i]
        }
}

/// The glyphs as (character, style view) pairs.
pub open spec fn glyphs_view(g: Seq<Glyph>) -> Seq<(char, StyleView)> {
    g.map_values(|x: Glyph| (x.ch, x.style@))
}

/// Every run is non-empty and neighbouring runs differ in style, so no two
/// runs could be merged.
pub open spec fn maximal_runs(runs: Seq<TextRun>) -> bool {
    &&& forall|i: int| 0 <= i < runs.len() ==> #[trigger] runs[i].text@.len() > 0
    &&& forall|i: int| 0 <= i < runs.len() - 1 ==> #[trigger] runs[i].style@ != runs[i + 1].style@
}


/// Storing an edited text box as runs and flattening the runs again gives
/// back the same characters in the same (looking) styles.
pub proof fn lemma_runs_round_trip(g: Seq<Glyph>, runs: Seq<TextRun>)
    requires
        runs_view(runs) == glyphs_view(g),
    ensures
        runs_pairs(runs).map_values(|p: (char, TextStyle)| (p.0, p.1@)) == glyphs_view(g),
{
    lemma_runs_pairs_view(runs);
}

/// No glyph in `[from, to)` is a newline.
pub open spec fn no_newline(g: Seq<Glyph>, from: int, to: int) -> bool {
    forall|k: int| from <= k < to ==> #[trigger] g[k].ch != '\n'
}

/// The start of a position's line (where Home puts the caret) is at or
/// before it, with no newline in between, and right after a newline unless
/// it is the start of the text.
pub proof fn lemma_line_start_props(g: Seq<Glyph>, pos: int)
    requires
        0 <= pos <= g.len(),
    ensures
        0 <= line_start(g, pos) <= pos,
        no_newline(g, line_start(g, pos), pos),
        line_start(g, pos) > 0 ==> g[line_start(g, pos) - 1].ch == '\n',
    decreases pos,
{
    if pos > 0 && g[pos - 1].ch != '\n' {
        lemma_line_start_props(g, pos - 1);
    }
}

/// The end of a position's line (where End puts the caret) is at or after
/// it, with no newline in between, and at a newline unless it is the end of
/// the text.
pub proof fn lemma_line_end_props(g: Seq<Glyph>, pos: int)
    requires
        0 <= pos <= g.len(),
    ensures
        pos <= line_end(g, pos) <= g.len(),
        no_newline(g, pos, line_end(g, pos)),
        line_end(g, pos) < g.len() ==> g[line_end(g, pos)].ch == '\n',
    decreases g.len() - pos,
{
    if pos < g.len() && g[pos].ch != '\n' {
        lemma_line_end_props(g, pos + 1);
    }
}

/// A position after the start `s` of a line, with no newline between,
/// lies on that line.
proof fn lemma_line_start_is(g: Seq<Glyph>, s: int, q: int)
    requires
        0 <= s <= q <= g.len(),
        s == 0 || g[s - 1].ch == '\n',
        no_newline(g, s, q),
    ensures
        line_start(g, q) == s,
    decreases q - s,
{
    if q > s {
        assert(g[q - 1].ch != '\n');
        lemma_line_start_is(g, s, q - 1);
    }
}

/// A position before the end `e` of a line, with no newline between, lies
/// on that line.
proof fn lemma_line_end_is(g: Seq<Glyph>, q: int, e: int)
    requires
        0 <= q <= e <= g.len(),
        e == g.len() || g[e].ch == '\n',
        no_newline(g, q, e),
    ensures
        line_end(g, q) == e,
    decreases e - q,
{
    if q < e {
        assert(g[q].ch != '\n');
        lemma_line_end_is(g, q + 1, e);
    }
}

/// Moving the caret a line up or down keeps its column: it lands on the
/// neighbouring line (the one ending just before the caret's line starts,
/// or starting just after it ends), as far from that line's start as it was
/// from its own line's start, or at that line's end when the line is
/// shorter. There is no line above the first line or below the last one.
pub proof fn lemma_line_move_keeps_column(ed: TextEdit, up: bool)
    requires
        ed.wf(),
    ensures
        ({
            let g = ed.glyphs@;
            let c = ed.cursor as int;
            let col = c - line_start(g, c);
            &&& ed.line_target(up) is None <==> (if up {
                line_start(g, c) == 0
            } else {
                line_end(g, c) == g.len()
            })
            &&& ed.line_target(up) matches Some(p) ==> {
                &&& 0 <= p <= g.len()
                &&& if up {
                    line_end(g, p) + 1 == line_start(g, c)
                } else {
                    line_start(g, p) == line_end(g, c) + 1
                }
                &&& p - line_start(g, p) == if col <= line_end(g, p) - line_start(g, p) {
                    col
                } else {
                    line_end(g, p) - line_start(g, p)
                }
            }
        }),
{
    let g = ed.glyphs@;
    let c = ed.cursor as int;
    lemma_line_start_props(g, c);
    lemma_line_end_props(g, c);
    let start = line_start(g, c);
    let col = c - start;
    if up {
        if start > 0 {
            let prev_end = start - 1;
            lemma_line_start_props(g, prev_end);
            let prev_start = line_start(g, prev_end);
            let p = if prev_start + col < prev_end { prev_start + col } else { prev_end };
            assert(no_newline(g, prev_start, p));
            lemma_line_start_is(g, prev_start, p);
            assert(no_newline(g, p, prev_end));
            lemma_line_end_is(g, p, prev_end);
        }
    } else {
        let end = line_end(g, c);
        if end < g.len() {
            let next_start = end + 1;
            lemma_line_end_props(g, next_start);
            let next_end = line_end(g, next_start);
            let p = if next_start + col < next_end { next_start + col } else { next_end };
            assert(no_newline(g, next_start, p));
            lemma_line_start_is(g, next_start, p);
            assert(no_newline(g, p, next_end));
            lemma_line_end_is(g, p, next_end);
        }
    }
}

/// Moving the caret keeps the text and clamps the caret to it. Without
/// `extend` the selection is dropped; with it, the selection keeps its
/// anchor, or (with none yet) is anchored where the caret was.
pub proof fn lemma_moved_to(ed: TextEdit, pos: int, extend: bool)
    requires
        ed.wf(),
        0 <= pos,
    ensures
        ({
            let m = ed.moved_to(pos, extend);
            &&& m.glyphs == ed.glyphs
            &&& m.cursor == if pos <= ed.glyphs@.len() {
                pos
            } else {
                ed.glyphs@.len() as int
            }
            &&& m.wf()
            &&& !extend ==> m.anchor is None && m.spec_selection() is None
            &&& extend && ed.anchor is Some ==> m.anchor == ed.anchor
            &&& extend && ed.anchor is None ==> m.anchor == Some(ed.cursor)
        }),
{
    assert(ed.glyphs@.len() <= usize::MAX) by {
        vstd::std_specs::vec::axiom_spec_len(&ed.glyphs);
    }
}

/// Each style change sets the attribute it names to the given value and
/// keeps every other attribute.
pub proof fn lemma_style_change_sets_its_attribute(style: TextStyle, change: StyleChange)
    ensures
        ({
            let r = restyled(style, change);
            &&& r.color == match change {
                StyleChange::Color(c) => c,
                _ => style.color,
            }
            &&& r.font == match change {
                StyleChange::Font(f) => f,
                _ => style.font,
            }
            &&& r.bold == match change {
                StyleChange::Bold(b) => b,
                _ => style.bold,
            }
            &&& r.italic == match change {
                StyleChange::Italic(b) => b,
                _ => style.italic,
            }
            &&& r.underline == match change {
                StyleChange::Underline(b) => b,
                _ => style.underline,
            }
            &&& r.strikethrough == match change {
                StyleChange::Strikethrough(b) => b,
                _ => style.strikethrough,
            }
            &&& r.highlight == match change {
                StyleChange::Highlight(h) => h,
                _ => style.highlight,
            }
        }),
{
}

/// Typing a character with nothing selected and then pressing backspace
/// gives back the text as it was: `insert` puts the glyph at the caret `c`
/// and moves the caret to `c + 1`, and `backspace` removes the glyph before
/// the caret, which is that glyph.
pub proof fn lemma_insert_then_backspace(g: Seq<Glyph>, c: int, x: Glyph)
    requires
        0 <= c <= g.len(),
    ensures
        g.insert(c, x).remove(c) == g,
{
    assert(g.insert(c, x).remove(c) =~= g);
}

/// A boolean style attribute that can be toggled.
#[derive(Clone, Copy, Debug, PartialEq, Eq, Structural)]
pub enum StyleFlag {
    Bold,
    Italic,
    Underline,
    Strikethrough,
}

/// The value of `flag` in `style`.
pub open spec fn flag_of(style: TextStyle, flag: StyleFlag) -> bool {
    match flag {
        StyleFlag::Bold => style.bold,
        StyleFlag::Italic => style.italic,
        StyleFlag::Underline => style.underline,
        StyleFlag::Strikethrough => style.strikethrough,
    }
}

/// The change that sets `flag` to `on`.
pub open spec fn spec_flag_change(flag: StyleFlag, on: bool) -> StyleChange {
    match flag {
        StyleFlag::Bold => StyleChange::Bold(on),
        StyleFlag::Italic => StyleChange::Italic(on),
        StyleFlag::Underline => StyleChange::Underline(on),
        StyleFlag::Strikethrough => StyleChange::Strikethrough(on),
    }
}

/// The change that sets `flag` to `on`.
#[verifier::when_used_as_spec(spec_flag_change)]
pub fn flag_change(flag: StyleFlag, on: bool) -> (c: StyleChange)
    ensures
        c == spec_flag_change(flag, on),
{
    match flag {
        StyleFlag::Bold => StyleChange::Bold(on),
        StyleFlag::Italic => StyleChange::Italic(on),
        StyleFlag::Underline => StyleChange::Underline(on),
        StyleFlag::Strikethrough => StyleChange::Strikethrough(on),
    }
}

/// Each style flag is the attribute it is named after, and setting it sets
/// that attribute and keeps every other one.
pub proof fn lemma_flags_name_their_attribute(style: TextStyle, on: bool)
    ensures
        flag_of(style, StyleFlag::Bold) == style.bold,
        flag_of(style, StyleFlag::Italic) == style.italic,
        flag_of(style, StyleFlag::Underline) == style.underline,
        flag_of(style, StyleFlag::Strikethrough) == style.strikethrough,
        restyled(style, spec_flag_change(StyleFlag::Bold, on)) == (TextStyle { bold: on, ..style }),
        restyled(style, spec_flag_change(StyleFlag::Italic, on)) == (TextStyle { italic: on, ..style }),
        restyled(style, spec_flag_change(StyleFlag::Underline, on)) == (TextStyle { underline: on, ..style }),
        restyled(style, spec_flag_change(StyleFlag::Strikethrough, on)) == (TextStyle {
            strikethrough: on,
            ..style
        }),
{
}

/// Toggling a flag of a style flips that flag and no other, and keeps the
/// color, font and highlight; toggling it again gives the style back.
pub proof fn lemma_toggle_flips_only_its_flag(style: TextStyle, flag: StyleFlag)
    ensures
        ({
            let toggled = restyled(style, spec_flag_change(flag, !flag_of(style, flag)));
            &&& flag_of(toggled, flag) == !flag_of(style, flag)
            &&& forall|other: StyleFlag| other != flag ==> #[trigger] flag_of(toggled, other) == flag_of(style, other)
            &&& toggled.color == style.color && toggled.font == style.font && toggled.highlight == style.highlight
            &&& restyled(toggled, spec_flag_change(flag, !flag_of(toggled, flag))) == style
        }),
{
}

/// Whether every glyph in `[s, e)` has `flag` set.
pub open spec fn all_flagged(g: Seq<Glyph>, s: int, e: int, flag: StyleFlag) -> bool {
    forall|i: int| s <= i < e ==> flag_of(#[trigger] g[i].style, flag)
}

/// Flips a boolean style attribute. With a selection: turns it on unless
/// every selected glyph already has it (then off), for the selection and
/// for newly typed characters alike. Without a selection: flips it for newly
/// typed characters only.
pub fn toggle_style(editing: &mut Option<TextEdit>, typing: &mut TextStyle, flag: StyleFlag)
    requires
        *old(editing) matches Some(ed) ==> ed.wf() && ed.anchor_in_bounds(),
    ensures
        match *old(editing) {
            Some(ed) => match ed.spec_selection() {
                Some((s, e)) => {
                    let target = !all_flagged(ed.glyphs@, s as int, e as int, flag);
                    &&& *final(editing) matches Some(ed2) && ed2.cursor == ed.cursor
                        && ed2.anchor == ed.anchor && restyled_range(
                        ed.glyphs@,
                        ed2.glyphs@,
                        s as int,
                        e as int,
                        spec_flag_change(flag, target),
                    )
                    &&& *final(typing) == restyled(*old(typing), spec_flag_change(flag, target))
                },
                None => {
                    &&& *final(editing) == *old(editing)
                    &&& *final(typing) == restyled(
                        *old(typing),
                        spec_flag_change(flag, !flag_of(*old(typing), flag)),
                    )
                },
            },
            None => {
                &&& *final(editing) == *old(editing)
                &&& *final(typing) == restyled(
                    *old(typing),
                    spec_flag_change(flag, !flag_of(*old(typing), flag)),
                )
            },
        },
{
    let current = match flag {
        StyleFlag::Bold => typing.bold,
        StyleFlag::Italic => typing.italic,
        StyleFlag::Underline => typing.underline,
        StyleFlag::Strikethrough => typing.strikethrough,
    };
    match editing.take() {
        Some(mut ed) => match ed.selection() {
            Some((s, e)) => {
                let mut all = true;
                let mut i = s;
                while i < e
                    invariant
                        s <= i <= e <= ed.glyphs@.len(),
                        all == all_flagged(ed.glyphs@, s as int, i as int, flag),
                    decreases e - i,
                {
                    let st = &ed.glyphs[i].style;
                    let on = match flag {
                        StyleFlag::Bold => st.bold,
                        StyleFlag::Italic => st.italic,
                        StyleFlag::Underline => st.underline,
                        StyleFlag::Strikethrough => st.strikethrough,
                    };
                    all = all && on;
                    i = i + 1;
                }
                let change = flag_change(flag, !all);
                ed.style_selection(&change);
                apply_change(typing, &change);
                *editing = Some(ed);
            },
            None => {
                apply_change(typing, &flag_change(flag, !current));
                *editing = Some(ed);
            },
        },
        None => {
            apply_change(typing, &flag_change(flag, !current));
        },
    }
}

/// Updates the style for newly typed characters and, while editing, applies
/// the same change to the selection.
pub fn apply_style(editing: &mut Option<TextEdit>, typing: &mut TextStyle, change: &StyleChange)
    requires
        *old(editing) matches Some(ed) ==> ed.wf() && ed.anchor_in_bounds(),
    ensures
        *final(typing) == restyled(*old(typing), *change),
        match *old(editing) {
            Some(ed) => *final(editing) matches Some(ed2) && ed2.cursor == ed.cursor && ed2.anchor
                == ed.anchor && match ed.spec_selection() {
                Some((s, e)) => restyled_range(ed.glyphs@, ed2.glyphs@, s as int, e as int, *change),
                None => ed2.glyphs == ed.glyphs,
            },
            None => *final(editing) == None::<TextEdit>,
        },
{
    apply_change(typing, change);
    if let Some(mut ed) = editing.take() {
        ed.style_selection(change);
        *editing = Some(ed);
    }
}

} // verus!
