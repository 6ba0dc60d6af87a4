//! The buffer with its cursor and its history: editing at the cursor,
//! navigation by character, word and line, and undo and redo over shared
//! snapshots of the rope.

use crate::position::{
    col_of, has_line_below, index_above, index_below, least, lemma_line_end, lemma_line_start,
    lemma_position_bounds, lemma_same_line, lemma_vertical_motion, line_cut_end, line_end,
    line_end_from, line_start, position_at, row_of, width_from,
};
use crate::rope::{
    chars_of, checked_length, delete, flatten, insert_chars, is_delete_of, is_insert_of,
    length_of, report, share, spec_delete, spec_insert, text_of, well_formed, NodeRef, RopeNode,
};
use crate::words::{unescape, unescaped, word_left, word_left_from, word_right, word_right_from};
use vstd::prelude::*;
use vstd::string::StringExecFns;

verus! {

/// The largest number of snapshots that the undo stack keeps.
pub const HISTORY_CAP: usize = 1000;

/// A buffer: the current tree, the cursor as an index and as row and column,
/// the name of the file it belongs to, and the snapshots for undo and redo.
pub struct Editor {
    pub rope: NodeRef,
    pub filename: Option<String>,
    pub cursor_index: usize,
    pub cursor_row: usize,
    pub cursor_col: usize,
    pub history: Vec<NodeRef>,
    pub future: Vec<NodeRef>,
}

/// Every tree of the stack is well formed.
pub open spec fn all_well_formed(stack: Seq<NodeRef>) -> bool {
    forall|i: int| 0 <= i < stack.len() ==> well_formed(#[trigger] stack[i])
}

/// The undo stack after a snapshot of `root`: `root` on top, and the oldest
/// entry gone where the stack would otherwise exceed its cap.
pub open spec fn snapshot_of(stack: Seq<NodeRef>, root: NodeRef) -> Seq<NodeRef> {
    let pushed = stack.push(root);
    if pushed.len() > HISTORY_CAP {
        pushed.remove(0)
    } else {
        pushed
    }
}

/// Whether every tree of the stack is well formed.
pub fn all_valid(stack: &Vec<NodeRef>) -> (valid: bool)
    ensures
        valid == all_well_formed(stack@),
{
    let mut k: usize = 0;
    while k < stack.len()
        invariant
            k <= stack.len(),
            forall|i: int| 0 <= i < k ==> well_formed(#[trigger] stack@[i]),
        decreases stack.len() - k,
    {
        if checked_length(&stack[k]).is_none() {
            return false;
        }
        k += 1;
    }
    true
}

impl Editor {
    /// The text of the buffer.
    pub open spec fn text(&self) -> Seq<char> {
        text_of(self.rope)
    }

    /// The cursor lies within the text, row and column are those of its
    /// index, every tree held is well formed, and the two stacks together
    /// hold no more snapshots than the cap allows.
    pub open spec fn wf(&self) -> bool {
        &&& well_formed(self.rope)
        &&& self.cursor_index <= self.text().len()
        &&& self.cursor_row == row_of(self.text(), self.cursor_index as int)
        &&& self.cursor_col == col_of(self.text(), self.cursor_index as int)
        &&& all_well_formed(self.history@)
        &&& all_well_formed(self.future@)
        &&& self.history@.len() + self.future@.len() <= HISTORY_CAP
    }

    /// This state is `before` with the cursor moved to `idx` and nothing else
    /// changed.
    pub open spec fn moved_to(&self, before: Editor, idx: int) -> bool {
        &&& self.wf()
        &&& self.rope == before.rope
        &&& self.filename == before.filename
        &&& self.history == before.history
        &&& self.future == before.future
        &&& self.cursor_index == idx
    }

    /// This state is `before` after one edit: a snapshot of the tree of
    /// `before` was taken, the redo stack is empty, the text is `text` and
    /// the cursor is at `idx`.
    pub open spec fn edited_from(&self, before: Editor, text: Seq<char>, idx: int) -> bool {
        &&& self.wf()
        &&& self.text() == text
        &&& self.cursor_index == idx
        &&& self.filename == before.filename
        &&& self.history@ == snapshot_of(before.history@, before.rope)
        &&& self.future@.len() == 0
    }

    /// The tree of `before` is on top of the undo stack and the redo stack is
    /// empty: what every edit leaves behind.
    pub open spec fn follows_edit_of(&self, before: Editor) -> bool {
        &&& self.history@.len() > 0
        &&& self.history@.last() == before.rope
        &&& self.future@.len() == 0
    }

    /// This state is `before` after `undo`.
    pub open spec fn is_undo_of(&self, before: Editor) -> bool {
        if before.history@.len() == 0 {
            *self == before
        } else {
            &&& self.rope == before.history@.last()
            &&& self.history@ == before.history@.drop_last()
            &&& self.future@ == before.future@.push(before.rope)
            &&& self.filename == before.filename
            &&& self.cursor_index == least(before.cursor_index as int, self.text().len() as int)
        }
    }

    /// This state is `before` after `redo`.
    pub open spec fn is_redo_of(&self, before: Editor) -> bool {
        if before.future@.len() == 0 {
            *self == before
        } else {
            &&& self.rope == before.future@.last()
            &&& self.future@ == before.future@.drop_last()
            &&& self.history@ == before.history@.push(before.rope)
            &&& self.filename == before.filename
            &&& self.cursor_index == least(before.cursor_index as int, self.text().len() as int)
        }
    }

    /// Whether the state is well formed, found out by looking at every tree
    /// it holds.
    pub fn is_valid(&self) -> (valid: bool)
        ensures
            valid == self.wf(),
    {
        let len: usize = match checked_length(&self.rope) {
            Some(n) => n,
            None => {
                return false;
            },
        };
        if self.cursor_index > len {
            return false;
        }
        let chars = flatten(&self.rope);
        let (row, col) = position_at(&chars, self.cursor_index);
        if row != self.cursor_row || col != self.cursor_col {
            return false;
        }
        if self.history.len() > HISTORY_CAP || self.future.len() > HISTORY_CAP
            - self.history.len() {
            return false;
        }
        all_valid(&self.history) && all_valid(&self.future)
    }

    /// An empty buffer without a file name, the cursor at its start.
    pub fn new() -> (editor: Editor)
        ensures
            editor.wf(),
            editor.text().len() == 0,
            editor.rope matches Some(n) && *n is Leaf,
            editor.cursor_index == 0,
            editor.filename is None,
            editor.history@.len() == 0,
            editor.future@.len() == 0,
    {
        proof {
            reveal_strlit("");
        }
        Editor {
            rope: RopeNode::new_leaf(""),
            filename: None,
            cursor_index: 0,
            cursor_row: 0,
            cursor_col: 0,
            history: Vec::new(),
            future: Vec::new(),
        }
    }

    /// Takes `content` as the text of the file `filename`: one leaf holds it
    /// all and the cursor is at its start. The history stays.
    pub fn open_file(&mut self, filename: &str, content: &str)
        requires
            old(self).wf(),
        ensures
            final(self).wf(),
            final(self).text() == content@,
            final(self).rope matches Some(n) && *n is Leaf,
            final(self).cursor_index == 0,
            final(self).filename matches Some(name) && name@ == filename@,
            final(self).history == old(self).history,
            final(self).future == old(self).future,
    {
        self.rope = RopeNode::new_leaf(content);
        self.cursor_index = 0;
        self.update_cursor_position();
        self.filename = Some(String::from_str(filename));
    }

    /// The text to write to the buffer's file, or `None` while the buffer has
    /// no file name.
    pub fn save(&self) -> (out: Option<String>)
        ensures
            self.filename is None ==> out is None,
            self.filename is Some ==> (out matches Some(s) && s@ == self.text()),
    {
        if self.filename.is_some() {
            Some(report(&self.rope))
        } else {
            None
        }
    }

    /// Names the buffer's file `name` and gives the text to write to it.
    pub fn save_as(&mut self, name: &str) -> (out: String)
        requires
            old(self).wf(),
        ensures
            final(self).wf(),
            final(self).filename matches Some(f) && f@ == name@,
            final(self).rope == old(self).rope,
            final(self).cursor_index == old(self).cursor_index,
            final(self).history == old(self).history,
            final(self).future == old(self).future,
            out@ == old(self).text(),
    {
        self.filename = Some(String::from_str(name));
        report(&self.rope)
    }

    /// Takes a snapshot, puts `chars` in at the cursor as they are and moves
    /// the cursor behind them.
    pub fn insert_chars_at_cursor(&mut self, chars: Vec<char>)
        requires
            old(self).wf(),
            old(self).text().len() + chars@.len() <= usize::MAX,
        ensures
            final(self).edited_from(
                *old(self),
                spec_insert(old(self).text(), old(self).cursor_index as int, chars@),
                old(self).cursor_index + chars@.len(),
            ),
            is_insert_of(final(self).rope, old(self).rope, old(self).cursor_index as int, chars@),
            final(self).follows_edit_of(*old(self)),
    {
        self.save_history();
        let count: usize = chars.len();
        self.rope = insert_chars(share(&self.rope), self.cursor_index, chars);
        self.cursor_index += count;
        self.update_cursor_position();
    }

    /// Puts `text` in at the cursor, its escape sequences resolved, and moves
    /// the cursor behind what was put in.
    pub fn insert_at_cursor(&mut self, text: &str)
        requires
            old(self).wf(),
            old(self).text().len() + text@.len() <= usize::MAX,
        ensures
            final(self).edited_from(
                *old(self),
                spec_insert(old(self).text(), old(self).cursor_index as int, unescaped(text@)),
                old(self).cursor_index + unescaped(text@).len(),
            ),
            is_insert_of(
                final(self).rope,
                old(self).rope,
                old(self).cursor_index as int,
                unescaped(text@),
            ),
            final(self).follows_edit_of(*old(self)),
    {
        let raw = chars_of(text);
        let processed = unescape(&raw);
        self.insert_chars_at_cursor(processed);
    }

    /// Removes the `count` characters before the cursor, or all of them where
    /// there are fewer, and leaves the cursor where the first of them was.
    pub fn delete_at_cursor(&mut self, count: usize)
        requires
            old(self).wf(),
        ensures
            final(self).edited_from(
                *old(self),
                spec_delete(
                    old(self).text(),
                    if count > old(self).cursor_index {
                        0
                    } else {
                        old(self).cursor_index - count
                    },
                    old(self).cursor_index as int,
                ),
                if count > old(self).cursor_index {
                    0
                } else {
                    old(self).cursor_index - count
                },
            ),
            is_delete_of(
                final(self).rope,
                old(self).rope,
                if count > old(self).cursor_index {
                    0
                } else {
                    old(self).cursor_index - count
                },
                if count > old(self).cursor_index {
                    old(self).cursor_index as int
                } else {
                    count as int
                },
            ),
            final(self).follows_edit_of(*old(self)),
    {
        self.save_history();
        let end: usize = self.cursor_index;
        let start: usize = if count > end {
            0
        } else {
            end - count
        };
        self.rope = delete(share(&self.rope), start, end);
        self.cursor_index = start;
        self.update_cursor_position();
    }

    /// One character to the left; stays at the start of the text.
    pub fn move_cursor_left(&mut self)
        requires
            old(self).wf(),
        ensures
            final(self).moved_to(
                *old(self),
                if old(self).cursor_index > 0 {
                    old(self).cursor_index - 1
                } else {
                    0
                },
            ),
    {
        if self.cursor_index > 0 {
            self.cursor_index -= 1;
            self.update_cursor_position();
        }
    }

    /// One character to the right; stays at the end of the text.
    pub fn move_cursor_right(&mut self)
        requires
            old(self).wf(),
        ensures
            final(self).moved_to(
                *old(self),
                if old(self).cursor_index < old(self).text().len() {
                    old(self).cursor_index + 1
                } else {
                    old(self).cursor_index as int
                },
            ),
    {
        let len: usize = self.length();
        if self.cursor_index < len {
            self.cursor_index += 1;
            self.update_cursor_position();
        }
    }

    /// To the start of the text.
    pub fn move_cursor_start(&mut self)
        requires
            old(self).wf(),
        ensures
            final(self).moved_to(*old(self), 0),
    {
        self.cursor_index = 0;
        self.update_cursor_position();
    }

    /// To the end of the text.
    pub fn move_cursor_end(&mut self)
        requires
            old(self).wf(),
        ensures
            final(self).moved_to(*old(self), old(self).text().len() as int),
    {
        self.cursor_index = self.length();
        self.update_cursor_position();
    }

    /// One line up, to the same column or to the end of a shorter line; stays
    /// on the first line.
    pub fn move_cursor_up(&mut self)
        requires
            old(self).wf(),
        ensures
            final(self).moved_to(
                *old(self),
                index_above(old(self).text(), old(self).cursor_index as int),
            ),
            old(self).cursor_row == 0 ==> *final(self) == *old(self),
            old(self).cursor_row > 0 ==> {
                &&& final(self).cursor_row == old(self).cursor_row - 1
                &&& final(self).cursor_col == least(
                    old(self).cursor_col as int,
                    col_of(
                        old(self).text(),
                        line_start(old(self).text(), old(self).cursor_index as int) - 1,
                    ) as int,
                )
            },
    {
        proof {
            lemma_vertical_motion(self.text(), self.cursor_index as int);
            lemma_line_start(self.text(), self.cursor_index as int);
        }
        let start: usize = self.cursor_index - self.cursor_col;
        if start == 0 {
            return ;
        }
        let chars = flatten(&self.rope);
        let prev_end: usize = start - 1;
        let (_row, prev_width) = position_at(&chars, prev_end);
        proof {
            lemma_position_bounds(self.text(), prev_end as int);
        }
        let col: usize = if self.cursor_col < prev_width {
            self.cursor_col
        } else {
            prev_width
        };
        self.cursor_index = prev_end - prev_width + col;
        self.update_cursor_position();
    }

    /// One line down, to the same column or to the end of a shorter line;
    /// stays on the last line. The line after a newline that ends the text is
    /// empty, and the cursor can go there.
    pub fn move_cursor_down(&mut self)
        requires
            old(self).wf(),
        ensures
            final(self).moved_to(
                *old(self),
                index_below(old(self).text(), old(self).cursor_index as int),
            ),
            !has_line_below(old(self).text(), old(self).cursor_index as int) ==> *final(self)
                == *old(self),
            has_line_below(old(self).text(), old(self).cursor_index as int) ==> {
                &&& final(self).cursor_row == old(self).cursor_row + 1
                &&& final(self).cursor_col == least(
                    old(self).cursor_col as int,
                    width_from(
                        old(self).text(),
                        line_end(old(self).text(), old(self).cursor_index as int) + 1,
                    ),
                )
            },
    {
        proof {
            lemma_vertical_motion(self.text(), self.cursor_index as int);
        }
        let chars = flatten(&self.rope);
        let end: usize = line_end_from(&chars, self.cursor_index);
        if end == chars.len() {
            return ;
        }
        let start: usize = end + 1;
        let next_end: usize = line_end_from(&chars, start);
        let width: usize = next_end - start;
        let col: usize = if self.cursor_col < width {
            self.cursor_col
        } else {
            width
        };
        self.cursor_index = start + col;
        self.update_cursor_position();
    }

    /// To the end of the cursor's line: its newline, or the end of the text.
    pub fn move_to_line_end(&mut self)
        requires
            old(self).wf(),
        ensures
            final(self).moved_to(
                *old(self),
                line_end(old(self).text(), old(self).cursor_index as int),
            ),
            final(self).cursor_row == old(self).cursor_row,
    {
        proof {
            lemma_line_end(self.text(), self.cursor_index as int);
            lemma_same_line(
                self.text(),
                self.cursor_index as int,
                line_end(self.text(), self.cursor_index as int),
            );
        }
        let chars = flatten(&self.rope);
        self.cursor_index = line_end_from(&chars, self.cursor_index);
        self.update_cursor_position();
    }

    /// To the first index of the cursor's line.
    pub fn move_to_line_start(&mut self)
        requires
            old(self).wf(),
        ensures
            final(self).moved_to(
                *old(self),
                line_start(old(self).text(), old(self).cursor_index as int),
            ),
            final(self).cursor_row == old(self).cursor_row,
            final(self).cursor_col == 0,
    {
        proof {
            lemma_line_start(self.text(), self.cursor_index as int);
        }
        self.cursor_index = self.cursor_index - self.cursor_col;
        self.update_cursor_position();
    }

    /// Past the whitespace at the cursor and past the word that follows it.
    pub fn move_word_right(&mut self)
        requires
            old(self).wf(),
        ensures
            final(self).moved_to(
                *old(self),
                word_right(old(self).text(), old(self).cursor_index as int),
            ),
    {
        let chars = flatten(&self.rope);
        self.cursor_index = word_right_from(&chars, self.cursor_index);
        self.update_cursor_position();
    }

    /// Back over the whitespace before the cursor and to the start of the
    /// word before it; stays at the start of the text.
    pub fn move_word_left(&mut self)
        requires
            old(self).wf(),
        ensures
            final(self).moved_to(
                *old(self),
                word_left(old(self).text(), old(self).cursor_index as int),
            ),
    {
        if self.cursor_index == 0 {
            return ;
        }
        let chars = flatten(&self.rope);
        self.cursor_index = word_left_from(&chars, self.cursor_index);
        self.update_cursor_position();
    }

    /// Opens an empty line above the cursor's line and puts the cursor on it.
    /// Two snapshots of the tree are taken.
    pub fn insert_newline_above(&mut self)
        requires
            old(self).wf(),
            old(self).text().len() < usize::MAX,
        ensures
            final(self).wf(),
            final(self).text() == spec_insert(
                old(self).text(),
                line_start(old(self).text(), old(self).cursor_index as int),
                seq!['\n'],
            ),
            is_insert_of(
                final(self).rope,
                old(self).rope,
                line_start(old(self).text(), old(self).cursor_index as int),
                seq!['\n'],
            ),
            final(self).cursor_index == line_start(
                old(self).text(),
                old(self).cursor_index as int,
            ),
            final(self).filename == old(self).filename,
            final(self).history@ == snapshot_of(
                snapshot_of(old(self).history@, old(self).rope),
                old(self).rope,
            ),
            final(self).future@.len() == 0,
            final(self).follows_edit_of(*old(self)),
    {
        self.save_history();
        self.move_to_line_start();
        let mut newline: Vec<char> = Vec::new();
        newline.push('\n');
        self.insert_chars_at_cursor(newline);
        self.cursor_index -= 1;
        self.update_cursor_position();
    }

    /// Opens an empty line below the cursor's line and puts the cursor on it.
    /// Two snapshots of the tree are taken.
    pub fn insert_newline_below(&mut self)
        requires
            old(self).wf(),
            old(self).text().len() < usize::MAX,
        ensures
            final(self).wf(),
            final(self).text() == spec_insert(
                old(self).text(),
                line_end(old(self).text(), old(self).cursor_index as int),
                seq!['\n'],
            ),
            is_insert_of(
                final(self).rope,
                old(self).rope,
                line_end(old(self).text(), old(self).cursor_index as int),
                seq!['\n'],
            ),
            final(self).cursor_index == line_end(old(self).text(), old(self).cursor_index as int)
                + 1,
            final(self).filename == old(self).filename,
            final(self).history@ == snapshot_of(
                snapshot_of(old(self).history@, old(self).rope),
                old(self).rope,
            ),
            final(self).future@.len() == 0,
            final(self).follows_edit_of(*old(self)),
    {
        self.save_history();
        self.move_to_line_end();
        let mut newline: Vec<char> = Vec::new();
        newline.push('\n');
        self.insert_chars_at_cursor(newline);
        self.update_cursor_position();
    }

    /// Removes the cursor's line, with its newline where another line
    /// follows, and puts the cursor where the line began.
    pub fn delete_current_line(&mut self)
        requires
            old(self).wf(),
        ensures
            final(self).edited_from(
                *old(self),
                spec_delete(
                    old(self).text(),
                    line_start(old(self).text(), old(self).cursor_index as int),
                    line_cut_end(old(self).text(), old(self).cursor_index as int),
                ),
                line_start(old(self).text(), old(self).cursor_index as int),
            ),
            old(self).text().len() == 0 ==> final(self).rope == old(self).rope,
            old(self).text().len() > 0 ==> is_delete_of(
                final(self).rope,
                old(self).rope,
                line_start(old(self).text(), old(self).cursor_index as int),
                line_cut_end(old(self).text(), old(self).cursor_index as int) - line_start(
                    old(self).text(),
                    old(self).cursor_index as int,
                ),
            ),
            final(self).follows_edit_of(*old(self)),
    {
        proof {
            lemma_line_start(self.text(), self.cursor_index as int);
            lemma_line_end(self.text(), self.cursor_index as int);
        }
        let ghost t = self.text();
        self.save_history();
        let chars = flatten(&self.rope);
        if chars.len() == 0 {
            assert(spec_delete(t, 0, 0) =~= t);
            return ;
        }
        let start: usize = self.cursor_index - self.cursor_col;
        let line_end: usize = line_end_from(&chars, self.cursor_index);
        let end: usize = if line_end < chars.len() {
            line_end + 1
        } else {
            line_end
        };
        self.rope = delete(share(&self.rope), start, end);
        self.cursor_index = start;
        self.update_cursor_position();
    }

    /// Goes back to the tree on top of the undo stack and keeps the current
    /// one for `redo`; nothing happens where the stack is empty.
    pub fn undo(&mut self)
        requires
            old(self).wf(),
        ensures
            final(self).is_undo_of(*old(self)),
            final(self).wf(),
    {
        if self.history.len() == 0 {
            return ;
        }
        let top = self.history.pop();
        if let Some(prev) = top {
            self.future.push(share(&self.rope));
            self.rope = prev;
            let len: usize = self.length();
            if self.cursor_index > len {
                self.cursor_index = len;
            }
            self.update_cursor_position();
        }
    }

    /// Goes forward to the tree on top of the redo stack and keeps the
    /// current one for `undo`; nothing happens where the stack is empty.
    pub fn redo(&mut self)
        requires
            old(self).wf(),
        ensures
            final(self).is_redo_of(*old(self)),
            final(self).wf(),
    {
        if self.future.len() == 0 {
            return ;
        }
        let top = self.future.pop();
        if let Some(next) = top {
            self.history.push(share(&self.rope));
            self.rope = next;
            let len: usize = self.length();
            if self.cursor_index > len {
                self.cursor_index = len;
            }
            self.update_cursor_position();
        }
    }

    /// Takes a snapshot of the current tree for `undo` and empties the redo
    /// stack.
    pub fn save_history(&mut self)
        ensures
            final(self).history@ == snapshot_of(old(self).history@, old(self).rope),
            final(self).future@.len() == 0,
            final(self).rope == old(self).rope,
            final(self).filename == old(self).filename,
            final(self).cursor_index == old(self).cursor_index,
            final(self).cursor_row == old(self).cursor_row,
            final(self).cursor_col == old(self).cursor_col,
            old(self).wf() ==> final(self).wf(),
    {
        self.history.push(share(&self.rope));
        if self.history.len() > HISTORY_CAP {
            self.history.remove(0);
        }
        self.future.clear();
    }

    /// Sets row and column to those of the cursor's index; an index beyond
    /// the end of the text counts as the end.
    pub fn update_cursor_position(&mut self)
        ensures
            final(self).cursor_row == row_of(
                old(self).text(),
                least(old(self).cursor_index as int, old(self).text().len() as int),
            ),
            final(self).cursor_col == col_of(
                old(self).text(),
                least(old(self).cursor_index as int, old(self).text().len() as int),
            ),
            final(self).rope == old(self).rope,
            final(self).filename == old(self).filename,
            final(self).cursor_index == old(self).cursor_index,
            final(self).history == old(self).history,
            final(self).future == old(self).future,
    {
        let chars = flatten(&self.rope);
        let (row, col) = position_at(&chars, self.cursor_index);
        self.cursor_row = row;
        self.cursor_col = col;
    }

    /// The text with a bar where the cursor is.
    pub fn display(&self) -> (out: String)
        requires
            self.wf(),
            self.text().len() < usize::MAX,
        ensures
            out@ == spec_insert(self.text(), self.cursor_index as int, seq!['|']),
    {
        let mut bar: Vec<char> = Vec::new();
        bar.push('|');
        let marked = insert_chars(share(&self.rope), self.cursor_index, bar);
        report(&marked)
    }

    /// The number of characters of the text.
    pub fn length(&self) -> (n: usize)
        requires
            well_formed(self.rope),
        ensures
            n == self.text().len(),
    {
        length_of(&self.rope)
    }
}

/// After any edit `undo` gives back the text from before the edit, and a
/// `redo` that follows gives back the text from after it.
pub proof fn lemma_undo_redo(before: Editor, edited: Editor, undone: Editor, redone: Editor)
    requires
        edited.follows_edit_of(before),
        undone.is_undo_of(edited),
        redone.is_redo_of(undone),
    ensures
        undone.text() == before.text(),
        undone.rope == before.rope,
        redone.text() == edited.text(),
        redone.rope == edited.rope,
{
}

} // verus!
