//! A single-line editable text buffer with a cursor offset.

use vstd::prelude::*;

verus! {

/// An editable line of text and a cursor position inside it. The cursor
/// always stays in `[0, text.len()]`; every edit operation is total and
/// preserves that invariant.
pub struct TextEditBuffer {
    pub text: Vec<char>,
    pub cursor: usize,
}

impl TextEditBuffer {
    /// The cursor stays within the text.
    pub open spec fn wf(self) -> bool {
        self.cursor <= self.text@.len()
    }

    /// An empty buffer with the cursor at the start.
    pub fn new() -> (r: TextEditBuffer)
        ensures
            r.text@ == Seq::<char>::empty(),
            r.cursor == 0,
            r.wf(),
    {
        let r = TextEditBuffer { text: Vec::new(), cursor: 0 };
        proof {
            assert(r.text@ =~= Seq::<char>::empty());
        }
        r
    }

    /// A buffer pre-seeded with `text`, cursor placed at the end.
    pub fn with_text(text: Vec<char>) -> (r: TextEditBuffer)
        ensures
            r.text@ == text@,
            r.cursor == text@.len(),
            r.wf(),
    {
        let cursor = text.len();
        TextEditBuffer { text, cursor }
    }

    /// Insert `c` at the cursor and advance the cursor past it.
    pub fn insert(&mut self, c: char)
        requires
            old(self).wf(),
        ensures
            final(self).text@ == old(self).text@.insert(old(self).cursor as int, c),
            final(self).cursor == old(self).cursor + 1,
            final(self).wf(),
    {
        self.text.insert(self.cursor, c);
        let n = self.text.len();
        proof {
            assert(self.cursor < n);
        }
        self.cursor = self.cursor + 1;
    }

    /// Remove the character before the cursor and move the cursor back;
    /// a no-op when the cursor is at the start.
    pub fn delete_before(&mut self)
        requires
            old(self).wf(),
        ensures
            final(self).text@ == if old(self).cursor == 0 {
                old(self).text@
            } else {
                old(self).text@.remove(old(self).cursor - 1)
            },
            final(self).cursor == if old(self).cursor == 0 {
                0int
            } else {
                old(self).cursor - 1
            },
            final(self).wf(),
    {
        if self.cursor > 0 {
            self.text.remove(self.cursor - 1);
            self.cursor = self.cursor - 1;
        }
    }

    /// Remove the character at the cursor, leaving the cursor in place;
    /// a no-op when the cursor is at the end of the text.
    pub fn delete_at(&mut self)
        requires
            old(self).wf(),
        ensures
            final(self).text@ == if old(self).cursor == old(self).text@.len() {
                old(self).text@
            } else {
                old(self).text@.remove(old(self).cursor as int)
            },
            final(self).cursor == old(self).cursor,
            final(self).wf(),
    {
        if self.cursor < self.text.len() {
            self.text.remove(self.cursor);
        }
    }

    /// Move the cursor one position left, stopping at the start.
    pub fn move_left(&mut self)
        requires
            old(self).wf(),
        ensures
            final(self).text@ == old(self).text@,
            final(self).cursor == if old(self).cursor == 0 {
                0int
            } else {
                old(self).cursor - 1
            },
            final(self).wf(),
    {
        if self.cursor > 0 {
            self.cursor = self.cursor - 1;
        }
    }

    /// Move the cursor one position right, stopping at the end.
    pub fn move_right(&mut self)
        requires
            old(self).wf(),
        ensures
            final(self).text@ == old(self).text@,
            final(self).cursor == if old(self).cursor == old(self).text@.len() {
                old(self).cursor as int
            } else {
                old(self).cursor + 1
            },
            final(self).wf(),
    {
        if self.cursor < self.text.len() {
            self.cursor = self.cursor + 1;
        }
    }

    /// Move the cursor to the start of the text.
    pub fn move_home(&mut self)
        ensures
            final(self).text@ == old(self).text@,
            final(self).cursor == 0,
            final(self).wf(),
    {
        self.cursor = 0;
    }

    /// Move the cursor to the end of the text.
    pub fn move_end(&mut self)
        ensures
            final(self).text@ == old(self).text@,
            final(self).cursor == old(self).text@.len(),
            final(self).wf(),
    {
        self.cursor = self.text.len();
    }

    /// Empty the text and reset the cursor.
    pub fn clear(&mut self)
        ensures
            final(self).text@ == Seq::<char>::empty(),
            final(self).cursor == 0,
            final(self).wf(),
    {
        self.text.clear();
        self.cursor = 0;
        proof {
            assert(self.text@ =~= Seq::<char>::empty());
        }
    }
}

/// Inserting a character and then deleting before the cursor restores the
/// prior text and cursor, from any valid starting state.
pub proof fn lemma_insert_then_delete_before(text: Seq<char>, cursor: int, c: char)
    requires
        0 <= cursor <= text.len(),
    ensures
        text.insert(cursor, c).remove((cursor + 1) - 1) == text,
        (cursor + 1) - 1 == cursor,
{
    assert(text.insert(cursor, c).remove(cursor) =~= text);
}

} // verus!
