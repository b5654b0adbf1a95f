//! The query editor widget: a prompt, an editable buffer, focus and
//! validity flags, and the styled rendering of its content with a caret.

use vstd::prelude::*;

use crate::buffer::TextEditBuffer;
use crate::focus::Selected;
use crate::keys::{KeyCode, KeyInput};
use crate::render::{frag, Fragment, SpecFrag, StyleRole, StyledLine};
use crate::text::{chars_range, str_to_chars};

verus! {

/// The single-line query editor.
pub struct Input {
    pub prompt: Vec<char>,
    pub buffer: TextEditBuffer,
    pub selected: bool,
    pub is_valid: bool,
}

/// The buffer text and cursor after one key, when the editor has focus:
/// character keys insert at the cursor; Backspace and Delete remove around
/// it; arrows, Home/End and their Control chords move it; Control-L clears.
pub open spec fn text_after_key(text: Seq<char>, cursor: int, selected: bool, k: KeyInput) -> (
    Seq<char>,
    int,
) {
    if !selected {
        (text, cursor)
    } else {
        match k.code {
            KeyCode::Backspace => if cursor > 0 {
                (text.remove(cursor - 1), cursor - 1)
            } else {
                (text, cursor)
            },
            KeyCode::Delete => if cursor < text.len() {
                (text.remove(cursor), cursor)
            } else {
                (text, cursor)
            },
            KeyCode::Left => if cursor > 0 {
                (text, cursor - 1)
            } else {
                (text, cursor)
            },
            KeyCode::Right => if cursor < text.len() {
                (text, cursor + 1)
            } else {
                (text, cursor)
            },
            KeyCode::Home => (text, 0int),
            KeyCode::End => (text, text.len() as int),
            KeyCode::Char(c) => if k.ctrl_only() && (c == 'a' || c == 'A') {
                (text, 0int)
            } else if k.ctrl_only() && (c == 'e' || c == 'E') {
                (text, text.len() as int)
            } else if k.ctrl_only() && (c == 'l' || c == 'L') {
                (Seq::empty(), 0int)
            } else {
                (text.insert(cursor, c), cursor + 1)
            },
            _ => (text, cursor),
        }
    }
}

/// The styled content of the editor line: the text in the default role, and,
/// when focused, a cursor-highlighted fragment at the cursor position (a
/// highlighted space when the cursor sits past the end).
pub open spec fn render_input_line(text: Seq<char>, cursor: int, selected: bool) -> Seq<SpecFrag> {
    if !selected {
        seq![frag(text, StyleRole::Default)]
    } else if text.len() == 0 {
        seq![frag(seq![' '], StyleRole::Cursor)]
    } else if cursor == text.len() {
        seq![frag(text, StyleRole::Default), frag(seq![' '], StyleRole::Cursor)]
    } else {
        seq![
            frag(text.subrange(0, cursor), StyleRole::Default),
            frag(text.subrange(cursor, cursor + 1), StyleRole::Cursor),
            frag(text.subrange(cursor + 1, text.len() as int), StyleRole::Default),
        ]
    }
}

impl Input {
    pub open spec fn wf(self) -> bool {
        self.buffer.wf()
    }

    /// A fresh editor seeded with `default`, cursor at its end, unfocused
    /// and marked valid.
    pub fn new(prompt: &str, default: &str) -> (r: Input)
        ensures
            r.prompt@ == prompt@,
            r.buffer.text@ == default@,
            r.buffer.cursor == default@.len(),
            !r.selected,
            r.is_valid,
            r.wf(),
    {
        let p = str_to_chars(prompt);
        let d = str_to_chars(default);
        Input { prompt: p, buffer: TextEditBuffer::with_text(d), selected: false, is_valid: true }
    }

    /// The current query text.
    pub fn value(&self) -> (r: &Vec<char>)
        ensures
            r@ == self.buffer.text@,
    {
        &self.buffer.text
    }

    /// Focus the editor exactly when the editor pane is the selected one.
    pub fn set_selected(&mut self, selected: &Selected)
        ensures
            final(self).selected == (*selected == Selected::Input),
            final(self).prompt == old(self).prompt,
            final(self).buffer == old(self).buffer,
            final(self).is_valid == old(self).is_valid,
    {
        match selected {
            Selected::Input => {
                self.selected = true;
            },
            _ => {
                self.selected = false;
            },
        }
    }

    /// Record whether the last filter evaluation succeeded; advisory only.
    pub fn set_valid(&mut self, is_valid: bool)
        ensures
            final(self).is_valid == is_valid,
            final(self).prompt == old(self).prompt,
            final(self).buffer == old(self).buffer,
            final(self).selected == old(self).selected,
    {
        self.is_valid = is_valid;
    }

    /// Apply one key to the buffer; a no-op unless the editor has focus.
    pub fn handle_event(&mut self, k: &KeyInput)
        requires
            old(self).wf(),
        ensures
            ({
                let (t, c) = text_after_key(
                    old(self).buffer.text@,
                    old(self).buffer.cursor as int,
                    old(self).selected,
                    *k,
                );
                final(self).buffer.text@ == t && final(self).buffer.cursor == c
            }),
            final(self).prompt == old(self).prompt,
            final(self).selected == old(self).selected,
            final(self).is_valid == old(self).is_valid,
            final(self).wf(),
    {
        if !self.selected {
            return ;
        }
        match k.code {
            KeyCode::Backspace => self.buffer.delete_before(),
            KeyCode::Delete => self.buffer.delete_at(),
            KeyCode::Left => self.buffer.move_left(),
            KeyCode::Right => self.buffer.move_right(),
            KeyCode::Home => self.buffer.move_home(),
            KeyCode::End => self.buffer.move_end(),
            KeyCode::Char(c) => {
                let ctrl_only = self.ctrl_only_key(k);
                if ctrl_only && (c == 'a' || c == 'A') {
                    self.buffer.move_home();
                } else if ctrl_only && (c == 'e' || c == 'E') {
                    self.buffer.move_end();
                } else if ctrl_only && (c == 'l' || c == 'L') {
                    self.buffer.clear();
                } else {
                    self.buffer.insert(c);
                }
            },
            _ => {},
        }
    }

    fn ctrl_only_key(&self, k: &KeyInput) -> (r: bool)
        ensures
            r == k.ctrl_only(),
    {
        k.is_ctrl_only()
    }

    /// The styled editor line, with the caret fragment when focused.
    pub fn render_content(&self) -> (r: StyledLine)
        requires
            self.wf(),
        ensures
            r@ == render_input_line(self.buffer.text@, self.buffer.cursor as int, self.selected),
    {
        let n = self.buffer.text.len();
        let mut frags: Vec<Fragment> = Vec::new();
        if !self.selected {
            let t = chars_range(&self.buffer.text, 0, n);
            proof {
                assert(t@ =~= self.buffer.text@);
            }
            frags.push(Fragment { text: t, role: StyleRole::Default });
        } else if n == 0 {
            let mut sp: Vec<char> = Vec::new();
            sp.push(' ');
            proof {
                assert(sp@ =~= seq![' ']);
            }
            frags.push(Fragment { text: sp, role: StyleRole::Cursor });
        } else if self.buffer.cursor == n {
            let t = chars_range(&self.buffer.text, 0, n);
            proof {
                assert(t@ =~= self.buffer.text@);
            }
            frags.push(Fragment { text: t, role: StyleRole::Default });
            let mut sp: Vec<char> = Vec::new();
            sp.push(' ');
            proof {
                assert(sp@ =~= seq![' ']);
            }
            frags.push(Fragment { text: sp, role: StyleRole::Cursor });
        } else {
            let c = self.buffer.cursor;
            let pre = chars_range(&self.buffer.text, 0, c);
            frags.push(Fragment { text: pre, role: StyleRole::Default });
            let at = chars_range(&self.buffer.text, c, c + 1);
            frags.push(Fragment { text: at, role: StyleRole::Cursor });
            let post = chars_range(&self.buffer.text, c + 1, n);
            frags.push(Fragment { text: post, role: StyleRole::Default });
        }
        let line = StyledLine { frags };
        proof {
            assert(line@ =~= render_input_line(
                self.buffer.text@,
                self.buffer.cursor as int,
                self.selected,
            ));
        }
        line
    }
}

} // verus!
