//! The interactive session core: the focus ring plus the orchestrator, and
//! the routing of one key event to quit, focus rotation, the editor, or the
//! focused pane. The surrounding loop reads events, runs the filter engine
//! when asked to, and paints; every decision is made here.

use vstd::prelude::*;

use crate::codec::parse_text;
use crate::focus::Selected;
use crate::input::{text_after_key, Input};
use crate::jq::{jq_with_selected, Jq};
use crate::keys::{KeyCode, KeyInput};
use crate::pane::{viewport_after_key, Json};

verus! {

broadcast use vstd::std_specs::vec::group_vec_axioms;

/// What the surrounding loop must do after a key was handled.
#[derive(Clone, Copy, PartialEq, Eq, Structural, Debug)]
pub enum SessionAction {
    /// Leave the run loop.
    Quit,
    /// The editor may have changed: re-run the filter and hand the outcome
    /// to [`Jq::apply_filter`].
    Refilter,
    /// Nothing to do beyond repainting.
    Continue,
}

/// Which of the three routes a key takes. A re-evaluation is owed exactly
/// when the key, routed to the editor, changed the buffer text — cursor
/// moves and pane scrolling never re-run the filter.
pub open spec fn key_action(s: Session, k: KeyInput) -> SessionAction {
    if k.ctrl_only() && k.code == KeyCode::Char('c') {
        SessionAction::Quit
    } else if k.code == KeyCode::Tab && (k.no_mods() || k.prev_mods()) {
        SessionAction::Continue
    } else if s.selected == Selected::Input && text_after_key(
        s.jq.input.buffer.text@,
        s.jq.input.buffer.cursor as int,
        s.jq.input.selected,
        k,
    ).0 != s.jq.input.buffer.text@ {
        SessionAction::Refilter
    } else {
        SessionAction::Continue
    }
}

/// The whole interactive state: the orchestrator and the focus ring.
pub struct Session {
    pub jq: Jq,
    pub selected: Selected,
}

impl Session {
    pub open spec fn wf(self) -> bool {
        self.jq.wf()
    }

    /// Start a session over the loaded document text, focus on the editor.
    /// `None` when the document is not valid JSON.
    pub fn new(json_text: &str) -> (r: Option<Session>)
        ensures
            r is Some <==> parse_text(json_text@) is Some,
            r matches Some(s) ==> {
                &&& s.wf()
                &&& s.selected == Selected::Input
                &&& s.jq.input.selected
                &&& s.jq.input.is_valid
                &&& s.jq.input.buffer.text@ == "."@
                &&& parse_text(json_text@) matches Some(v) && s.jq.json_base.raw@
                    == crate::codec::ser_value(v, 0, crate::pane::INDENT_STEP as nat)
                &&& s.jq.json_filtered.raw@ == Seq::<char>::empty()
                &&& !s.jq.need_to_clear
            },
    {
        match Jq::new(json_text) {
            None => None,
            Some(mut jq) => {
                jq.set_selected(&Selected::Input);
                Some(Session { jq, selected: Selected::Input })
            },
        }
    }

    /// Route one key event.
    ///
    /// `Ctrl+C` quits. `Tab` bare rotates focus forward; with exactly one of
    /// Control, Shift or Super it rotates backward. Every other key goes to
    /// the focused component: to the editor (whose mutation obliges a filter
    /// re-run, answered with `Refilter`) or to the focused pane's scroll
    /// state.
    pub fn handle_key(&mut self, k: &KeyInput) -> (r: SessionAction)
        requires
            old(self).wf(),
        ensures
            final(self).wf(),
            r == key_action(*old(self), *k),
            (k.ctrl_only() && k.code == KeyCode::Char('c')) ==> *final(self) == *old(self),
            (!(k.ctrl_only() && k.code == KeyCode::Char('c')) && k.code == KeyCode::Tab
                && k.no_mods()) ==> final(self).selected == old(self).selected.spec_next() && final(
                self).jq == jq_with_selected(old(self).jq, old(self).selected.spec_next()),
            (!(k.ctrl_only() && k.code == KeyCode::Char('c')) && k.code == KeyCode::Tab
                && k.prev_mods()) ==> final(self).selected == old(self).selected.spec_prev()
                && final(self).jq == jq_with_selected(old(self).jq, old(self).selected.spec_prev()),
            (!(k.ctrl_only() && k.code == KeyCode::Char('c')) && !(k.code == KeyCode::Tab && (
            k.no_mods() || k.prev_mods()))) ==> final(self).selected == old(self).selected && {
                let jq0 = old(self).jq;
                match old(self).selected {
                    Selected::Input => {
                        let (t, c) = text_after_key(
                            jq0.input.buffer.text@,
                            jq0.input.buffer.cursor as int,
                            jq0.input.selected,
                            *k,
                        );
                        &&& final(self).jq.input.buffer.text@ == t
                        &&& final(self).jq.input.buffer.cursor == c
                        &&& final(self).jq.input.prompt == jq0.input.prompt
                        &&& final(self).jq.input.selected == jq0.input.selected
                        &&& final(self).jq.input.is_valid == jq0.input.is_valid
                        &&& final(self).jq.json_base == jq0.json_base
                        &&& final(self).jq.json_filtered == jq0.json_filtered
                        &&& final(self).jq.need_to_clear == jq0.need_to_clear
                    },
                    Selected::JsonFiltered => final(self).jq == (Jq {
                        json_filtered: Json {
                            viewport: viewport_after_key(jq0.json_filtered.viewport, k.code),
                            ..jq0.json_filtered
                        },
                        ..jq0
                    }),
                    Selected::JsonBase => final(self).jq == (Jq {
                        json_base: Json {
                            viewport: viewport_after_key(jq0.json_base.viewport, k.code),
                            ..jq0.json_base
                        },
                        ..jq0
                    }),
                }
            },
    {
        if k.is_ctrl_only() && matches!(k.code, KeyCode::Char(c) if c == 'c') {
            return SessionAction::Quit;
        }
        if matches!(k.code, KeyCode::Tab) {
            if k.is_no_mods() {
                self.selected.next();
                self.jq.set_selected(&self.selected);
                return SessionAction::Continue;
            }
            if k.is_prev_mods() {
                self.selected.prev();
                self.jq.set_selected(&self.selected);
                return SessionAction::Continue;
            }
        }
        match self.selected {
            Selected::Input => {
                let changed = self.editing_key_changes_text(k);
                self.jq.input.handle_event(k);
                if changed {
                    SessionAction::Refilter
                } else {
                    SessionAction::Continue
                }
            },
            Selected::JsonFiltered => {
                self.jq.json_filtered.handle_event(k);
                SessionAction::Continue
            },
            Selected::JsonBase => {
                self.jq.json_base.handle_event(k);
                SessionAction::Continue
            },
        }
    }

    /// Whether `k` will leave the editor buffer with different text.
    fn editing_key_changes_text(&self, k: &KeyInput) -> (r: bool)
        requires
            self.wf(),
        ensures
            r == (text_after_key(
                self.jq.input.buffer.text@,
                self.jq.input.buffer.cursor as int,
                self.jq.input.selected,
                *k,
            ).0 != self.jq.input.buffer.text@),
    {
        if !self.jq.input.selected {
            return false;
        }
        let cursor = self.jq.input.buffer.cursor;
        let len = self.jq.input.buffer.text.len();
        match k.code {
            KeyCode::Backspace => {
                proof {
                    if cursor > 0 {
                        assert(self.jq.input.buffer.text@.remove(cursor - 1).len() != len);
                    }
                }
                cursor > 0
            },
            KeyCode::Delete => {
                proof {
                    if cursor < len {
                        assert(self.jq.input.buffer.text@.remove(cursor as int).len() != len);
                    }
                }
                cursor < len
            },
            KeyCode::Char(c) => {
                let co = k.is_ctrl_only();
                if co && (c == 'a' || c == 'A' || c == 'e' || c == 'E') {
                    false
                } else if co && (c == 'l' || c == 'L') {
                    proof {
                        if len == 0 {
                            assert(self.jq.input.buffer.text@ =~= Seq::<char>::empty());
                        }
                    }
                    len > 0
                } else {
                    proof {
                        assert(self.jq.input.buffer.text@.insert(cursor as int, c).len() != len);
                    }
                    true
                }
            },
            _ => false,
        }
    }
}

} // verus!
