//! The key-event model the core routes on: a logical key code plus modifier
//! flags. The terminal layer translates its own events into these.

use vstd::prelude::*;

verus! {

/// A logical key code.
#[derive(Clone, Copy, PartialEq, Eq, Structural, Debug)]
pub enum KeyCode {
    Char(char),
    Backspace,
    Delete,
    Left,
    Right,
    Home,
    End,
    Up,
    Down,
    PageUp,
    PageDown,
    Tab,
    Other,
}

/// One key press: the code and the modifiers held with it.
#[derive(Clone, Copy, PartialEq, Eq, Structural, Debug)]
pub struct KeyInput {
    pub code: KeyCode,
    pub ctrl: bool,
    pub alt: bool,
    pub shift: bool,
    pub super_key: bool,
}

impl KeyInput {
    /// No modifier is held.
    pub open spec fn no_mods(self) -> bool {
        !self.ctrl && !self.alt && !self.shift && !self.super_key
    }

    /// Exactly Control is held.
    pub open spec fn ctrl_only(self) -> bool {
        self.ctrl && !self.alt && !self.shift && !self.super_key
    }

    /// Exactly one of Control, Shift or Super is held: the chords that walk
    /// the focus ring backward.
    pub open spec fn prev_mods(self) -> bool {
        !self.alt && ((self.ctrl && !self.shift && !self.super_key) || (!self.ctrl && self.shift
            && !self.super_key) || (!self.ctrl && !self.shift && self.super_key))
    }

    pub fn is_no_mods(&self) -> (r: bool)
        ensures
            r == self.no_mods(),
    {
        !self.ctrl && !self.alt && !self.shift && !self.super_key
    }

    pub fn is_ctrl_only(&self) -> (r: bool)
        ensures
            r == self.ctrl_only(),
    {
        self.ctrl && !self.alt && !self.shift && !self.super_key
    }

    pub fn is_prev_mods(&self) -> (r: bool)
        ensures
            r == self.prev_mods(),
    {
        !self.alt && ((self.ctrl && !self.shift && !self.super_key) || (!self.ctrl && self.shift
            && !self.super_key) || (!self.ctrl && !self.shift && self.super_key))
    }
}

} // verus!
