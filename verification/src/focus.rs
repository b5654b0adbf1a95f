//! The three-state focus ring: which pane receives key events.

use vstd::prelude::*;

verus! {

/// Which component currently has focus: the query editor, the filtered-result
/// pane, or the base-document pane. Focus moves along the fixed ring
/// `Input -> JsonFiltered -> JsonBase -> Input`.
#[derive(Clone, Copy, PartialEq, Eq, Structural, Debug)]
pub enum Selected {
    Input,
    JsonFiltered,
    JsonBase,
}

impl Selected {
    /// The successor in the ring order.
    pub open spec fn spec_next(self) -> Selected {
        match self {
            Selected::Input => Selected::JsonFiltered,
            Selected::JsonFiltered => Selected::JsonBase,
            Selected::JsonBase => Selected::Input,
        }
    }

    /// The predecessor in the ring order.
    pub open spec fn spec_prev(self) -> Selected {
        match self {
            Selected::Input => Selected::JsonBase,
            Selected::JsonFiltered => Selected::Input,
            Selected::JsonBase => Selected::JsonFiltered,
        }
    }

    /// Rotate focus forward through the ring.
    pub fn next(&mut self)
        ensures
            *final(self) == old(self).spec_next(),
    {
        *self = match *self {
            Selected::Input => Selected::JsonFiltered,
            Selected::JsonFiltered => Selected::JsonBase,
            Selected::JsonBase => Selected::Input,
        };
    }

    /// Rotate focus backward through the ring.
    pub fn prev(&mut self)
        ensures
            *final(self) == old(self).spec_prev(),
    {
        *self = match *self {
            Selected::Input => Selected::JsonBase,
            Selected::JsonFiltered => Selected::Input,
            Selected::JsonBase => Selected::JsonFiltered,
        };
    }
}

/// Three forward rotations return focus to where it started.
pub proof fn lemma_next_cycles_in_three(s: Selected)
    ensures
        s.spec_next().spec_next().spec_next() == s,
{
}

/// Forward and backward rotation are exact inverses.
pub proof fn lemma_next_prev_inverse(s: Selected)
    ensures
        s.spec_next().spec_prev() == s,
        s.spec_prev().spec_next() == s,
{
}

} // verus!
