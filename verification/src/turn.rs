use vstd::prelude::*;

verus! {

/// A position in the round's priority ring: whose turn it is within the
/// current phase cycle.
#[derive(Clone, Copy, PartialEq, Eq, Structural, Debug)]
pub enum Turn {
    Prio1,
    Prio2,
    Prio3,
    Prio4,
}

impl Turn {
    /// The zero-based index of the priority position.
    pub open spec fn spec_idx(self) -> int {
        match self {
            Turn::Prio1 => 0,
            Turn::Prio2 => 1,
            Turn::Prio3 => 2,
            Turn::Prio4 => 3,
        }
    }

    /// The following position, wrapping from the last back to the first.
    pub open spec fn spec_next(self) -> Turn {
        match self {
            Turn::Prio1 => Turn::Prio2,
            Turn::Prio2 => Turn::Prio3,
            Turn::Prio3 => Turn::Prio4,
            Turn::Prio4 => Turn::Prio1,
        }
    }

    pub fn idx(&self) -> (r: usize)
        ensures
            r as int == self.spec_idx(),
            r < 4,
    {
        match self {
            Turn::Prio1 => 0,
            Turn::Prio2 => 1,
            Turn::Prio3 => 2,
            Turn::Prio4 => 3,
        }
    }

    /// Advances the turn by exactly one position, wrapping around.
    pub fn advance(&mut self)
        ensures
            *final(self) == old(self).spec_next(),
            final(self).spec_idx() == (old(self).spec_idx() + 1) % 4,
    {
        *self = match self {
            Turn::Prio1 => Turn::Prio2,
            Turn::Prio2 => Turn::Prio3,
            Turn::Prio3 => Turn::Prio4,
            Turn::Prio4 => Turn::Prio1,
        };
    }
}

} // verus!
