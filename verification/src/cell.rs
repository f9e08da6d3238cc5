use vstd::prelude::*;

verus! {

/// Liveness of a single grid cell.
#[derive(Clone, Copy, PartialEq, Eq, Structural, Debug)]
pub enum CellState {
    Dead,
    Live,
}

/// One grid cell: its current liveness plus the transient neighbor-touch
/// counter accumulated during a generation's touch phase and consumed (and
/// reset) by the commit phase.
#[derive(Clone, Copy, Debug)]
pub struct Cell {
    pub state: CellState,
    pub count: usize,
}

/// The per-cell transition rule: a touch count of exactly 3 makes the cell
/// live, a count of exactly 2 preserves its current liveness, and any other
/// count leaves it dead.
pub open spec fn next_live(live: bool, touches: nat) -> bool {
    touches == 3 || (touches == 2 && live)
}

impl Cell {
    /// Whether the cell is currently live.
    pub open spec fn live(self) -> bool {
        self.state == CellState::Live
    }

    /// The neighbor-touch counter accumulated so far this generation.
    pub open spec fn touches(self) -> nat {
        self.count as nat
    }

    /// A fresh cell: dead, with no touches recorded.
    pub fn new() -> (c: Cell)
        ensures
            !c.live(),
            c.touches() == 0,
    {
        Cell { state: CellState::Dead, count: 0 }
    }

    /// Record that one live neighbor was seen. The board guarantees at most
    /// nine touches per cell per generation (eight neighbors plus a transient
    /// self-touch), so the counter never needs to grow past nine.
    pub fn touch(&mut self)
        requires
            old(self).touches() < 9,
        ensures
            final(self).touches() == old(self).touches() + 1,
            final(self).live() == old(self).live(),
    {
        self.count = self.count + 1;
    }

    /// Retract one previously recorded touch; used to cancel a live cell's
    /// self-touch. Calling it on a cell with no recorded touches would be a
    /// board logic defect, so that case is excluded outright.
    pub fn untouch(&mut self)
        requires
            old(self).touches() >= 1,
        ensures
            final(self).touches() == old(self).touches() - 1,
            final(self).live() == old(self).live(),
    {
        self.count = self.count - 1;
    }

    /// Whether the cell is currently live.
    pub fn is_live(&self) -> (r: bool)
        ensures
            r == self.live(),
    {
        self.state == CellState::Live
    }

    /// Apply the transition rule to the accumulated touch count, then reset
    /// the count for the next generation.
    pub fn commit_state(&mut self)
        ensures
            final(self).touches() == 0,
            final(self).live() == next_live(old(self).live(), old(self).touches()),
    {
        self.state = match self.count {
            3 => CellState::Live,
            2 => self.state,
            _ => CellState::Dead,
        };
        self.count = 0;
    }

    /// Directly override the cell's liveness; used only for initial seeding.
    pub fn set_state(&mut self, state: CellState)
        ensures
            final(self).live() == (state == CellState::Live),
            final(self).touches() == old(self).touches(),
    {
        self.state = state;
    }
}

} // verus!
