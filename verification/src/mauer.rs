use vstd::prelude::*;

pub mod block;
pub mod block_map;
pub mod equation;
pub mod grid;
pub mod laws;
pub mod pascal;
pub mod propagation;

pub use block::Block;
pub use block_map::{BlockMap, Position};

verus! {

use crate::mauer::grid::{lemma_count_bounded, triangle, Grid};
use crate::mauer::propagation::Swept;

/// Why a wall refuses a request.
#[derive(Debug, Copy, Clone, PartialEq, Eq, Structural)]
pub enum WallError {
    /// A wall needs at least one row.
    InvalidSize,
    /// The position names no cell of the wall.
    InvalidPosition,
    /// The cell already holds another value.
    ValueConflict,
    /// Two of a cell's sources (its own value and the three rules) disagree.
    Contradiction,
}

/// How solving ended.
#[derive(Debug, Copy, Clone, PartialEq, Eq, Structural)]
pub enum SolveStatus {
    /// Every cell holds a value and no cell's sources disagree.
    Solved,
    /// Cells are left without a value and nothing more can be derived.
    Stuck,
    /// The values contradict each other.
    Contradiction,
}

impl Grid {
    /// How solving ends once propagation has come to rest.
    pub open spec fn status(swept: Swept) -> SolveStatus {
        if swept.conflict {
            SolveStatus::Contradiction
        } else if swept.grid.solved() {
            SolveStatus::Solved
        } else {
            SolveStatus::Stuck
        }
    }

    /// The wall solved as far as deduction goes, and how that ended.
    ///
    /// Values are propagated until nothing changes. If cells are then left
    /// without a value and exactly one of them is in the bottom row, that
    /// cell's equation is solved; where it has a solution, the value is put
    /// into the cell and propagation runs once more.
    pub open spec fn solve(self) -> (Grid, SolveStatus) {
        let first = self.propagate();
        if Self::status(first) != SolveStatus::Stuck || first.grid.bottom_missing() != 1 {
            (first.grid, Self::status(first))
        } else {
            let missing = first.grid.missing_bottom();
            match first.grid.equation(missing).1 {
                None => (first.grid, SolveStatus::Stuck),
                Some(value) => {
                    let second = first.grid.with(missing, value).propagate();
                    (second.grid, Self::status(second))
                },
            }
        }
    }
}

/// A number wall: a triangle of cells in which every cell that has two cells
/// below it is their sum.
pub struct Mauer {
    blocks: BlockMap,
}

impl Mauer {
    /// The wall as it stands.
    pub closed spec fn view(&self) -> Grid {
        self.blocks@
    }

    /// A wall of `rows` rows in which no cell holds a value.
    pub fn new(rows: usize) -> (r: Result<Self, WallError>)
        requires
            triangle(rows as int) <= usize::MAX,
        ensures
            r is Err <==> rows == 0,
            r matches Err(e) ==> e == WallError::InvalidSize,
            r matches Ok(m) ==> {
                &&& m@ == Grid::empty(rows as nat)
                &&& m@.wf()
                &&& m@.value_count() == 0
                &&& !m@.solved()
            },
    {
        match BlockMap::new(rows) {
            Ok(blocks) => Ok(Self { blocks }),
            Err(e) => Err(e),
        }
    }

    /// The number of rows.
    pub fn rows(&self) -> (n: usize)
        ensures
            self@.wf(),
            n == self@.rows,
    {
        self.blocks.rows()
    }

    /// The value of the cell `pos`; nothing where the cell holds none or
    /// `pos` is no cell of the wall.
    pub fn get(&self, pos: &Position) -> (r: Option<isize>)
        ensures
            self@.wf(),
            r == self@.at(*pos),
    {
        self.blocks.get(pos)
    }

    /// Puts `value` into the cell `pos`. A cell that already holds `value`
    /// stays as it is; one that holds another value is not overwritten.
    pub fn set(&mut self, pos: Position, value: isize) -> (r: Result<(), WallError>)
        ensures
            old(self)@.wf(),
            final(self)@.wf(),
            r == old(self)@.set_outcome(pos, value),
            r is Ok ==> final(self)@ == old(self)@.with(pos, value),
            r is Err ==> final(self)@ == old(self)@,
    {
        self.blocks.set(pos, value)
    }

    /// Whether every cell holds a value.
    pub fn solved(&self) -> (b: bool)
        ensures
            self@.wf(),
            b == self@.solved(),
    {
        self.blocks.solved()
    }

    /// Solves the wall as far as deduction goes and says how that ended.
    ///
    /// Values are propagated until nothing changes. If cells are then left
    /// without a value and exactly one of them is in the bottom row, that
    /// cell's equation is solved; where it has a solution, the value is put
    /// into the cell and propagation runs once more.
    ///
    /// No value that the wall held is changed. A wall reported as solved is
    /// a finished wall; one reported as stuck has a cell without a value and
    /// is at rest: the rules yield nothing more; one reported as
    /// contradictory has a cell whose sources disagree.
    pub fn solve(&mut self) -> (status: SolveStatus)
        ensures
            old(self)@.wf(),
            final(self)@.wf(),
            (final(self)@, status) == old(self)@.solve(),
            final(self)@.extends(old(self)@),
            status == SolveStatus::Solved ==> final(self)@.complete(),
            status == SolveStatus::Stuck ==> !final(self)@.solved() && final(self)@.at_rest(),
            status == SolveStatus::Contradiction ==> exists|p: Position|
                final(self)@.contains(p) && #[trigger] final(self)@.block(p).contradicts(),
    {
        let status = if self.calc_possible().is_err() {
            SolveStatus::Contradiction
        } else if self.blocks.solved() {
            SolveStatus::Solved
        } else if self.blocks.bottom_lane_value_count() != 1 {
            SolveStatus::Stuck
        } else {
            // only one value missing
            let bottom_lane = self.blocks.bottom_lane();
            let mut missing_pos = Position::new(self.blocks.rows(), 0);
            let mut j: usize = 0;
            while j < bottom_lane.len()
                invariant
                    self@.wf(),
                    j <= bottom_lane@.len(),
                    bottom_lane@.len() == self@.rows,
                    forall|k: int|
                        0 <= k < bottom_lane@.len() ==> (#[trigger] bottom_lane@[k]) == (
                            self@.bottom(k + 1),
                            self@.at(self@.bottom(k + 1)),
                        ),
                    missing_pos == self@.bottom(self@.missing_column_upto(j as nat) as int),
                decreases bottom_lane@.len() - j,
            {
                let (pos, value) = bottom_lane[j];
                if value.is_none() {
                    missing_pos = pos;
                }
                j = j + 1;
            }
            // a known cell above it anchors an equation for it
            match self.blocks.bottom_equation(missing_pos) {
                (pos, Some(value)) => {
                    let _ = self.blocks.set(pos, value);
                    proof {
                        self.blocks@.lemma_bottom_missing_column();
                    }
                    if self.calc_possible().is_err() {
                        SolveStatus::Contradiction
                    } else if self.blocks.solved() {
                        SolveStatus::Solved
                    } else {
                        SolveStatus::Stuck
                    }
                },
                _ => SolveStatus::Stuck,
            }
        };
        proof {
            old(self)@.lemma_solve();
            if status == SolveStatus::Solved {
                old(self)@.lemma_solved_is_complete();
            }
        }
        status
    }

    /// Sweeps until a sweep changes nothing or finds a contradiction.
    fn calc_possible(&mut self) -> (r: Result<(), WallError>)
        ensures
            old(self)@.wf(),
            final(self)@.wf(),
            final(self)@ == old(self)@.propagate().grid,
            r is Err <==> old(self)@.propagate().conflict,
            r matches Err(e) ==> e == WallError::Contradiction,
    {
        let mut value_count = self.blocks.value_count();
        loop
            invariant
                old(self)@.wf(),
                self@.wf(),
                value_count == self@.value_count(),
                self@.propagate() == old(self)@.propagate(),
            decreases self@.size() - self@.value_count(),
        {
            let ghost before = self@;
            match self.blocks.calc_all() {
                Err(e) => {
                    return Err(e);
                },
                Ok(()) => {},
            }
            let new_value_count = self.blocks.value_count();
            proof {
                self@.lemma_extends_count(before);
                lemma_count_bounded(self@.cells);
            }
            if value_count == new_value_count {
                return Ok(());
            }
            value_count = new_value_count;
        }
    }
}

} // verus!
