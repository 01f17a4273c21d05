use vstd::prelude::*;

verus! {

use crate::wall::binomial::binomial;
use crate::wall::position::Position;
use crate::wall::{n_choose_k, n_choose_k_fits};

/// A cell of a wall that knows its weight: the binomial coefficient of its
/// position.
pub struct Cell {
    pos: Position,
    nck: usize,
    value: Option<isize>,
}

impl Cell {
    #[verifier::type_invariant]
    spec fn inv(self) -> bool {
        self.nck == binomial(self.pos.row as nat, self.pos.col as nat)
    }

    /// Where the cell stands.
    pub closed spec fn spec_pos(&self) -> Position {
        self.pos
    }

    /// The cell's weight.
    pub closed spec fn spec_nck(&self) -> usize {
        self.nck
    }

    /// What the cell holds.
    pub closed spec fn spec_value(&self) -> Option<isize> {
        self.value
    }

    /// The cell at `pos` holding `value`.
    pub fn new(pos: Position, value: Option<isize>) -> (cell: Self)
        requires
            pos.col <= pos.row,
            n_choose_k_fits(pos.row as nat, pos.col as nat),
        ensures
            cell.spec_pos() == pos,
            cell.spec_value() == value,
            cell.spec_nck() == binomial(pos.row as nat, pos.col as nat),
    {
        let n = pos.row as usize;
        let k = pos.col as usize;
        let nck = n_choose_k(n, k);

        Self { pos, nck, value }
    }

    /// Puts `value` into a cell that holds none. A cell that holds `value`
    /// already stays as it is; one that holds another value keeps it and
    /// hands it back as the error.
    pub fn set(&mut self, value: isize) -> (r: Result<(), isize>)
        ensures
            final(self).spec_pos() == old(self).spec_pos(),
            final(self).spec_nck() == old(self).spec_nck(),
            match old(self).spec_value() {
                Some(actual_value) => {
                    &&& final(self).spec_value() == Some(actual_value)
                    &&& actual_value == value ==> r is Ok
                    &&& actual_value != value ==> r == Err::<(), isize>(actual_value)
                },
                None => final(self).spec_value() == Some(value) && r is Ok,
            },
    {
        proof {
            use_type_invariant(&*self);
        }
        if let Some(actual_value) = self.value {
            if actual_value != value {
                return Err(actual_value);
            }
        } else {
            self.value = Some(value);
        }

        Ok(())
    }

    /// Where the cell stands.
    #[verifier::when_used_as_spec(spec_pos)]
    pub fn pos(&self) -> (p: Position)
        ensures
            p == self.spec_pos(),
    {
        self.pos
    }

    /// The cell's weight: its row choose its column.
    #[verifier::when_used_as_spec(spec_nck)]
    pub fn nck(&self) -> (n: usize)
        ensures
            n == self.spec_nck(),
            n == binomial(self.spec_pos().row as nat, self.spec_pos().col as nat),
    {
        proof {
            use_type_invariant(self);
        }
        self.nck
    }

    /// What the cell holds.
    #[verifier::when_used_as_spec(spec_value)]
    pub fn value(&self) -> (v: Option<isize>)
        ensures
            v == self.spec_value(),
    {
        self.value
    }
}

impl Default for Cell {
    /// The cell at the top of the triangle, holding nothing.
    fn default() -> (cell: Self)
        ensures
            cell.spec_pos() == (Position { row: 0, col: 0 }),
            cell.spec_nck() == 1,
            cell.spec_value() is None,
    {
        Self { pos: Position::default(), nck: 1, value: None }
    }
}

} // verus!
