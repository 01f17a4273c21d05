use vstd::prelude::*;

verus! {

use crate::mauer::block::{number128, Block};
use crate::mauer::grid::{
    count_known, lemma_triangle_monotonic, lemma_triangle_step, triangle, Grid,
};
use crate::mauer::propagation::Swept;
use crate::mauer::WallError;
use vstd::arithmetic::div_mod::{lemma_fundamental_div_mod, lemma_fundamental_div_mod_converse};
use crate::wall::binomial::{
    factorial, lemma_binomial_positive, lemma_binomial_small, lemma_factorial_fits_64,
};
use crate::wall::{factorial_fits, n_choose_k};

/// A cell's coordinate: row, then column, both counted from one. Row `i`
/// has the columns `1..=i`.
#[derive(Debug, Copy, Clone, PartialOrd, Ord, PartialEq, Eq, Structural)]
pub struct Position(pub usize, pub usize);

impl Position {
    /// One row up, one column to the left; row and column stop at zero.
    pub open spec fn spec_top_left(&self) -> Position {
        Position(
            if self.0 > 0 { (self.0 - 1) as usize } else { 0 },
            if self.1 > 0 { (self.1 - 1) as usize } else { 0 },
        )
    }

    /// One row up, same column; the row stops at zero.
    pub open spec fn spec_top_right(&self) -> Position {
        Position(if self.0 > 0 { (self.0 - 1) as usize } else { 0 }, self.1)
    }

    /// Same row, one column to the left; the column stops at zero.
    pub open spec fn spec_left(&self) -> Position {
        Position(self.0, if self.1 > 0 { (self.1 - 1) as usize } else { 0 })
    }

    /// Same row, one column to the right; the column stops at `usize::MAX`.
    pub open spec fn spec_right(&self) -> Position {
        Position(self.0, if self.1 < usize::MAX { (self.1 + 1) as usize } else { usize::MAX })
    }

    /// One row down, same column; the row stops at `usize::MAX`.
    pub open spec fn spec_bottom_left(&self) -> Position {
        Position(if self.0 < usize::MAX { (self.0 + 1) as usize } else { usize::MAX }, self.1)
    }

    /// One row down, one column to the right; both stop at `usize::MAX`.
    pub open spec fn spec_bottom_right(&self) -> Position {
        Position(
            if self.0 < usize::MAX { (self.0 + 1) as usize } else { usize::MAX },
            if self.1 < usize::MAX { (self.1 + 1) as usize } else { usize::MAX },
        )
    }

    /// The position in row `row` and column `col`.
    pub fn new(row: usize, col: usize) -> (p: Self)
        ensures
            p == Position(row, col),
    {
        Self(row, col)
    }

    /// The top of every wall.
    pub fn _spire() -> (p: Self)
        ensures
            p == Position(1, 1),
    {
        Self(1, 1)
    }

    /// One row up, one column to the left; row and column stop at zero.
    #[verifier::when_used_as_spec(spec_top_left)]
    pub fn top_left(&self) -> (p: Self)
        ensures
            p == self.spec_top_left(),
    {
        Self(self.0.saturating_sub(1), self.1.saturating_sub(1))
    }

    /// One row up, same column; the row stops at zero.
    #[verifier::when_used_as_spec(spec_top_right)]
    pub fn top_right(&self) -> (p: Self)
        ensures
            p == self.spec_top_right(),
    {
        Self(self.0.saturating_sub(1), self.1)
    }

    /// Same row, one column to the left; the column stops at zero.
    #[verifier::when_used_as_spec(spec_left)]
    pub fn left(&self) -> (p: Self)
        ensures
            p == self.spec_left(),
    {
        Self(self.0, self.1.saturating_sub(1))
    }

    /// Same row, one column to the right; the column stops at `usize::MAX`.
    #[verifier::when_used_as_spec(spec_right)]
    pub fn right(&self) -> (p: Self)
        ensures
            p == self.spec_right(),
    {
        Self(self.0, self.1.saturating_add(1))
    }

    /// One row down, same column; the row stops at `usize::MAX`.
    #[verifier::when_used_as_spec(spec_bottom_left)]
    pub fn bottom_left(&self) -> (p: Self)
        ensures
            p == self.spec_bottom_left(),
    {
        Self(self.0.saturating_add(1), self.1)
    }

    /// One row down, one column to the right; both stop at `usize::MAX`.
    #[verifier::when_used_as_spec(spec_bottom_right)]
    pub fn bottom_right(&self) -> (p: Self)
        ensures
            p == self.spec_bottom_right(),
    {
        Self(self.0.saturating_add(1), self.1.saturating_add(1))
    }
}

/// The cells of a wall, stored row by row.
pub struct BlockMap {
    rows: usize,
    size: usize,
    cells: Vec<Option<isize>>,
}

impl BlockMap {
    #[verifier::type_invariant]
    spec fn inv(self) -> bool {
        &&& self.rows >= 1
        &&& self.size == triangle(self.rows as int)
        &&& self.cells@.len() == self.size
    }

    /// The wall that this map stores.
    pub closed spec fn view(&self) -> Grid {
        Grid { rows: self.rows as nat, cells: self.cells@ }
    }

    /// A wall of `rows` rows in which no cell holds a value.
    pub fn new(rows: usize) -> (r: Result<Self, WallError>)
        requires
            triangle(rows as int) <= usize::MAX,
        ensures
            r is Err <==> rows == 0,
            r matches Err(e) ==> e == WallError::InvalidSize,
            r matches Ok(m) ==> {
                &&& m@ == Grid::empty(rows as nat)
                &&& m@.wf()
                &&& m@.value_count() == 0
                &&& !m@.solved()
            },
    {
        if rows == 0 {
            return Err(WallError::InvalidSize);
        }
        let mut cells: Vec<Option<isize>> = Vec::new();
        let mut size: usize = 0;
        let mut done: usize = 0;
        while done < rows
            invariant
                done <= rows,
                triangle(rows as int) <= usize::MAX,
                size == triangle(done as int),
                cells@.len() == size,
                forall|k: int| 0 <= k < cells@.len() ==> (#[trigger] cells@[k]) is None,
            decreases rows - done,
        {
            proof {
                lemma_triangle_step(done as int);
                lemma_triangle_monotonic((done + 1) as int, rows as int);
            }
            let mut j: usize = 0;
            while j <= done
                invariant
                    j <= done + 1,
                    done < rows,
                    triangle(done as int) + done + 1 <= usize::MAX,
                    size == triangle(done as int) + j,
                    cells@.len() == size,
                    forall|k: int| 0 <= k < cells@.len() ==> (#[trigger] cells@[k]) is None,
                decreases done + 1 - j,
            {
                size = size + 1;
                cells.push(None);
                j = j + 1;
            }
            done = done + 1;
        }
        proof {
            assert(cells@ =~= Grid::empty(rows as nat).cells);
            Grid::lemma_empty(rows as nat);
        }
        Ok(Self { rows, size, cells })
    }

    /// The place of `pos` among the cells, if `pos` is a cell of the wall.
    fn index(&self, pos: &Position) -> (r: Option<usize>)
        ensures
            self@.wf(),
            r is Some <==> self@.contains(*pos),
            r matches Some(i) ==> i == Grid::index_of(*pos) && i < self@.size(),
    {
        proof {
            use_type_invariant(self);
        }
        if 1 <= pos.1 && pos.1 <= pos.0 && pos.0 <= self.rows {
            let above: u128 = (pos.0 - 1) as u128;
            let row: u128 = pos.0 as u128;
            assert(above * row <= 0xffff_ffff_ffff_ffff * 0xffff_ffff_ffff_ffff)
                by (nonlinear_arith)
                requires
                    0 <= above <= 0xffff_ffff_ffff_ffff,
                    0 <= row <= 0xffff_ffff_ffff_ffff,
            ;
            let offset: u128 = above * row / 2;
            proof {
                self@.lemma_index_in_range(*pos);
            }
            let i: u128 = offset + (pos.1 - 1) as u128;
            Some(i as usize)
        } else {
            None
        }
    }

    /// What the wall knows of `pos`: `None` where `pos` is no cell of the
    /// wall, `Some(None)` for a cell without a value.
    pub fn lookup(&self, pos: &Position) -> (r: Option<Option<isize>>)
        ensures
            self@.wf(),
            r == self@.lookup(*pos),
    {
        match self.index(pos) {
            Some(i) => {
                proof {
                    use_type_invariant(self);
                }
                Some(self.cells[i])
            },
            None => None,
        }
    }

    /// The value of the cell `pos`; nothing where the cell holds none or
    /// `pos` is no cell of the wall.
    pub fn get(&self, pos: &Position) -> (r: Option<isize>)
        ensures
            self@.wf(),
            r == self@.at(*pos),
    {
        match self.lookup(pos) {
            Some(value) => value,
            None => None,
        }
    }

    /// Puts `value` into the cell `pos`. A cell that already holds `value`
    /// stays as it is; one that holds another value is not overwritten.
    pub fn set(&mut self, pos: Position, value: isize) -> (r: Result<(), WallError>)
        ensures
            old(self)@.wf(),
            final(self)@.wf(),
            r == old(self)@.set_outcome(pos, value),
            r is Ok ==> final(self)@ == old(self)@.with(pos, value),
            r is Err ==> final(self)@ == old(self)@,
    {
        match self.index(&pos) {
            None => Err(WallError::InvalidPosition),
            Some(i) => {
                proof {
                    use_type_invariant(&*self);
                    self@.lemma_with(pos, value, pos);
                }
                match self.cells[i] {
                    Some(held) => {
                        if held == value {
                            Ok(())
                        } else {
                            Err(WallError::ValueConflict)
                        }
                    },
                    None => {
                        self.cells[i] = Some(value);
                        Ok(())
                    },
                }
            },
        }
    }

    /// How many cells hold a value.
    pub fn value_count(&self) -> (n: usize)
        ensures
            self@.wf(),
            n == self@.value_count(),
    {
        proof {
            use_type_invariant(self);
        }
        let mut n: usize = 0;
        let mut i: usize = 0;
        while i < self.cells.len()
            invariant
                i <= self.cells@.len(),
                n == count_known(self.cells@.take(i as int)),
                n <= i,
            decreases self.cells@.len() - i,
        {
            proof {
                assert(self.cells@.take(i + 1).drop_last() =~= self.cells@.take(i as int));
            }
            if self.cells[i].is_some() {
                n = n + 1;
            }
            i = i + 1;
        }
        proof {
            assert(self.cells@.take(i as int) =~= self.cells@);
        }
        n
    }

    /// Whether every cell holds a value.
    pub fn solved(&self) -> (b: bool)
        ensures
            self@.wf(),
            b == self@.solved(),
    {
        proof {
            use_type_invariant(self);
        }
        self.value_count() == self.size
    }

    /// The number of rows.
    pub fn rows(&self) -> (n: usize)
        ensures
            self@.wf(),
            n == self@.rows,
    {
        proof {
            use_type_invariant(self);
        }
        self.rows
    }

    /// The bottom row from left to right: each cell's position and what it
    /// holds.
    pub fn bottom_lane(&self) -> (lane: Vec<(Position, Option<isize>)>)
        ensures
            self@.wf(),
            lane@.len() == self@.rows,
            forall|j: int|
                0 <= j < lane@.len() ==> (#[trigger] lane@[j]) == (
                    self@.bottom(j + 1),
                    self@.at(self@.bottom(j + 1)),
                ),
    {
        let rows = self.rows();
        let mut lane: Vec<(Position, Option<isize>)> = Vec::new();
        let mut j: usize = 0;
        while j < rows
            invariant
                self@.wf(),
                rows == self@.rows,
                j <= rows,
                lane@.len() == j,
                forall|k: int|
                    0 <= k < lane@.len() ==> (#[trigger] lane@[k]) == (
                        self@.bottom(k + 1),
                        self@.at(self@.bottom(k + 1)),
                    ),
            decreases rows - j,
        {
            let pos = Position::new(rows, j + 1);
            lane.push((pos, self.get(&pos)));
            j = j + 1;
        }
        lane
    }

    /// How many cells of the bottom row hold no value.
    pub fn bottom_lane_value_count(&self) -> (n: usize)
        ensures
            self@.wf(),
            n == self@.bottom_missing(),
    {
        let rows = self.rows();
        let mut n: usize = 0;
        let mut j: usize = 0;
        while j < rows
            invariant
                self@.wf(),
                rows == self@.rows,
                j <= rows,
                n <= j,
                n == self@.bottom_missing_upto(j as nat),
            decreases rows - j,
        {
            j = j + 1;
            if self.get(&Position::new(rows, j)).is_none() {
                n = n + 1;
            }
        }
        n
    }

    /// The left edge from top to bottom: each cell's position and what it
    /// holds.
    pub fn _left_lane(&self) -> (lane: Vec<(Position, Option<isize>)>)
        ensures
            self@.wf(),
            lane@.len() == self@.rows,
            forall|j: int|
                0 <= j < lane@.len() ==> (#[trigger] lane@[j]) == (
                    Position((j + 1) as usize, 1),
                    self@.at(Position((j + 1) as usize, 1)),
                ),
    {
        let rows = self.rows();
        let mut lane: Vec<(Position, Option<isize>)> = Vec::new();
        let mut j: usize = 0;
        while j < rows
            invariant
                self@.wf(),
                rows == self@.rows,
                j <= rows,
                lane@.len() == j,
                forall|k: int|
                    0 <= k < lane@.len() ==> (#[trigger] lane@[k]) == (
                        Position((k + 1) as usize, 1),
                        self@.at(Position((k + 1) as usize, 1)),
                    ),
            decreases rows - j,
        {
            let pos = Position::new(j + 1, 1);
            lane.push((pos, self.get(&pos)));
            j = j + 1;
        }
        lane
    }

    /// The right edge from top to bottom: each cell's position and what it
    /// holds.
    pub fn _right_lane(&self) -> (lane: Vec<(Position, Option<isize>)>)
        ensures
            self@.wf(),
            lane@.len() == self@.rows,
            forall|j: int|
                0 <= j < lane@.len() ==> (#[trigger] lane@[j]) == (
                    Position((j + 1) as usize, (j + 1) as usize),
                    self@.at(Position((j + 1) as usize, (j + 1) as usize)),
                ),
    {
        let rows = self.rows();
        let mut lane: Vec<(Position, Option<isize>)> = Vec::new();
        let mut j: usize = 0;
        while j < rows
            invariant
                self@.wf(),
                rows == self@.rows,
                j <= rows,
                lane@.len() == j,
                forall|k: int|
                    0 <= k < lane@.len() ==> (#[trigger] lane@[k]) == (
                        Position((k + 1) as usize, (k + 1) as usize),
                        self@.at(Position((k + 1) as usize, (k + 1) as usize)),
                    ),
            decreases rows - j,
        {
            let pos = Position::new(j + 1, j + 1);
            lane.push((pos, self.get(&pos)));
            j = j + 1;
        }
        lane
    }

    /// The spire for the bottom cell `missing_pos`, with its value: of the
    /// cells above the bottom row that hold a value and cover the column of
    /// `missing_pos`, the one closest to the bottom row and, in its row, the
    /// rightmost. Nothing where `missing_pos` is no bottom cell or no cell
    /// qualifies.
    pub fn bottom_lane_spire(&self, missing_pos: Position) -> (r: Option<(Position, isize)>)
        ensures
            self@.wf(),
            match r {
                Some((p, v)) => self@.spire(missing_pos) == Some(p) && self@.at(p) == Some(v),
                None => self@.spire(missing_pos) is None,
            },
    {
        let rows = self.rows();
        if !(1 <= missing_pos.1 && missing_pos.1 <= missing_pos.0 && missing_pos.0 == rows) {
            return None;
        }
        let mut row: usize = rows - 1;
        while row >= 1
            invariant
                self@.wf(),
                rows == self@.rows,
                row < rows,
                self@.in_bottom_row(missing_pos),
                forall|q: Position| #[trigger] self@.is_spire(q, missing_pos) ==> q.0 <= row,
            decreases row,
        {
            let mut col: usize = row;
            while col >= 1
                invariant
                    self@.wf(),
                    rows == self@.rows,
                    1 <= row < rows,
                    col <= row,
                    self@.in_bottom_row(missing_pos),
                    forall|q: Position| #[trigger]
                        self@.is_spire(q, missing_pos) ==> q.0 < row || (q.0 == row && q.1
                            <= col),
                decreases col,
            {
                let pos = Position::new(row, col);
                if col <= missing_pos.1 && missing_pos.1 - col <= rows - row {
                    if let Some(value) = self.get(&pos) {
                        proof {
                            assert(self@.deepest_spire(pos, missing_pos));
                            let chosen = choose|p: Position| self@.deepest_spire(p, missing_pos);
                            self@.lemma_deepest_spire_unique(chosen, pos, missing_pos);
                        }
                        return Some((pos, value));
                    }
                }
                col = col - 1;
            }
            row = row - 1;
        }
        None
    }

    /// Solves the equation for the bottom cell `missing_pos`: names the cell
    /// and its value, the cell and nothing where the equation has no
    /// solution that can be computed, or the position `(0, 0)` where there is
    /// no equation.
    pub fn bottom_equation(&self, missing_pos: Position) -> (r: (Position, Option<isize>))
        ensures
            self@.wf(),
            r == self@.equation(missing_pos),
    {
        let rows = self.rows();
        let is_missing = match self.lookup(&missing_pos) {
            Some(None) => missing_pos.0 == rows,
            _ => false,
        };
        if !is_missing || self.bottom_lane_value_count() != 1 {
            return (Position::new(0, 0), None);
        }
        match self.bottom_lane_spire(missing_pos) {
            None => (Position::new(0, 0), None),
            Some((top, top_value)) => {
                let depth: usize = rows - top.0;
                if !factorial_fits(depth) {
                    return (missing_pos, None);
                }
                proof {
                    lemma_factorial_fits_64(depth as nat);
                }
                let mut known: i128 = 0;
                let mut j: usize = 0;
                while j <= depth
                    invariant
                        self@.wf(),
                        rows == self@.rows,
                        self@.contains(top),
                        depth == rows - top.0,
                        factorial(depth as nat) <= usize::MAX,
                        forall|k: nat| k <= depth ==> crate::wall::n_choose_k_fits(depth as nat, k),
                        j <= depth + 1,
                        depth <= 20,
                        known == self@.weighted_sum(
                            depth as nat,
                            top.1 as int,
                            j as nat,
                            missing_pos.1 as int,
                        ),
                        -(j * 0x8_0000_0000_0000_0000_0000) <= known <= j
                            * 0x8_0000_0000_0000_0000_0000,
                    decreases depth + 1 - j,
                {
                    let col: usize = top.1 + j;
                    if col != missing_pos.1 {
                        let weight = n_choose_k(depth, j);
                        let value: isize = match self.get(&Position::new(rows, col)) {
                            Some(v) => v,
                            None => 0,
                        };
                        proof {
                            lemma_binomial_small(depth as nat, j as nat);
                            assert(-0x8_0000_0000_0000_0000_0000 <= weight * value
                                <= 0x8_0000_0000_0000_0000_0000) by (nonlinear_arith)
                                requires
                                    0 <= weight <= 0x100000,
                                    -0x8000_0000_0000_0000 <= value <= 0x8000_0000_0000_0000,
                            ;
                        }
                        known = known + (weight as i128) * (value as i128);
                    }
                    j = j + 1;
                }
                let divisor = n_choose_k(depth, missing_pos.1 - top.1);
                proof {
                    lemma_binomial_positive(depth as nat, (missing_pos.1 - top.1) as nat);
                }
                let remainder: i128 = top_value as i128 - known;
                (missing_pos, exact_quotient(remainder, divisor))
            },
        }
    }

    /// Whether `pos` has no neighbour above it or beside it.
    pub fn _is_top(&self, pos: &Position) -> (b: bool)
        ensures
            self@.wf(),
            b == (self@.lookup(pos.top_left()) is None && self@.lookup(pos.top_right()) is None
                && self@.lookup(pos.left()) is None && self@.lookup(pos.right()) is None),
    {
        self.lookup(&pos.top_left()).is_none() && self.lookup(&pos.top_right()).is_none()
            && self.lookup(&pos.left()).is_none() && self.lookup(&pos.right()).is_none()
    }

    /// Whether `pos` has no neighbour on its left, above or beside.
    pub fn is_left(&self, pos: &Position) -> (b: bool)
        ensures
            self@.wf(),
            b == (self@.lookup(pos.top_left()) is None && self@.lookup(pos.left()) is None),
    {
        self.lookup(&pos.top_left()).is_none() && self.lookup(&pos.left()).is_none()
    }

    /// Whether `pos` has no neighbour on its right, above or beside.
    pub fn is_right(&self, pos: &Position) -> (b: bool)
        ensures
            self@.wf(),
            b == (self@.lookup(pos.top_right()) is None && self@.lookup(pos.right()) is None),
    {
        self.lookup(&pos.top_right()).is_none() && self.lookup(&pos.right()).is_none()
    }

    /// Whether `pos` has no neighbour below it.
    pub fn is_bottom(&self, pos: &Position) -> (b: bool)
        ensures
            self@.wf(),
            b == (self@.lookup(pos.bottom_left()) is None && self@.lookup(pos.bottom_right())
                is None),
    {
        self.lookup(&pos.bottom_left()).is_none() && self.lookup(&pos.bottom_right()).is_none()
    }

    /// Whether both cells below `pos` are cells of the wall, whatever they hold.
    pub fn has_bottom_pair(&self, pos: &Position) -> (b: bool)
        ensures
            self@.wf(),
            b == self@.has_bottom_pair(*pos),
    {
        self.lookup(&pos.bottom_left()).is_some() && self.lookup(&pos.bottom_right()).is_some()
    }

    /// Whether the cell up left of `pos` and the one left of it are cells of
    /// the wall, whatever they hold.
    pub fn has_left_pair(&self, pos: &Position) -> (b: bool)
        ensures
            self@.wf(),
            b == self@.has_left_pair(*pos),
    {
        self.lookup(&pos.top_left()).is_some() && self.lookup(&pos.left()).is_some()
    }

    /// Whether the cell up right of `pos` and the one right of it are cells
    /// of the wall, whatever they hold.
    pub fn has_right_pair(&self, pos: &Position) -> (b: bool)
        ensures
            self@.wf(),
            b == self@.has_right_pair(*pos),
    {
        self.lookup(&pos.top_right()).is_some() && self.lookup(&pos.right()).is_some()
    }

    /// One sweep: the rules applied to every cell in row-major order, each
    /// cell seeing what the cells before it got. Stops at the first cell
    /// whose sources disagree and leaves that cell as it was. No value that
    /// the wall held is changed.
    pub fn calc_all(&mut self) -> (r: Result<(), WallError>)
        ensures
            old(self)@.wf(),
            final(self)@.wf(),
            final(self)@ == old(self)@.sweep().grid,
            final(self)@.extends(old(self)@),
            r is Err <==> old(self)@.sweep().conflict,
            r matches Err(e) ==> e == WallError::Contradiction,
    {
        proof {
            use_type_invariant(&*self);
        }
        let ghost start = self@;
        let size = self.size;
        let mut row: usize = 1;
        let mut col: usize = 1;
        let mut i: usize = 0;
        while i < size
            invariant
                start == old(self)@,
                start.wf(),
                size == start.size(),
                i <= size,
                start.sweep_upto(i as nat) == (Swept { grid: self@, conflict: false }),
                i < size ==> Position(row, col) == Grid::position(i as nat),
            decreases size - i,
        {
            proof {
                use_type_invariant(&*self);
                start.lemma_sweep_upto(i as nat);
                start.lemma_position_contained(i as nat);
            }
            let pos = Position::new(row, col);
            match self.calc(&pos) {
                Err(e) => {
                    proof {
                        start.lemma_sweep_stops((i + 1) as nat, size as nat);
                    }
                    return Err(e);
                },
                Ok(Some(value)) => {
                    self.cells[i] = Some(value);
                },
                Ok(None) => {},
            }
            i = i + 1;
            if i < size {
                proof {
                }
                if col < row {
                    col = col + 1;
                } else {
                    row = row + 1;
                    col = 1;
                }
            }
        }
        proof {
            start.lemma_sweep_upto(size as nat);
        }
        Ok(())
    }

    /// The rules applied to the cell `pos`: what it holds afterwards, or the
    /// contradiction among its sources.
    pub fn calc(&self, pos: &Position) -> (r: Result<Option<isize>, WallError>)
        ensures
            self@.wf(),
            r == self@.block(*pos).outcome(),
    {
        Block::new(pos, self).calc()
    }

    /// What the bottom rule yields for `pos`: the sum of the two cells below.
    pub fn calc_from_bottom(&self, pos: &Position) -> (r: Option<i128>)
        ensures
            self@.wf(),
            number128(r) == self@.block(*pos).bottom_rule(),
    {
        Block::new(pos, self).calc_from_bottom()
    }

    /// What the left rule yields for `pos`: the cell up left less the cell
    /// on the left.
    pub fn calc_from_left(&self, pos: &Position) -> (r: Option<i128>)
        ensures
            self@.wf(),
            number128(r) == self@.block(*pos).left_rule(),
    {
        Block::new(pos, self).calc_from_left()
    }

    /// What the right rule yields for `pos`: the cell up right less the
    /// cell on the right.
    pub fn calc_from_right(&self, pos: &Position) -> (r: Option<i128>)
        ensures
            self@.wf(),
            number128(r) == self@.block(*pos).right_rule(),
    {
        Block::new(pos, self).calc_from_right()
    }
}

impl Clone for BlockMap {
    /// A second wall with the same rows and values.
    fn clone(&self) -> (copy: Self)
        ensures
            copy@ == self@,
    {
        proof {
            use_type_invariant(self);
        }
        let mut cells: Vec<Option<isize>> = Vec::new();
        let mut i: usize = 0;
        while i < self.cells.len()
            invariant
                i <= self.cells@.len(),
                cells@ == self.cells@.take(i as int),
            decreases self.cells@.len() - i,
        {
            cells.push(self.cells[i]);
            i = i + 1;
        }
        proof {
            assert(cells@ =~= self.cells@);
        }
        Self { rows: self.rows, size: self.size, cells }
    }
}

/// `a / d` where `d` divides `a` and the quotient is an `isize`.
fn exact_quotient(a: i128, d: usize) -> (r: Option<isize>)
    requires
        d > 0,
        a > i128::MIN,
    ensures
        r == if (a as int) % (d as int) == 0 && isize::MIN <= (a as int) / (d as int)
            <= isize::MAX {
            Some(((a as int) / (d as int)) as isize)
        } else {
            None
        },
{
    let divisor: i128 = d as i128;
    if a >= 0 {
        let rest: i128 = a % divisor;
        let quotient: i128 = a / divisor;
        if rest != 0 || quotient > isize::MAX as i128 {
            None
        } else {
            Some(quotient as isize)
        }
    } else {
        let b: i128 = -a;
        let rest: i128 = b % divisor;
        let quotient: i128 = b / divisor;
        proof {
            let x = a as int;
            let y = b as int;
            let n = d as int;
            lemma_fundamental_div_mod(y, n);
            lemma_fundamental_div_mod(x, n);
            if rest == 0 {
                assert(x == (-quotient) * n + 0) by (nonlinear_arith)
                    requires
                        y == n * quotient + 0,
                        x == -y,
                ;
                lemma_fundamental_div_mod_converse(x, n, -quotient, 0);
            } else if x % n == 0 {
                assert(y == (-(x / n)) * n + 0) by (nonlinear_arith)
                    requires
                        x == n * (x / n) + 0,
                        x == -y,
                ;
                lemma_fundamental_div_mod_converse(y, n, -(x / n), 0);
            }
        }
        if rest != 0 || -quotient < isize::MIN as i128 {
            None
        } else {
            Some((-quotient) as isize)
        }
    }
}

} // verus!
