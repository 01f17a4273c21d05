use vstd::prelude::*;

verus! {

use crate::mauer::block_map::Position;
use crate::mauer::grid::{lemma_triangle_monotonic, Grid};
use crate::wall::binomial::{binomial, factorial, lemma_binomial_positive};

impl Grid {
    /// The cell of the bottom row in column `col`.
    pub open spec fn bottom(self, col: int) -> Position {
        Position(self.rows as usize, col as usize)
    }

    /// Whether `p` is a cell of the bottom row.
    pub open spec fn in_bottom_row(self, p: Position) -> bool {
        self.contains(p) && p.0 == self.rows
    }

    /// How many of the first `n` cells of the bottom row hold no value.
    pub open spec fn bottom_missing_upto(self, n: nat) -> nat
        decreases n,
    {
        if n == 0 {
            0
        } else {
            self.bottom_missing_upto((n - 1) as nat) + if self.at(self.bottom(n as int)) is None {
                1nat
            } else {
                0nat
            }
        }
    }

    /// How many cells of the bottom row hold no value.
    pub open spec fn bottom_missing(self) -> nat {
        self.bottom_missing_upto(self.rows)
    }

    /// The last of the first `n` columns whose bottom cell holds no value;
    /// zero if each of them holds one.
    pub open spec fn missing_column_upto(self, n: nat) -> nat
        decreases n,
    {
        if n == 0 {
            0
        } else if self.at(self.bottom(n as int)) is None {
            n
        } else {
            self.missing_column_upto((n - 1) as nat)
        }
    }

    /// The last cell of the bottom row that holds no value; column zero if
    /// every cell holds one.
    pub open spec fn missing_bottom(self) -> Position {
        self.bottom(self.missing_column_upto(self.rows) as int)
    }

    /// Whether `m` is the one cell of the bottom row that holds no value.
    pub open spec fn sole_missing(self, m: Position) -> bool {
        &&& self.in_bottom_row(m)
        &&& self.at(m) is None
        &&& self.bottom_missing() == 1
    }

    /// Whether the bottom cells that `p` is a weighted sum of include the
    /// column `col`: they are the columns from `p`'s own to as many further
    /// as `p` stands above the bottom row.
    pub open spec fn covers(self, p: Position, col: int) -> bool {
        p.1 <= col <= p.1 + (self.rows - p.0)
    }

    /// Whether `p` can anchor an equation for the bottom cell `m`: a cell
    /// above the bottom row that holds a value and covers `m`'s column.
    pub open spec fn is_spire(self, p: Position, m: Position) -> bool {
        &&& self.contains(p)
        &&& p.0 < self.rows
        &&& self.at(p) is Some
        &&& self.covers(p, m.1 as int)
    }

    /// Whether `p` is the spire for `m` that comes last in row-major order:
    /// the one closest to the bottom row and, in its row, the rightmost.
    pub open spec fn deepest_spire(self, p: Position, m: Position) -> bool {
        &&& self.is_spire(p, m)
        &&& forall|q: Position| #[trigger]
            self.is_spire(q, m) ==> q.0 < p.0 || (q.0 == p.0 && q.1 <= p.1)
    }

    /// The spire for the bottom cell `m`, if `m` is a bottom cell and has one.
    pub open spec fn spire(self, m: Position) -> Option<Position> {
        if self.in_bottom_row(m) && exists|p: Position| self.deepest_spire(p, m) {
            Some(choose|p: Position| self.deepest_spire(p, m))
        } else {
            None
        }
    }

    /// The value of the bottom cell in column `col`; zero where it holds none.
    pub open spec fn bottom_value(self, col: int) -> int {
        match self.at(self.bottom(col)) {
            Some(v) => v as int,
            None => 0,
        }
    }

    /// The sum over `j < n` of `binomial(depth, j)` times the bottom value in
    /// column `col + j`, leaving out the column `skip`.
    pub open spec fn weighted_sum(self, depth: nat, col: int, n: nat, skip: int) -> int
        decreases n,
    {
        if n == 0 {
            0
        } else {
            let j = (n - 1) as nat;
            self.weighted_sum(depth, col, j, skip) + if col + j == skip {
                0
            } else {
                binomial(depth, j) * self.bottom_value(col + j)
            }
        }
    }

    /// The value of the cell `p` as the bottom row determines it: the sum of
    /// the bottom values that `p` covers, each weighted by the binomial
    /// coefficient of `p`'s height over its distance from `p`'s column.
    pub open spec fn pascal_sum(self, p: Position) -> int {
        self.weighted_sum((self.rows - p.0) as nat, p.1 as int, (self.rows - p.0 + 1) as nat, 0)
    }

    /// The equation for the bottom cell `m`. The spire's value is the
    /// weighted sum of the bottom cells it covers; with `m` the only unknown
    /// among them, `m`'s value is what is left of the spire's value after the
    /// known cells, divided by `m`'s weight.
    ///
    /// The result names `m` and its value. It names `m` and nothing where that
    /// quotient is no integer, is no `isize`, or the spire stands so high that
    /// the weights cannot be computed in `usize` (their computation reaches
    /// the factorial of the spire's height). It names the position `(0, 0)`
    /// where there is no equation: `m` is not the one missing bottom cell, or
    /// no spire covers it.
    pub open spec fn equation(self, m: Position) -> (Position, Option<isize>) {
        if !self.sole_missing(m) {
            (Position(0, 0), None)
        } else {
            match self.spire(m) {
                None => (Position(0, 0), None),
                Some(top) => {
                    let depth = (self.rows - top.0) as nat;
                    let divisor = binomial(depth, (m.1 - top.1) as nat) as int;
                    let known = self.weighted_sum(depth, top.1 as int, depth + 1, m.1 as int);
                    let remainder = self.at(top).unwrap() - known;
                    if factorial(depth) <= usize::MAX && remainder % divisor == 0 && isize::MIN
                        <= remainder / divisor <= isize::MAX {
                        (m, Some((remainder / divisor) as isize))
                    } else {
                        (m, None)
                    }
                },
            }
        }
    }

    /// A bottom cell has at most one deepest spire.
    pub proof fn lemma_deepest_spire_unique(self, p: Position, q: Position, m: Position)
        requires
            self.deepest_spire(p, m),
            self.deepest_spire(q, m),
        ensures
            p == q,
    {
    }

    /// No column is missing among the first `n` exactly when the count of
    /// missing cells among them is zero, and a missing column is one of them
    /// whose bottom cell holds no value.
    pub proof fn lemma_missing_column_upto(self, n: nat)
        requires
            self.wf(),
            n <= self.rows,
        ensures
            self.missing_column_upto(n) <= n,
            self.missing_column_upto(n) == 0 <==> self.bottom_missing_upto(n) == 0,
            self.missing_column_upto(n) > 0 ==> self.at(
                self.bottom(self.missing_column_upto(n) as int),
            ) is None,
        decreases n,
    {
        if n > 0 {
            self.lemma_missing_column_upto((n - 1) as nat);
        }
    }

    /// Where a bottom cell is missing, `missing_bottom` is such a cell.
    pub proof fn lemma_bottom_missing_column(self)
        requires
            self.wf(),
        ensures
            self.bottom_missing() > 0 ==> self.in_bottom_row(self.missing_bottom()) && self.at(
                self.missing_bottom(),
            ) is None,
            self.bottom_missing() == 1 ==> self.sole_missing(self.missing_bottom()),
    {
        self.lemma_missing_column_upto(self.rows);
        lemma_triangle_monotonic(self.rows as int, self.rows as int);
    }

    /// A bottom cell without a value among the first `n` columns is counted.
    pub proof fn lemma_missing_counted(self, col: nat, n: nat)
        requires
            1 <= col <= n,
            self.at(self.bottom(col as int)) is None,
        ensures
            self.bottom_missing_upto(n) >= 1,
            forall|other: nat|
                1 <= other <= n && other != col && (#[trigger] self.at(
                    self.bottom(other as int),
                )) is None ==> self.bottom_missing_upto(n) >= 2,
        decreases n,
    {
        if col < n {
            self.lemma_missing_counted(col, (n - 1) as nat);
        } else {
            assert forall|other: nat|
                1 <= other <= n && other != col && (#[trigger] self.at(
                    self.bottom(other as int),
                )) is None implies self.bottom_missing_upto(n) >= 2 by {
                self.lemma_missing_counted(other, (n - 1) as nat);
            }
        }
    }

    /// No bottom cell among the first `n` columns is missing exactly when
    /// each of them holds a value.
    pub proof fn lemma_none_missing(self, n: nat)
        ensures
            self.bottom_missing_upto(n) == 0 <==> (forall|col: nat|
                1 <= col <= n ==> (#[trigger] self.at(self.bottom(col as int))) is Some),
        decreases n,
    {
        if n > 0 {
            self.lemma_none_missing((n - 1) as nat);
            if self.bottom_missing_upto(n) == 0 {
                assert forall|col: nat| 1 <= col <= n implies (#[trigger] self.at(
                    self.bottom(col as int),
                )) is Some by {}
            }
        }
    }

    /// Once the one missing bottom cell holds a value, the bottom row is
    /// full, in that wall and in every wall that extends it.
    pub proof fn lemma_bottom_row_filled(self, m: Position, v: isize, later: Grid)
        requires
            self.wf(),
            self.sole_missing(m),
            later.extends(self.with(m, v)),
        ensures
            later.bottom_missing() == 0,
    {
        lemma_triangle_monotonic(self.rows as int, self.rows as int);
        let filled = self.with(m, v);
        assert forall|col: nat| 1 <= col <= later.rows implies (#[trigger] later.at(
            later.bottom(col as int),
        )) is Some by {
            let q = self.bottom(col as int);
            self.lemma_with(m, v, q);
            self.lemma_missing_counted(m.1 as nat, self.rows);
            later.lemma_extends_at(filled, q);
        }
        later.lemma_none_missing(later.rows);
    }

    /// Where the equation for the one missing bottom cell has a solution, it
    /// is the value that the cell has in every finished wall with this
    /// wall's values.
    pub proof fn lemma_equation_within(self, full: Grid, m: Position)
        requires
            self.wf(),
            full.complete(),
            full.extends(self),
            self.equation(m).1 is Some,
        ensures
            self.equation(m).0 == m,
            self.sole_missing(m),
            full.at(m) == self.equation(m).1,
    {
        self.lemma_rows_bounded();
        let top = self.spire(m).unwrap();
        let depth = (self.rows - top.0) as nat;
        let weight = binomial(depth, (m.1 - top.1) as nat) as int;
        full.lemma_extends_at(self, top);
        full.lemma_extends_at(self, m);
        full.lemma_complete_is_pascal(top);
        full.lemma_weighted_sum_skip(depth, top.1 as int, depth + 1, m.1 as int);
        assert forall|c: int| top.1 <= c < top.1 + (depth + 1) && c != m.1 implies #[trigger]
            full.bottom_value(c) == self.bottom_value(c) by {
            let q = self.bottom(c);
            self.lemma_missing_counted(m.1 as nat, self.rows);
            full.lemma_extends_at(self, q);
        }
        full.lemma_weighted_sum_same_bottom(self, depth, top.1 as int, depth + 1, m.1 as int);
        let x = full.at(m).unwrap() as int;
        lemma_binomial_positive(depth, (m.1 - top.1) as nat);
        vstd::arithmetic::div_mod::lemma_div_multiples_vanish(x, weight);
        assert(weight * x == x * weight) by (nonlinear_arith);
    }
}

} // verus!
