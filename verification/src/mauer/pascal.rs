use vstd::prelude::*;

verus! {

use crate::mauer::block_map::Position;
use crate::mauer::grid::Grid;
use crate::wall::binomial::{binomial, lemma_binomial_zero};

impl Grid {
    /// Pascal's rule for weighted sums: a sum with the weights of one row of
    /// Pascal's triangle is two sums with the weights of the row above it,
    /// the second one column further right.
    pub proof fn lemma_weighted_sum_rule(self, depth: nat, col: int, n: nat)
        requires
            depth >= 1,
            n >= 1,
            col >= 1,
        ensures
            self.weighted_sum(depth, col, n, 0) == self.weighted_sum(
                (depth - 1) as nat,
                col,
                n,
                0,
            ) + self.weighted_sum((depth - 1) as nat, col + 1, (n - 1) as nat, 0),
        decreases n,
    {
        let above = (depth - 1) as nat;
        if n == 1 {
            reveal_with_fuel(Grid::weighted_sum, 2);
        } else {
            let j = (n - 1) as nat;
            self.lemma_weighted_sum_rule(depth, col, j);
            let b = self.bottom_value(col + j);
            assert(binomial(depth, j) * b == binomial(above, (j - 1) as nat) * b + binomial(
                above,
                j,
            ) * b) by (nonlinear_arith)
                requires
                    binomial(depth, j) == binomial(above, (j - 1) as nat) + binomial(above, j),
            ;
            assert(self.weighted_sum(above, col + 1, j, 0) == self.weighted_sum(
                above,
                col + 1,
                (j - 1) as nat,
                0,
            ) + binomial(above, (j - 1) as nat) * self.bottom_value(col + 1 + (j - 1)));
        }
    }

    /// The bottom row determines every cell above it as the sum of what it
    /// determines for the two cells below.
    pub proof fn lemma_pascal_sum_rule(self, p: Position)
        requires
            self.wf(),
            self.contains(p),
            p.0 < self.rows,
        ensures
            self.pascal_sum(p) == self.pascal_sum(p.bottom_left()) + self.pascal_sum(
                p.bottom_right(),
            ),
    {
        self.lemma_rows_bounded();
        let depth = (self.rows - p.0) as nat;
        let above = (depth - 1) as nat;
        self.lemma_weighted_sum_rule(depth, p.1 as int, depth + 1);
        lemma_binomial_zero(above, depth);
        assert(binomial(above, depth) * self.bottom_value(p.1 + depth) == 0) by (nonlinear_arith)
            requires
                binomial(above, depth) == 0,
        ;
        assert(self.weighted_sum(above, p.1 as int, depth + 1, 0) == self.weighted_sum(
            above,
            p.1 as int,
            depth,
            0,
        ) + binomial(above, depth) * self.bottom_value(p.1 + depth));
    }

    /// The bottom row determines its own cells as what they hold.
    pub proof fn lemma_pascal_sum_bottom(self, p: Position)
        requires
            self.wf(),
            self.in_bottom_row(p),
        ensures
            self.pascal_sum(p) == self.bottom_value(p.1 as int),
            self.bottom(p.1 as int) == p,
    {
        self.lemma_rows_bounded();
        reveal_with_fuel(Grid::weighted_sum, 2);
        assert(binomial(0, 0) * self.bottom_value(p.1 as int) == self.bottom_value(p.1 as int))
            by (nonlinear_arith)
            requires
                binomial(0, 0) == 1,
        ;
    }

    /// The sums that the bottom row determines look at nothing but the
    /// bottom row.
    pub proof fn lemma_weighted_sum_same_bottom(
        self,
        other: Grid,
        depth: nat,
        col: int,
        n: nat,
        skip: int,
    )
        requires
            self.rows == other.rows,
            forall|c: int|
                col <= c < col + n && c != skip ==> #[trigger] self.bottom_value(c)
                    == other.bottom_value(c),
        ensures
            self.weighted_sum(depth, col, n, skip) == other.weighted_sum(depth, col, n, skip),
        decreases n,
    {
        if n > 0 {
            self.lemma_weighted_sum_same_bottom(other, depth, col, (n - 1) as nat, skip);
        }
    }

    /// In a finished wall every cell holds what the bottom row determines
    /// for it.
    pub proof fn lemma_complete_is_pascal(self, p: Position)
        requires
            self.complete(),
            self.contains(p),
        ensures
            self.at(p).unwrap() == self.pascal_sum(p),
        decreases self.rows - p.0,
    {
        self.lemma_rows_bounded();
        if p.0 == self.rows {
            self.lemma_pascal_sum_bottom(p);
        } else {
            assert(self.sums_up(p));
            self.lemma_complete_is_pascal(p.bottom_left());
            self.lemma_complete_is_pascal(p.bottom_right());
            self.lemma_pascal_sum_rule(p);
        }
    }

    /// The wall in which every cell holds what the bottom row of this wall
    /// determines for it.
    pub open spec fn pascal_wall(self) -> Grid {
        Grid {
            rows: self.rows,
            cells: Seq::new(
                self.size(),
                |i: int| Some(self.pascal_sum(Self::position(i as nat)) as isize),
            ),
        }
    }

    /// Where the bottom row holds values and all that it determines are
    /// `isize`s, the wall of those values is a finished one.
    pub proof fn lemma_pascal_wall(self)
        requires
            self.wf(),
            forall|p: Position| self.in_bottom_row(p) ==> (#[trigger] self.at(p)) is Some,
            forall|p: Position|
                self.contains(p) ==> isize::MIN <= #[trigger] self.pascal_sum(p) <= isize::MAX,
        ensures
            self.pascal_wall().complete(),
            self.pascal_wall().rows == self.rows,
            forall|p: Position|
                self.contains(p) ==> #[trigger] self.pascal_wall().at(p) == Some(
                    self.pascal_sum(p) as isize,
                ),
            forall|p: Position|
                self.in_bottom_row(p) ==> #[trigger] self.pascal_wall().at(p) == self.at(p),
    {
        let full = self.pascal_wall();
        self.lemma_rows_bounded();
        assert forall|p: Position| self.contains(p) implies #[trigger] full.at(p) == Some(
            self.pascal_sum(p) as isize,
        ) by {
            self.lemma_index_in_range(p);
            self.lemma_index_position(p);
        }
        assert forall|p: Position| self.in_bottom_row(p) implies #[trigger] full.at(p) == self.at(
            p,
        ) by {
            self.lemma_pascal_sum_bottom(p);
        }
        assert forall|p: Position| full.contains(p) && p.0 < full.rows implies #[trigger]
            full.sums_up(p) by {
            self.lemma_pascal_sum_rule(p);
        }
        assert forall|p: Position| full.contains(p) implies (#[trigger] full.at(p)) is Some by {
            assert(full.at(p) == Some(self.pascal_sum(p) as isize));
        }
    }

    /// A weighted sum is the sum without one of its columns, plus that
    /// column's share.
    pub proof fn lemma_weighted_sum_skip(self, depth: nat, col: int, n: nat, skip: int)
        requires
            col >= 1,
        ensures
            self.weighted_sum(depth, col, n, 0) == self.weighted_sum(depth, col, n, skip) + if col
                <= skip < col + n {
                binomial(depth, (skip - col) as nat) * self.bottom_value(skip)
            } else {
                0
            },
        decreases n,
    {
        if n > 0 {
            self.lemma_weighted_sum_skip(depth, col, (n - 1) as nat, skip);
        }
    }
}

} // verus!
