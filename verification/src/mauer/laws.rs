use vstd::prelude::*;

verus! {

use crate::mauer::block::number;
use crate::mauer::block_map::Position;
use crate::mauer::grid::{lemma_count_bounded, lemma_triangle_monotonic, lemma_triangle_step, Grid};
use crate::mauer::SolveStatus;

impl Grid {
    /// The cells stand in row-major order: a cell comes before another
    /// exactly when its row is higher up or, in the same row, its column is
    /// further left.
    pub proof fn lemma_row_major(p: Position, q: Position)
        requires
            1 <= p.1 <= p.0,
            1 <= q.1 <= q.0,
        ensures
            Self::index_of(p) < Self::index_of(q) <==> p.0 < q.0 || (p.0 == q.0 && p.1 < q.1),
    {
        lemma_triangle_step(p.0 - 1);
        lemma_triangle_step(q.0 - 1);
        if p.0 < q.0 {
            lemma_triangle_monotonic(p.0 as int, q.0 - 1);
        } else if q.0 < p.0 {
            lemma_triangle_monotonic(q.0 as int, p.0 - 1);
        }
    }

    /// What solving leaves behind. The wall keeps its shape and every value
    /// it held. A wall that is reported as contradictory has a cell whose
    /// sources disagree; any other is at rest. A wall that is stuck has a
    /// cell without a value, and either not exactly one such cell in the
    /// bottom row or no solution to that cell's equation.
    pub proof fn lemma_solve(self)
        requires
            self.wf(),
        ensures
            self.solve().0.wf(),
            self.solve().0.extends(self),
            self.solve().1 == SolveStatus::Contradiction ==> exists|p: Position|
                self.contains(p) && #[trigger] self.solve().0.block(p).contradicts(),
            self.solve().1 != SolveStatus::Contradiction ==> self.solve().0.at_rest(),
            self.solve().1 == SolveStatus::Solved ==> self.solve().0.solved(),
            self.solve().1 == SolveStatus::Stuck ==> !self.solve().0.solved() && (
            self.solve().0.bottom_missing() != 1 || self.solve().0.equation(
                self.solve().0.missing_bottom(),
            ).1 is None),
    {
        self.lemma_propagate();
        let first = self.propagate();
        if Self::status(first) == SolveStatus::Stuck && first.grid.bottom_missing() == 1 {
            let missing = first.grid.missing_bottom();
            first.grid.lemma_bottom_missing_column();
            match first.grid.equation(missing).1 {
                None => {},
                Some(value) => {
                    let filled = first.grid.with(missing, value);
                    first.grid.lemma_with(missing, value, missing);
                    filled.lemma_propagate();
                    let second = filled.propagate();
                    second.grid.lemma_extends_transitive(filled, first.grid);
                    second.grid.lemma_extends_transitive(first.grid, self);
                    first.grid.lemma_bottom_row_filled(missing, value, second.grid);
                },
            }
        }
    }

    /// Solving keeps every value that the wall held.
    pub proof fn lemma_solve_keeps_values(self, p: Position)
        requires
            self.wf(),
            self.at(p) is Some,
        ensures
            self.solve().0.at(p) == self.at(p),
    {
        self.lemma_solve();
        self.solve().0.lemma_extends_at(self, p);
    }

    /// A wall in which the sources of some cell disagree is reported as
    /// contradictory.
    pub proof fn lemma_contradiction_is_reported(self, p: Position)
        requires
            self.wf(),
            self.contains(p),
            self.block(p).contradicts(),
        ensures
            self.solve().1 == SolveStatus::Contradiction,
    {
        self.lemma_sweep_finds(p);
    }

    /// A wall that solving leaves without reporting a contradiction has no
    /// cell whose sources disagree: no contradiction is overlooked.
    pub proof fn lemma_no_contradiction_is_left(self, p: Position)
        requires
            self.wf(),
            self.contains(p),
            self.solve().1 != SolveStatus::Contradiction,
        ensures
            !self.solve().0.block(p).contradicts(),
    {
        self.lemma_solve();
        self.solve().0.lemma_at_rest(p);
    }

    /// Solving a wall a second time ends as the first time did and keeps
    /// every value; unless the wall is contradictory, it changes nothing.
    pub proof fn lemma_solve_twice(self)
        requires
            self.wf(),
        ensures
            self.solve().0.solve().1 == self.solve().1,
            self.solve().0.solve().0.extends(self.solve().0),
            self.solve().1 != SolveStatus::Contradiction ==> self.solve().0.solve().0
                == self.solve().0,
    {
        self.lemma_solve();
        let (once, status) = self.solve();
        once.lemma_solve();
        if status == SolveStatus::Contradiction {
            let p = choose|p: Position|
                self.contains(p) && #[trigger] once.block(p).contradicts();
            once.lemma_contradiction_is_reported(p);
        }
    }

    /// After a sweep that found no contradiction, a cell whose two bottom
    /// neighbours held values before the sweep holds their sum, or nothing
    /// where the sum is no `isize`.
    pub proof fn lemma_sweep_applies_bottom_rule(self, p: Position)
        requires
            self.wf(),
            self.contains(p),
            !self.sweep().conflict,
            self.block(p).bottom_rule() is Some,
        ensures
            self.sweep().grid.block(p).bottom_rule() == self.block(p).bottom_rule(),
            self.sweep().grid.at(p) is Some ==> number(self.sweep().grid.at(p)) == self.block(
                p,
            ).bottom_rule(),
            self.sweep().grid.at(p) is None ==> !(isize::MIN <= self.block(
                p,
            ).bottom_rule().unwrap() <= isize::MAX),
    {
        self.lemma_index_in_range(p);
        self.lemma_index_position(p);
        let i = Self::index_of(p) as nat;
        let before = self.sweep_upto(i);
        let after = self.sweep_upto(i + 1);
        self.lemma_sweep_upto(i);
        self.lemma_sweep_upto(i + 1);
        self.lemma_sweep_upto(self.size());
        self.lemma_sweep_grows(i, self.size());
        self.lemma_sweep_grows(i + 1, self.size());
        before.grid.lemma_block_extends(self, p);
        match before.grid.block(p).outcome() {
            Ok(Some(v)) => {
                before.grid.lemma_with(p, v, p);
            },
            _ => {},
        }
        self.sweep().grid.lemma_extends_at(after.grid, p);
        self.sweep().grid.lemma_block_extends(self, p);
        self.lemma_sweep_frame(i + 1, self.size(), p);
    }

    /// In a wall at rest a cell whose two bottom neighbours hold values
    /// holds their sum, or nothing where the sum is no `isize`.
    pub proof fn lemma_at_rest_obeys_bottom_rule(self, p: Position)
        requires
            self.wf(),
            self.at_rest(),
            self.contains(p),
            self.block(p).bottom_rule() is Some,
        ensures
            self.at(p) is Some ==> number(self.at(p)) == self.block(p).bottom_rule(),
            self.at(p) is None ==> !(isize::MIN <= self.block(p).bottom_rule().unwrap()
                <= isize::MAX),
    {
        self.lemma_at_rest(p);
    }

    /// A wall that is reported as solved is a finished wall: every cell
    /// holds a value, and every cell above the bottom row holds the sum of
    /// the two cells below it.
    pub proof fn lemma_solved_is_complete(self)
        requires
            self.wf(),
            self.solve().1 == SolveStatus::Solved,
        ensures
            self.solve().0.complete(),
    {
        self.lemma_solve();
        self.solve().0.lemma_at_rest_solved_is_complete();
    }

    /// A wall whose bottom row holds values is solved, and every cell then
    /// holds what the bottom row determines for it: the sum of the bottom
    /// values it covers, each weighted by a binomial coefficient.
    ///
    /// This needs that no other cell holds a value that the bottom row does
    /// not determine for it, and that all those values are `isize`s.
    pub proof fn lemma_seeded_bottom_row(self)
        requires
            self.wf(),
            forall|p: Position| self.in_bottom_row(p) ==> (#[trigger] self.at(p)) is Some,
            forall|p: Position|
                self.contains(p) && (#[trigger] self.at(p)) is Some ==> self.at(p).unwrap()
                    == self.pascal_sum(p),
            forall|p: Position|
                self.contains(p) ==> isize::MIN <= #[trigger] self.pascal_sum(p) <= isize::MAX,
        ensures
            self.solve().1 == SolveStatus::Solved,
            forall|p: Position|
                self.contains(p) ==> #[trigger] self.solve().0.at(p) == Some(
                    self.pascal_sum(p) as isize,
                ),
    {
        let full = self.pascal_wall();
        self.lemma_pascal_wall();
        assert(full.extends(self)) by {
            assert forall|i: int|
                0 <= i < self.cells.len() && (#[trigger] self.cells[i])
                    is Some implies full.cells[i] == self.cells[i] by {
                self.lemma_position_contained(i as nat);
                let p = Self::position(i as nat);
                assert(self.at(p) is Some);
            }
        }
        self.lemma_propagate();
        self.lemma_propagate_within(full);
        let rest = self.propagate().grid;
        assert forall|q: Position| rest.in_bottom_row(q) implies (#[trigger] rest.at(q))
            is Some by {
            rest.lemma_extends_at(self, q);
        }
        assert forall|p: Position| rest.contains(p) implies (#[trigger] rest.at(p)) is Some by {
            rest.lemma_at_rest_fills(full, p);
        }
        rest.lemma_solved();
        assert forall|p: Position| self.contains(p) implies #[trigger] self.solve().0.at(p) == Some(
            self.pascal_sum(p) as isize,
        ) by {
            full.lemma_extends_at(rest, p);
            assert(rest.at(p) is Some);
        }
    }

    /// Solving a wall whose values are those of a finished wall reports no
    /// contradiction and writes only that wall's values. If it ends solved,
    /// it ends with that wall: the finished wall is the only one.
    pub proof fn lemma_solve_within(self, full: Grid)
        requires
            self.wf(),
            full.complete(),
            full.extends(self),
        ensures
            self.solve().1 != SolveStatus::Contradiction,
            full.extends(self.solve().0),
            self.solve().1 == SolveStatus::Solved ==> self.solve().0 == full,
    {
        self.lemma_propagate();
        self.lemma_propagate_within(full);
        let first = self.propagate();
        if Self::status(first) == SolveStatus::Stuck && first.grid.bottom_missing() == 1 {
            let missing = first.grid.missing_bottom();
            match first.grid.equation(missing).1 {
                None => {},
                Some(value) => {
                    first.grid.lemma_equation_within(full, missing);
                    let filled = first.grid.with(missing, value);
                    first.grid.lemma_with(missing, value, missing);
                    first.grid.lemma_index_in_range(missing);
                    filled.lemma_propagate_within(full);
                },
            }
        }
        if self.solve().1 == SolveStatus::Solved {
            let end = self.solve().0;
            full.lemma_extends_count(end);
            lemma_count_bounded(full.cells);
        }
    }
}

} // verus!
