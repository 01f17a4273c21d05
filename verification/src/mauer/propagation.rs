use vstd::prelude::*;

verus! {

use crate::mauer::block::number;
use crate::mauer::block_map::Position;
use crate::mauer::grid::{lemma_count_bounded, Grid};

/// A wall after cells were visited, and whether a contradiction ended the
/// visits.
pub struct Swept {
    pub grid: Grid,
    pub conflict: bool,
}

impl Grid {
    /// The rules applied to the cell `p`: a cell without a value gets its
    /// candidate; where the cell's sources disagree nothing is written.
    pub open spec fn visit(self, p: Position) -> Swept {
        match self.block(p).outcome() {
            Err(_) => Swept { grid: self, conflict: true },
            Ok(Some(v)) => Swept { grid: self.with(p, v), conflict: false },
            Ok(None) => Swept { grid: self, conflict: false },
        }
    }

    /// The first `n` cells visited in row-major order, each on the wall that
    /// the visits before it left; the first contradiction ends the visits.
    pub open spec fn sweep_upto(self, n: nat) -> Swept
        decreases n,
    {
        if n == 0 {
            Swept { grid: self, conflict: false }
        } else {
            let before = self.sweep_upto((n - 1) as nat);
            if before.conflict {
                before
            } else {
                before.grid.visit(Self::position((n - 1) as nat))
            }
        }
    }

    /// One sweep: every cell visited once.
    pub open spec fn sweep(self) -> Swept {
        self.sweep_upto(self.size())
    }

    /// Sweeps repeated until one changes nothing or finds a contradiction.
    pub open spec fn propagate(self) -> Swept
        decreases self.size() - self.value_count(),
        when self.wf()
    {
        let swept = self.sweep();
        if swept.conflict || swept.grid == self {
            swept
        } else {
            proof {
                self.lemma_sweep_upto(self.size());
                swept.grid.lemma_extends_count(self);
                lemma_count_bounded(swept.grid.cells);
            }
            swept.grid.propagate()
        }
    }

    /// Whether a sweep of this wall changes nothing and finds no contradiction.
    pub open spec fn at_rest(self) -> bool {
        self.sweep() == (Swept { grid: self, conflict: false })
    }

    /// Whether the cell `p` holds the sum of the two cells below it.
    pub open spec fn sums_up(self, p: Position) -> bool {
        self.at(p).unwrap() == self.at(p.bottom_left()).unwrap() + self.at(
            p.bottom_right(),
        ).unwrap()
    }

    /// Whether the wall is a finished one: every cell holds a value, and
    /// every cell above the bottom row holds the sum of the two below it.
    pub open spec fn complete(self) -> bool {
        &&& self.wf()
        &&& forall|p: Position| self.contains(p) ==> (#[trigger] self.at(p)) is Some
        &&& forall|p: Position| self.contains(p) && p.0 < self.rows ==> #[trigger] self.sums_up(p)
    }

    /// Once a contradiction ended the visits, nothing more happens.
    pub proof fn lemma_sweep_stops(self, n: nat, m: nat)
        requires
            n <= m,
            self.sweep_upto(n).conflict,
        ensures
            self.sweep_upto(m) == self.sweep_upto(n),
        decreases m,
    {
        if n < m {
            self.lemma_sweep_stops(n, (m - 1) as nat);
        }
    }

    /// A visit keeps the wall's shape and the values it holds.
    pub proof fn lemma_visit(self, p: Position)
        requires
            self.wf(),
            self.contains(p),
        ensures
            self.visit(p).grid.wf(),
            self.visit(p).grid.extends(self),
    {
        let b = self.block(p);
        match b.outcome() {
            Ok(Some(v)) => {
                self.lemma_with(p, v, p);
            },
            _ => {},
        }
    }

    /// Visits keep the wall's shape and the values it holds.
    pub proof fn lemma_sweep_upto(self, n: nat)
        requires
            self.wf(),
            n <= self.size(),
        ensures
            self.sweep_upto(n).grid.wf(),
            self.sweep_upto(n).grid.extends(self),
        decreases n,
    {
        if n > 0 {
            self.lemma_sweep_upto((n - 1) as nat);
            let before = self.sweep_upto((n - 1) as nat);
            if !before.conflict {
                let p = Self::position((n - 1) as nat);
                self.lemma_position_contained((n - 1) as nat);
                before.grid.lemma_visit(p);
                before.grid.visit(p).grid.lemma_extends_transitive(before.grid, self);
            }
        }
    }

    /// Later visits see every value that earlier visits left.
    pub proof fn lemma_sweep_grows(self, n: nat, m: nat)
        requires
            self.wf(),
            n <= m <= self.size(),
        ensures
            self.sweep_upto(m).grid.extends(self.sweep_upto(n).grid),
            self.sweep_upto(n).conflict ==> self.sweep_upto(m).conflict,
        decreases m,
    {
        if n < m {
            self.lemma_sweep_grows(n, (m - 1) as nat);
            self.lemma_sweep_upto((m - 1) as nat);
            let before = self.sweep_upto((m - 1) as nat);
            if !before.conflict {
                let p = Self::position((m - 1) as nat);
                self.lemma_position_contained((m - 1) as nat);
                before.grid.lemma_visit(p);
                before.grid.visit(p).grid.lemma_extends_transitive(
                    before.grid,
                    self.sweep_upto(n).grid,
                );
            }
        }
    }

    /// Visits leave the cells alone that were visited before them.
    pub proof fn lemma_sweep_frame(self, n: nat, m: nat, p: Position)
        requires
            self.wf(),
            n <= m <= self.size(),
            self.contains(p),
            Self::index_of(p) < n,
        ensures
            self.sweep_upto(m).grid.at(p) == self.sweep_upto(n).grid.at(p),
        decreases m,
    {
        if n < m {
            self.lemma_sweep_frame(n, (m - 1) as nat, p);
            self.lemma_sweep_upto((m - 1) as nat);
            let before = self.sweep_upto((m - 1) as nat);
            if !before.conflict {
                let q = Self::position((m - 1) as nat);
                self.lemma_position_contained((m - 1) as nat);
                match before.grid.block(q).outcome() {
                    Ok(Some(v)) => {
                        before.grid.lemma_with(q, v, p);
                    },
                    _ => {},
                }
            }
        }
    }

    /// What a wall that extends another knows of a cell and its neighbours:
    /// every value that a rule yields in the older wall, it yields in the
    /// newer, and a contradiction stays one.
    pub proof fn lemma_block_extends(self, old: Grid, p: Position)
        requires
            old.wf(),
            self.extends(old),
        ensures
            old.block(p).value is Some ==> self.block(p).value == old.block(p).value,
            old.block(p).bottom_rule() is Some ==> self.block(p).bottom_rule() == old.block(
                p,
            ).bottom_rule(),
            old.block(p).left_rule() is Some ==> self.block(p).left_rule() == old.block(
                p,
            ).left_rule(),
            old.block(p).right_rule() is Some ==> self.block(p).right_rule() == old.block(
                p,
            ).right_rule(),
            old.block(p).contradicts() ==> self.block(p).contradicts(),
    {
        self.lemma_extends_at(old, p);
        self.lemma_extends_at(old, p.top_left());
        self.lemma_extends_at(old, p.top_right());
        self.lemma_extends_at(old, p.left());
        self.lemma_extends_at(old, p.right());
        self.lemma_extends_at(old, p.bottom_left());
        self.lemma_extends_at(old, p.bottom_right());
    }

    /// A sweep reports the contradiction of any cell whose sources disagree.
    pub proof fn lemma_sweep_finds(self, p: Position)
        requires
            self.wf(),
            self.contains(p),
            self.block(p).contradicts(),
        ensures
            self.sweep().conflict,
    {
        self.lemma_index_in_range(p);
        self.lemma_index_position(p);
        let i = Self::index_of(p) as nat;
        let before = self.sweep_upto(i);
        self.lemma_sweep_upto(i);
        if !before.conflict {
            before.grid.lemma_block_extends(self, p);
        }
        self.lemma_sweep_grows(i + 1, self.size());
        self.lemma_sweep_grows(i, i + 1);
    }

    /// Where visits ended in a contradiction, the wall they left has a cell
    /// whose sources disagree.
    pub proof fn lemma_sweep_conflict(self, n: nat) -> (p: Position)
        requires
            self.wf(),
            n <= self.size(),
            self.sweep_upto(n).conflict,
        ensures
            self.contains(p),
            self.sweep_upto(n).grid.block(p).contradicts(),
        decreases n,
    {
        let before = self.sweep_upto((n - 1) as nat);
        if before.conflict {
            self.lemma_sweep_conflict((n - 1) as nat)
        } else {
            self.lemma_position_contained((n - 1) as nat);
            Self::position((n - 1) as nat)
        }
    }

    /// In a wall at rest no cell's sources disagree, and the rules yield
    /// nothing for a cell without a value.
    pub proof fn lemma_at_rest(self, p: Position)
        requires
            self.wf(),
            self.at_rest(),
            self.contains(p),
        ensures
            !self.block(p).contradicts(),
            self.at(p) is None ==> self.block(p).derived() is None,
    {
        self.lemma_index_in_range(p);
        self.lemma_index_position(p);
        let i = Self::index_of(p) as nat;
        let before = self.sweep_upto(i);
        let after = self.sweep_upto(i + 1);
        self.lemma_sweep_upto(i);
        self.lemma_sweep_upto(i + 1);
        self.lemma_sweep_grows(i, self.size());
        self.lemma_sweep_grows(i + 1, self.size());
        before.grid.lemma_extends_count(self);
        self.lemma_extends_count(before.grid);
        after.grid.lemma_extends_count(self);
        self.lemma_extends_count(after.grid);
        if self.at(p) is None {
            match self.block(p).derived() {
                Some(v) => {
                    self.lemma_with(p, v, p);
                },
                None => {},
            }
        }
    }

    /// Propagation keeps the wall's shape and the values it holds. It ends
    /// either at rest or, with a contradiction, in a wall that has a cell
    /// whose sources disagree.
    pub proof fn lemma_propagate(self)
        requires
            self.wf(),
        ensures
            self.propagate().grid.wf(),
            self.propagate().grid.extends(self),
            !self.propagate().conflict ==> self.propagate().grid.at_rest(),
            self.propagate().conflict ==> exists|p: Position|
                self.contains(p) && #[trigger] self.propagate().grid.block(p).contradicts(),
        decreases self.size() - self.value_count(),
    {
        let swept = self.sweep();
        self.lemma_sweep_upto(self.size());
        if swept.conflict {
            let p = self.lemma_sweep_conflict(self.size());
            assert(swept.grid.block(p).contradicts());
        } else if swept.grid != self {
            swept.grid.lemma_extends_count(self);
            lemma_count_bounded(swept.grid.cells);
            swept.grid.lemma_propagate();
            swept.grid.propagate().grid.lemma_extends_transitive(swept.grid, self);
        }
    }

    /// In a wall whose values are those of a finished wall, every source of
    /// a cell is the finished wall's value for it: no cell's sources
    /// disagree, and a visit writes nothing else.
    pub proof fn lemma_visit_within(self, full: Grid, p: Position)
        requires
            self.wf(),
            full.complete(),
            full.extends(self),
            self.contains(p),
        ensures
            !self.block(p).contradicts(),
            !self.visit(p).conflict,
            full.extends(self.visit(p).grid),
            self.block(p).candidate() is Some ==> self.block(p).candidate() == number(full.at(p)),
    {
        self.lemma_rows_bounded();
        full.lemma_extends_at(self, p);
        full.lemma_extends_at(self, p.top_left());
        full.lemma_extends_at(self, p.top_right());
        full.lemma_extends_at(self, p.left());
        full.lemma_extends_at(self, p.right());
        full.lemma_extends_at(self, p.bottom_left());
        full.lemma_extends_at(self, p.bottom_right());
        let b = self.block(p);
        if b.bottom_rule() is Some {
            assert(full.sums_up(p));
        }
        if b.left_rule() is Some {
            assert(full.sums_up(p.top_left()));
        }
        if b.right_rule() is Some {
            assert(full.sums_up(p.top_right()));
        }
        self.lemma_index_in_range(p);
    }

    /// Visits in a wall whose values are those of a finished wall find no
    /// contradiction and write only that wall's values.
    pub proof fn lemma_sweep_within(self, full: Grid, n: nat)
        requires
            self.wf(),
            full.complete(),
            full.extends(self),
            n <= self.size(),
        ensures
            !self.sweep_upto(n).conflict,
            full.extends(self.sweep_upto(n).grid),
        decreases n,
    {
        if n > 0 {
            self.lemma_sweep_within(full, (n - 1) as nat);
            self.lemma_sweep_upto((n - 1) as nat);
            self.lemma_position_contained((n - 1) as nat);
            self.sweep_upto((n - 1) as nat).grid.lemma_visit_within(
                full,
                Self::position((n - 1) as nat),
            );
        }
    }

    /// Propagation in a wall whose values are those of a finished wall finds
    /// no contradiction and writes only that wall's values.
    pub proof fn lemma_propagate_within(self, full: Grid)
        requires
            self.wf(),
            full.complete(),
            full.extends(self),
        ensures
            !self.propagate().conflict,
            full.extends(self.propagate().grid),
        decreases self.size() - self.value_count(),
    {
        let swept = self.sweep();
        self.lemma_sweep_upto(self.size());
        self.lemma_sweep_within(full, self.size());
        if swept.grid != self {
            swept.grid.lemma_extends_count(self);
            lemma_count_bounded(swept.grid.cells);
            swept.grid.lemma_propagate_within(full);
        }
    }

    /// A wall at rest in which every cell holds a value is a finished wall.
    pub proof fn lemma_at_rest_solved_is_complete(self)
        requires
            self.wf(),
            self.at_rest(),
            self.solved(),
        ensures
            self.complete(),
    {
        self.lemma_solved();
        self.lemma_rows_bounded();
        assert forall|p: Position| self.contains(p) && p.0 < self.rows implies #[trigger]
            self.sums_up(p) by {
            self.lemma_at_rest(p);
        }
    }

    /// In a wall at rest whose bottom row holds values and whose values are
    /// those of a finished wall, every cell holds a value.
    pub proof fn lemma_at_rest_fills(self, full: Grid, p: Position)
        requires
            self.wf(),
            self.at_rest(),
            full.complete(),
            full.extends(self),
            forall|q: Position| self.in_bottom_row(q) ==> (#[trigger] self.at(q)) is Some,
            self.contains(p),
        ensures
            self.at(p) is Some,
        decreases self.rows - p.0,
    {
        self.lemma_rows_bounded();
        if p.0 < self.rows {
            let bl = p.bottom_left();
            let br = p.bottom_right();
            self.lemma_at_rest_fills(full, bl);
            self.lemma_at_rest_fills(full, br);
            full.lemma_extends_at(self, p);
            full.lemma_extends_at(self, bl);
            full.lemma_extends_at(self, br);
            assert(full.sums_up(p));
            self.lemma_at_rest(p);
        }
    }
}

} // verus!
