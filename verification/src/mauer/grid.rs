use vstd::prelude::*;

verus! {

use crate::mauer::block_map::Position;
use crate::mauer::WallError;

/// How many cells a wall of `n` rows holds.
pub open spec fn triangle(n: int) -> int {
    n * (n + 1) / 2
}

/// A row adds as many cells as its number.
pub proof fn lemma_triangle_step(n: int)
    requires
        n >= 0,
    ensures
        triangle(n + 1) == triangle(n) + n + 1,
        triangle(0) == 0,
        triangle(n) >= 0,
{
    assert((n + 1) * (n + 1 + 1) == n * (n + 1) + 2 * (n + 1)) by (nonlinear_arith);
    assert(n * (n + 1) >= 0) by (nonlinear_arith)
        requires
            n >= 0,
    ;
}

/// More rows hold no fewer cells, and a wall holds at least as many cells
/// as rows.
pub proof fn lemma_triangle_monotonic(a: int, b: int)
    requires
        0 <= a <= b,
    ensures
        triangle(a) <= triangle(b),
        a <= triangle(a),
    decreases b,
{
    if a < b {
        lemma_triangle_monotonic(a, b - 1);
        lemma_triangle_step(b - 1);
    }
    if a > 0 {
        lemma_triangle_monotonic(a - 1, a - 1);
        lemma_triangle_step(a - 1);
    }
}

/// How many entries of `s` hold a value.
pub open spec fn count_known(s: Seq<Option<isize>>) -> nat
    decreases s.len(),
{
    if s.len() == 0 {
        0
    } else {
        count_known(s.drop_last()) + if s.last() is Some { 1nat } else { 0nat }
    }
}

/// Whether `t` keeps every value that `s` holds.
pub open spec fn keeps(t: Seq<Option<isize>>, s: Seq<Option<isize>>) -> bool {
    &&& t.len() == s.len()
    &&& forall|i: int| 0 <= i < s.len() && (#[trigger] s[i]) is Some ==> t[i] == s[i]
}

/// No more entries hold a value than there are entries.
pub proof fn lemma_count_bounded(s: Seq<Option<isize>>)
    ensures
        count_known(s) <= s.len(),
    decreases s.len(),
{
    if s.len() > 0 {
        lemma_count_bounded(s.drop_last());
    }
}

/// Keeping every value keeps the count from falling; an equal count means
/// that nothing was added.
pub proof fn lemma_count_keeps(t: Seq<Option<isize>>, s: Seq<Option<isize>>)
    requires
        keeps(t, s),
    ensures
        count_known(s) <= count_known(t),
        count_known(s) == count_known(t) ==> t == s,
    decreases s.len(),
{
    if s.len() > 0 {
        let s0 = s.drop_last();
        let t0 = t.drop_last();
        lemma_count_keeps(t0, s0);
        if count_known(s) == count_known(t) {
            assert(t =~= t0.push(t.last()));
        }
    }
}

/// Every entry holds a value exactly when the count equals the length.
pub proof fn lemma_count_full(s: Seq<Option<isize>>)
    ensures
        count_known(s) == s.len() <==> (forall|i: int|
            0 <= i < s.len() ==> (#[trigger] s[i]) is Some),
    decreases s.len(),
{
    if s.len() > 0 {
        let s0 = s.drop_last();
        lemma_count_full(s0);
        lemma_count_bounded(s0);
        if count_known(s) == s.len() {
            assert forall|i: int| 0 <= i < s.len() implies (#[trigger] s[i]) is Some by {
                if i < s0.len() {
                    assert(s0[i] is Some);
                }
            }
        }
        if forall|i: int| 0 <= i < s.len() ==> (#[trigger] s[i]) is Some {
            assert forall|i: int| 0 <= i < s0.len() implies (#[trigger] s0[i]) is Some by {
                assert(s[i] is Some);
            }
        }
    }
}

/// No entry holds a value exactly when the count is zero.
pub proof fn lemma_count_none(s: Seq<Option<isize>>)
    ensures
        count_known(s) == 0 <==> (forall|i: int|
            0 <= i < s.len() ==> (#[trigger] s[i]) is None),
    decreases s.len(),
{
    if s.len() > 0 {
        let s0 = s.drop_last();
        lemma_count_none(s0);
        if count_known(s) == 0 {
            assert forall|i: int| 0 <= i < s.len() implies (#[trigger] s[i]) is None by {
                if i < s0.len() {
                    assert(s0[i] is None);
                }
            }
        }
        if forall|i: int| 0 <= i < s.len() ==> (#[trigger] s[i]) is None {
            assert forall|i: int| 0 <= i < s0.len() implies (#[trigger] s0[i]) is None by {
                assert(s[i] is None);
            }
        }
    }
}

/// Filling an empty entry raises the count by one.
pub proof fn lemma_count_fill(s: Seq<Option<isize>>, i: int, v: isize)
    requires
        0 <= i < s.len(),
        s[i] is None,
    ensures
        count_known(s.update(i, Some(v))) == count_known(s) + 1,
    decreases s.len(),
{
    let t = s.update(i, Some(v));
    if i == s.len() - 1 {
        assert(t.drop_last() =~= s.drop_last());
    } else {
        lemma_count_fill(s.drop_last(), i, v);
        assert(t.drop_last() =~= s.drop_last().update(i, Some(v)));
    }
}

/// The wall as contracts see it: the number of rows and the cells in
/// row-major order, each holding a value or nothing.
pub struct Grid {
    pub rows: nat,
    pub cells: Seq<Option<isize>>,
}

impl Grid {
    /// At least one row, one entry per cell, and few enough cells to index.
    pub open spec fn wf(self) -> bool {
        &&& self.rows >= 1
        &&& self.cells.len() == triangle(self.rows as int)
        &&& triangle(self.rows as int) <= usize::MAX
    }

    /// The wall of `rows` rows in which no cell holds a value.
    pub open spec fn empty(rows: nat) -> Grid {
        Grid { rows, cells: Seq::new(triangle(rows as int) as nat, |i: int| None) }
    }

    /// How many cells the wall has.
    pub open spec fn size(self) -> nat {
        triangle(self.rows as int) as nat
    }

    /// Whether `p` names a cell of this wall.
    pub open spec fn contains(self, p: Position) -> bool {
        1 <= p.1 <= p.0 <= self.rows
    }

    /// Where the cell `p` stands in row-major order.
    pub open spec fn index_of(p: Position) -> int {
        triangle(p.0 - 1) + p.1 - 1
    }

    /// The cell that stands at place `i` of the row-major order.
    pub open spec fn position(i: nat) -> Position
        decreases i,
    {
        if i == 0 {
            Position(1, 1)
        } else {
            let q = Self::position((i - 1) as nat);
            if q.1 < q.0 {
                Position(q.0, (q.1 + 1) as usize)
            } else {
                Position((q.0 + 1) as usize, 1)
            }
        }
    }

    /// What the wall knows of `p`: `None` where `p` is no cell of the wall,
    /// `Some(None)` for a cell without a value.
    pub open spec fn lookup(self, p: Position) -> Option<Option<isize>> {
        if self.contains(p) {
            Some(self.cells[Self::index_of(p)])
        } else {
            None
        }
    }

    /// The value of the cell `p`, if `p` is a cell and holds one.
    pub open spec fn at(self, p: Position) -> Option<isize> {
        if self.contains(p) {
            self.cells[Self::index_of(p)]
        } else {
            None
        }
    }

    /// The wall with the value `v` in the cell `p`.
    pub open spec fn with(self, p: Position, v: isize) -> Grid {
        Grid { rows: self.rows, cells: self.cells.update(Self::index_of(p), Some(v)) }
    }

    /// Whether both cells below `p` are cells of the wall.
    pub open spec fn has_bottom_pair(self, p: Position) -> bool {
        self.contains(p.bottom_left()) && self.contains(p.bottom_right())
    }

    /// Whether the cell up left of `p` and the one left of it are cells of
    /// the wall.
    pub open spec fn has_left_pair(self, p: Position) -> bool {
        self.contains(p.top_left()) && self.contains(p.left())
    }

    /// Whether the cell up right of `p` and the one right of it are cells of
    /// the wall.
    pub open spec fn has_right_pair(self, p: Position) -> bool {
        self.contains(p.top_right()) && self.contains(p.right())
    }

    /// What becomes of a request to put `v` into `p`: refused where `p` is
    /// no cell of the wall or the cell holds another value.
    pub open spec fn set_outcome(self, p: Position, v: isize) -> Result<(), WallError> {
        if !self.contains(p) {
            Err(WallError::InvalidPosition)
        } else if self.at(p) is Some && self.at(p) != Some(v) {
            Err(WallError::ValueConflict)
        } else {
            Ok(())
        }
    }

    /// How many cells hold a value.
    pub open spec fn value_count(self) -> nat {
        count_known(self.cells)
    }

    /// Whether every cell holds a value.
    pub open spec fn solved(self) -> bool {
        self.value_count() == self.size()
    }

    /// Whether this wall has the rows of `old` and every value that `old` holds.
    pub open spec fn extends(self, old: Grid) -> bool {
        &&& self.rows == old.rows
        &&& keeps(self.cells, old.cells)
    }

    /// A wall in which no cell holds a value is not solved.
    pub proof fn lemma_empty(rows: nat)
        requires
            rows >= 1,
            triangle(rows as int) <= usize::MAX,
        ensures
            Self::empty(rows).wf(),
            Self::empty(rows).value_count() == 0,
            !Self::empty(rows).solved(),
            forall|p: Position| (#[trigger] Self::empty(rows).at(p)) is None,
    {
        let wall = Self::empty(rows);
        lemma_triangle_monotonic(rows as int, rows as int);
        lemma_count_none(wall.cells);
        assert forall|p: Position| (#[trigger] wall.at(p)) is None by {
            if wall.contains(p) {
                wall.lemma_index_in_range(p);
            }
        }
    }

    /// The wall's rows can be counted one further.
    pub proof fn lemma_rows_bounded(self)
        requires
            self.wf(),
        ensures
            self.rows < usize::MAX,
            self.rows <= self.size(),
    {
        lemma_triangle_step(self.rows - 1);
        lemma_triangle_monotonic(self.rows - 1, self.rows - 1);
    }

    /// A cell's place lies within the wall's cells.
    pub proof fn lemma_index_in_range(self, p: Position)
        requires
            self.contains(p),
        ensures
            0 <= Self::index_of(p) < self.size(),
    {
        lemma_triangle_step(p.0 - 1);
        lemma_triangle_monotonic(p.0 as int, self.rows as int);
    }

    /// Two cells with the same place are the same cell.
    pub proof fn lemma_index_injective(p: Position, q: Position)
        requires
            1 <= p.1 <= p.0,
            1 <= q.1 <= q.0,
            Self::index_of(p) == Self::index_of(q),
        ensures
            p == q,
    {
        lemma_triangle_step(p.0 - 1);
        lemma_triangle_step(q.0 - 1);
        if p.0 < q.0 {
            lemma_triangle_monotonic(p.0 as int, q.0 - 1);
        } else if q.0 < p.0 {
            lemma_triangle_monotonic(q.0 as int, p.0 - 1);
        }
    }

    /// The cell at place `i` is a cell whose place is `i`.
    pub proof fn lemma_position_index(i: nat)
        requires
            i < usize::MAX,
        ensures
            1 <= Self::position(i).1 <= Self::position(i).0 <= i + 1,
            Self::index_of(Self::position(i)) == i,
        decreases i,
    {
        if i > 0 {
            Self::lemma_position_index((i - 1) as nat);
            let q = Self::position((i - 1) as nat);
            lemma_triangle_step(q.0 - 1);
        } else {
            lemma_triangle_step(0);
        }
    }

    /// The place of a cell leads back to the cell.
    pub proof fn lemma_index_position(self, p: Position)
        requires
            self.wf(),
            self.contains(p),
        ensures
            Self::position(Self::index_of(p) as nat) == p,
    {
        self.lemma_index_in_range(p);
        let i = Self::index_of(p) as nat;
        Self::lemma_position_index(i);
        Self::lemma_index_injective(p, Self::position(i));
    }

    /// The cell at a place below the wall's size is a cell of the wall.
    pub proof fn lemma_position_contained(self, i: nat)
        requires
            self.wf(),
            i < self.size(),
        ensures
            self.contains(Self::position(i)),
            Self::index_of(Self::position(i)) == i,
    {
        Self::lemma_position_index(i);
        let p = Self::position(i);
        if p.0 > self.rows {
            lemma_triangle_monotonic(self.rows as int, p.0 - 1);
        }
    }

    /// Writing one cell leaves the others as they were.
    pub proof fn lemma_with(self, p: Position, v: isize, q: Position)
        requires
            self.wf(),
            self.contains(p),
        ensures
            self.with(p, v).wf(),
            self.with(p, v).rows == self.rows,
            self.with(p, v).at(q) == if q == p { Some(v) } else { self.at(q) },
            self.with(p, v).lookup(q) == if q == p { Some(Some(v)) } else { self.lookup(q) },
            self.at(p) == Some(v) ==> self.with(p, v) == self,
            self.at(p) is None ==> self.with(p, v).extends(self) && self.with(p, v).value_count()
                == self.value_count() + 1,
    {
        self.lemma_index_in_range(p);
        if self.contains(q) {
            self.lemma_index_in_range(q);
            if q != p {
                if Self::index_of(p) == Self::index_of(q) {
                    Self::lemma_index_injective(p, q);
                }
            }
        }
        if self.at(p) == Some(v) {
            assert(self.with(p, v).cells =~= self.cells);
        }
        if self.at(p) is None {
            lemma_count_fill(self.cells, Self::index_of(p), v);
        }
    }

    /// A wall that extends another holds at least as many values, and the
    /// same number only if it is the same wall.
    pub proof fn lemma_extends_count(self, old: Grid)
        requires
            self.extends(old),
        ensures
            old.value_count() <= self.value_count(),
            old.value_count() == self.value_count() ==> self == old,
    {
        lemma_count_keeps(self.cells, old.cells);
    }

    /// What an extension knows of the cells that the older wall knows.
    pub proof fn lemma_extends_at(self, old: Grid, p: Position)
        requires
            old.wf(),
            self.extends(old),
        ensures
            self.wf(),
            self.contains(p) == old.contains(p),
            old.at(p) is Some ==> self.at(p) == old.at(p),
            self.lookup(p) is Some == old.lookup(p) is Some,
    {
        if old.contains(p) {
            old.lemma_index_in_range(p);
        }
    }

    /// A wall that extends an extension of `old` extends `old`.
    pub proof fn lemma_extends_transitive(self, mid: Grid, old: Grid)
        requires
            self.extends(mid),
            mid.extends(old),
        ensures
            self.extends(old),
    {
        assert forall|i: int|
            0 <= i < old.cells.len() && (#[trigger] old.cells[i]) is Some implies self.cells[i]
            == old.cells[i] by {
            assert(mid.cells[i] is Some);
        }
    }

    /// A wall is solved exactly when each of its cells holds a value.
    pub proof fn lemma_solved(self)
        requires
            self.wf(),
        ensures
            self.solved() <==> (forall|p: Position|
                self.contains(p) ==> (#[trigger] self.at(p)) is Some),
    {
        lemma_count_full(self.cells);
        if self.solved() {
            assert forall|p: Position| self.contains(p) implies (#[trigger] self.at(p)) is Some by {
                self.lemma_index_in_range(p);
            }
        }
        if forall|p: Position| self.contains(p) ==> (#[trigger] self.at(p)) is Some {
            assert forall|i: int| 0 <= i < self.cells.len() implies (#[trigger] self.cells[i])
                is Some by {
                self.lemma_position_contained(i as nat);
                assert(self.at(Self::position(i as nat)) is Some);
            }
        }
    }
}

} // verus!
