use vstd::prelude::*;

verus! {

use crate::mauer::block_map::{BlockMap, Position};
use crate::mauer::grid::Grid;
use crate::mauer::WallError;

/// A cell together with what the wall knows of its six neighbours. A
/// neighbour is `None` where the wall has no such cell and `Some(None)` where
/// the cell holds no value.
#[derive(Debug, Clone, Copy)]
pub struct Block {
    pub value: Option<isize>,
    pub top_left: Option<Option<isize>>,
    pub top_right: Option<Option<isize>>,
    pub left: Option<Option<isize>>,
    pub right: Option<Option<isize>>,
    pub bottom_left: Option<Option<isize>>,
    pub bottom_right: Option<Option<isize>>,
}

/// The sum of two neighbours, where both hold a value.
pub open spec fn sum_of(a: Option<Option<isize>>, b: Option<Option<isize>>) -> Option<int> {
    match (a, b) {
        (Some(Some(x)), Some(Some(y))) => Some(x + y),
        _ => None,
    }
}

/// The first neighbour less the second, where both hold a value.
pub open spec fn difference_of(a: Option<Option<isize>>, b: Option<Option<isize>>) -> Option<int> {
    match (a, b) {
        (Some(Some(x)), Some(Some(y))) => Some(x - y),
        _ => None,
    }
}

/// Whether both are numbers and not the same one.
pub open spec fn disagree(a: Option<int>, b: Option<int>) -> bool {
    a is Some && b is Some && a != b
}

/// A cell's value as a number.
pub open spec fn number(value: Option<isize>) -> Option<int> {
    match value {
        Some(v) => Some(v as int),
        None => None,
    }
}

impl Grid {
    /// The cell `p` with its neighbours; a block without anything where `p`
    /// is no cell of the wall.
    pub open spec fn block(self, p: Position) -> Block {
        if self.contains(p) {
            Block {
                value: self.at(p),
                top_left: self.lookup(p.top_left()),
                top_right: self.lookup(p.top_right()),
                left: self.lookup(p.left()),
                right: self.lookup(p.right()),
                bottom_left: self.lookup(p.bottom_left()),
                bottom_right: self.lookup(p.bottom_right()),
            }
        } else {
            Block {
                value: None,
                top_left: None,
                top_right: None,
                left: None,
                right: None,
                bottom_left: None,
                bottom_right: None,
            }
        }
    }
}

impl Block {
    /// The bottom rule: a cell is the sum of the two cells below it.
    pub open spec fn bottom_rule(&self) -> Option<int> {
        sum_of(self.bottom_left, self.bottom_right)
    }

    /// The left rule: the cell up left is the sum of this cell and its left
    /// neighbour.
    pub open spec fn left_rule(&self) -> Option<int> {
        difference_of(self.top_left, self.left)
    }

    /// The right rule: the cell up right is the sum of this cell and its
    /// right neighbour.
    pub open spec fn right_rule(&self) -> Option<int> {
        difference_of(self.top_right, self.right)
    }

    /// What the first rule that yields a number yields: bottom, then left,
    /// then right.
    pub open spec fn candidate(&self) -> Option<int> {
        if self.bottom_rule() is Some {
            self.bottom_rule()
        } else if self.left_rule() is Some {
            self.left_rule()
        } else {
            self.right_rule()
        }
    }

    /// Whether two of the cell's sources disagree: its own value and what the
    /// three rules yield.
    pub open spec fn contradicts(&self) -> bool {
        ||| disagree(number(self.value), self.bottom_rule())
        ||| disagree(number(self.value), self.left_rule())
        ||| disagree(number(self.value), self.right_rule())
        ||| disagree(self.bottom_rule(), self.left_rule())
        ||| disagree(self.bottom_rule(), self.right_rule())
        ||| disagree(self.left_rule(), self.right_rule())
    }

    /// The value that the rules give a cell which holds none: the candidate,
    /// where it is an `isize`.
    pub open spec fn derived(&self) -> Option<isize> {
        match self.candidate() {
            Some(c) => if isize::MIN <= c <= isize::MAX {
                Some(c as isize)
            } else {
                None
            },
            None => None,
        }
    }

    /// What the cell holds after the rules were applied to it: its own value
    /// if it has one, else the derived one; a contradiction where its sources
    /// disagree.
    pub open spec fn outcome(&self) -> Result<Option<isize>, WallError> {
        if self.contradicts() {
            Err(WallError::Contradiction)
        } else if self.value is Some {
            Ok(self.value)
        } else {
            Ok(self.derived())
        }
    }

    /// Whether the cell has no neighbour above it or beside it.
    pub open spec fn spec_is_top(&self) -> bool {
        self.top_left is None && self.top_right is None && self.left is None && self.right is None
    }

    /// Whether the cell has no neighbour on its left, above or beside.
    pub open spec fn spec_is_left(&self) -> bool {
        self.top_left is None && self.left is None
    }

    /// Whether the cell has no neighbour on its right, above or beside.
    pub open spec fn spec_is_right(&self) -> bool {
        self.top_right is None && self.right is None
    }

    /// Whether the cell has no neighbour below it.
    pub open spec fn spec_is_bottom(&self) -> bool {
        self.bottom_left is None && self.bottom_right is None
    }

    /// The cell at `position` of `blocks`, with its neighbours.
    pub fn new(position: &Position, blocks: &BlockMap) -> (b: Self)
        ensures
            blocks@.wf(),
            b == blocks@.block(*position),
    {
        match blocks.lookup(position) {
            Some(value) => {
                let top_left = blocks.lookup(&position.top_left());
                let top_right = blocks.lookup(&position.top_right());
                let left = blocks.lookup(&position.left());
                let right = blocks.lookup(&position.right());
                let bottom_left = blocks.lookup(&position.bottom_left());
                let bottom_right = blocks.lookup(&position.bottom_right());
                Self { value, top_left, top_right, left, right, bottom_left, bottom_right }
            },
            None => Self {
                value: None,
                top_left: None,
                top_right: None,
                left: None,
                right: None,
                bottom_left: None,
                bottom_right: None,
            },
        }
    }

    /// The cell's own value.
    pub fn get(&self) -> (v: Option<isize>)
        ensures
            v == self.value,
    {
        self.value
    }

    /// Whether the cell has no neighbour above it or beside it.
    #[verifier::when_used_as_spec(spec_is_top)]
    pub fn is_top(&self) -> (b: bool)
        ensures
            b == self.spec_is_top(),
    {
        self.top_left.is_none() && self.top_right.is_none() && self.left.is_none()
            && self.right.is_none()
    }

    /// Whether the cell has no neighbour on its left, above or beside.
    #[verifier::when_used_as_spec(spec_is_left)]
    pub fn is_left(&self) -> (b: bool)
        ensures
            b == self.spec_is_left(),
    {
        self.top_left.is_none() && self.left.is_none()
    }

    /// Whether the cell has no neighbour on its right, above or beside.
    #[verifier::when_used_as_spec(spec_is_right)]
    pub fn is_right(&self) -> (b: bool)
        ensures
            b == self.spec_is_right(),
    {
        self.top_right.is_none() && self.right.is_none()
    }

    /// Whether the cell has no neighbour below it.
    #[verifier::when_used_as_spec(spec_is_bottom)]
    pub fn is_bottom(&self) -> (b: bool)
        ensures
            b == self.spec_is_bottom(),
    {
        self.bottom_left.is_none() && self.bottom_right.is_none()
    }

    /// Applies the three rules to the cell. A cell that holds a value keeps
    /// it; one that holds none gets what the first rule that yields a number
    /// yields, if that is an `isize`. Sources that disagree are reported,
    /// never resolved.
    pub fn calc(&self) -> (r: Result<Option<isize>, WallError>)
        ensures
            r == self.outcome(),
    {
        let own = match self.value {
            Some(value) => Some(value as i128),
            None => None,
        };
        let bottom = self.calc_from_bottom();
        let left = self.calc_from_left();
        let right = self.calc_from_right();
        if differ(own, bottom) || differ(own, left) || differ(own, right) || differ(bottom, left)
            || differ(bottom, right) || differ(left, right) {
            return Err(WallError::Contradiction);
        }
        if self.value.is_some() {
            return Ok(self.value);
        }
        let candidate = if bottom.is_some() {
            bottom
        } else if left.is_some() {
            left
        } else {
            right
        };
        match candidate {
            Some(c) => if isize::MIN as i128 <= c && c <= isize::MAX as i128 {
                Ok(Some(c as isize))
            } else {
                Ok(None)
            },
            None => Ok(None),
        }
    }

    /// What the bottom rule yields: the sum of the two cells below.
    pub fn calc_from_bottom(&self) -> (r: Option<i128>)
        ensures
            number128(r) == self.bottom_rule(),
    {
        if self.is_bottom() {
            return None;
        }
        match (self.bottom_left, self.bottom_right) {
            (Some(Some(bl_value)), Some(Some(br_value))) => Some(
                bl_value as i128 + br_value as i128,
            ),
            _ => None,
        }
    }

    /// What the left rule yields: the cell up left less the cell on the left.
    pub fn calc_from_left(&self) -> (r: Option<i128>)
        ensures
            number128(r) == self.left_rule(),
    {
        if self.is_left() {
            return None;
        }
        match (self.top_left, self.left) {
            (Some(Some(tl_value)), Some(Some(l_value))) => Some(tl_value as i128 - l_value as i128),
            _ => None,
        }
    }

    /// What the right rule yields: the cell up right less the cell on the
    /// right.
    pub fn calc_from_right(&self) -> (r: Option<i128>)
        ensures
            number128(r) == self.right_rule(),
    {
        if self.is_right() {
            return None;
        }
        match (self.top_right, self.right) {
            (Some(Some(tr_value)), Some(Some(r_value))) => Some(tr_value as i128 - r_value as i128),
            _ => None,
        }
    }
}

/// What a rule computed, as a number.
pub open spec fn number128(value: Option<i128>) -> Option<int> {
    match value {
        Some(v) => Some(v as int),
        None => None,
    }
}

/// Whether both are numbers and not the same one.
fn differ(a: Option<i128>, b: Option<i128>) -> (r: bool)
    ensures
        r == disagree(number128(a), number128(b)),
{
    match (a, b) {
        (Some(x), Some(y)) => x != y,
        _ => false,
    }
}

} // verus!
