use vstd::prelude::*;

use crate::rng::random_in;
use bevy_rand::prelude::WyRand;

verus! {

/// An integer address on the simulation's discrete plane.
#[derive(Clone, Copy, Debug, PartialEq, Eq, Structural)]
pub struct GridCell {
    pub x: isize,
    pub y: isize,
}

/// `b` lies between `a` and `c`, inclusive, in either order.
pub open spec fn between(a: int, b: int, c: int) -> bool {
    (a <= b <= c) || (c <= b <= a)
}

pub open spec fn abs(i: int) -> int {
    if i < 0 {
        -i
    } else {
        i
    }
}

pub open spec fn sign(i: int) -> int {
    if i < 0 {
        -1
    } else if i > 0 {
        1
    } else {
        0
    }
}

/// Squared Euclidean distance between two cells.
pub open spec fn dist_sq(a: GridCell, b: GridCell) -> int {
    (a.x - b.x) * (a.x - b.x) + (a.y - b.y) * (a.y - b.y)
}

/// Number of unit steps between two cells along the axes.
pub open spec fn manhattan(a: GridCell, b: GridCell) -> int {
    abs(a.x - b.x) + abs(a.y - b.y)
}

/// One greedy unit step from `from` toward `target`: along the axis whose absolute
/// delta is larger, preferring the x-axis on a tie.
pub open spec fn step_toward(from: GridCell, target: GridCell) -> GridCell {
    let dx = target.x - from.x;
    let dy = target.y - from.y;
    if abs(dx) >= abs(dy) {
        GridCell { x: (from.x + sign(dx)) as isize, y: from.y }
    } else {
        GridCell { x: from.x, y: (from.y + sign(dy)) as isize }
    }
}

/// The four axis-adjacent points of a cell, as integer pairs: left, right, up, down.
pub open spec fn neighbour_points(c: GridCell) -> Seq<(int, int)> {
    seq![(c.x - 1, c.y as int), (c.x + 1, c.y as int), (c.x as int, c.y - 1), (c.x as int, c.y + 1)]
}

/// A cell as a pair of integers.
pub open spec fn point_of(c: GridCell) -> (int, int) {
    (c.x as int, c.y as int)
}

/// `|a - b|` without overflow.
fn abs_diff(a: isize, b: isize) -> (r: u128)
    ensures
        r == abs(a - b),
{
    if a >= b {
        (a as i128 - b as i128) as u128
    } else {
        (b as i128 - a as i128) as u128
    }
}

impl GridCell {
    pub fn new(x: isize, y: isize) -> (r: GridCell)
        ensures
            r.x == x,
            r.y == y,
    {
        GridCell { x, y }
    }

    /// The four axis-adjacent cells, with no bounds filtering.
    pub fn neighbours(&self) -> (r: Vec<GridCell>)
        requires
            isize::MIN < self.x < isize::MAX,
            isize::MIN < self.y < isize::MAX,
        ensures
            r@.len() == 4,
            forall|i: int| 0 <= i < 4 ==> point_of(#[trigger] r@[i]) == neighbour_points(*self)[i],
    {
        vec![
            GridCell::new(self.x - 1, self.y),
            GridCell::new(self.x + 1, self.y),
            GridCell::new(self.x, self.y - 1),
            GridCell::new(self.x, self.y + 1),
        ]
    }

    /// Moves one unit toward `target` (see `step_toward`).
    pub fn step_to(&mut self, target: &GridCell)
        requires
            *old(self) != *target,
        ensures
            *final(self) == step_toward(*old(self), *target),
            manhattan(*final(self), *target) == manhattan(*old(self), *target) - 1,
            dist_sq(*final(self), *target) < dist_sq(*old(self), *target),
    {
        proof {
            lemma_step_decreases(*self, *target);
        }
        let adx = abs_diff(self.x, target.x);
        let ady = abs_diff(self.y, target.y);
        if adx >= ady {
            if target.x > self.x {
                self.x = self.x + 1;
            } else {
                self.x = self.x - 1;
            }
        } else {
            if target.y > self.y {
                self.y = self.y + 1;
            } else {
                self.y = self.y - 1;
            }
        }
    }

    /// The squared Euclidean distance to `to`, or `None` where it does not fit in a `u128`.
    pub fn distance_squared(&self, to: &GridCell) -> (r: Option<u128>)
        ensures
            0 <= dist_sq(*self, *to),
            r == (if dist_sq(*self, *to) <= u128::MAX {
                Some(dist_sq(*self, *to) as u128)
            } else {
                None::<u128>
            }),
    {
        let adx = abs_diff(self.x, to.x);
        let ady = abs_diff(self.y, to.y);
        proof {
            assert(adx * adx == (self.x - to.x) * (self.x - to.x)) by (nonlinear_arith)
                requires
                    adx == abs(self.x - to.x),
            ;
            assert(ady * ady == (self.y - to.y) * (self.y - to.y)) by (nonlinear_arith)
                requires
                    ady == abs(self.y - to.y),
            ;
            assert(adx * adx <= 0xffff_ffff_ffff_ffffu128 * 0xffff_ffff_ffff_ffffu128)
                by (nonlinear_arith)
                requires
                    adx <= 0xffff_ffff_ffff_ffffu128,
            ;
            assert(ady * ady <= 0xffff_ffff_ffff_ffffu128 * 0xffff_ffff_ffff_ffffu128)
                by (nonlinear_arith)
                requires
                    ady <= 0xffff_ffff_ffff_ffffu128,
            ;
        }
        (adx * adx).checked_add(ady * ady)
    }
}

/// A step toward a distinct target brings the cell one unit closer along the axes and
/// strictly closer in Euclidean distance.
pub proof fn lemma_step_decreases(from: GridCell, target: GridCell)
    requires
        from != target,
    ensures
        manhattan(step_toward(from, target), target) == manhattan(from, target) - 1,
        dist_sq(step_toward(from, target), target) < dist_sq(from, target),
        abs(step_toward(from, target).x - target.x) <= abs(from.x - target.x),
        abs(step_toward(from, target).y - target.y) <= abs(from.y - target.y),
        between(from.x as int, step_toward(from, target).x as int, target.x as int),
        between(from.y as int, step_toward(from, target).y as int, target.y as int),
{
    let dx = target.x - from.x;
    let dy = target.y - from.y;
    let s = step_toward(from, target);
    if abs(dx) >= abs(dy) {
        assert(dx != 0);
        assert(s.x == from.x + sign(dx));
        let ndx = target.x - s.x;
        assert(abs(ndx) == abs(dx) - 1);
        assert(ndx * ndx < dx * dx) by (nonlinear_arith)
            requires
                abs(ndx) == abs(dx) - 1,
                abs(dx) >= 1,
                abs(ndx) == (if ndx < 0 { -ndx } else { ndx }),
                abs(dx) == (if dx < 0 { -dx } else { dx }),
        ;
        assert((s.x - target.x) * (s.x - target.x) == ndx * ndx) by (nonlinear_arith)
            requires
                s.x - target.x == -ndx,
        ;
        assert((from.x - target.x) * (from.x - target.x) == dx * dx) by (nonlinear_arith)
            requires
                from.x - target.x == -dx,
        ;
    } else {
        assert(dy != 0);
        assert(s.y == from.y + sign(dy));
        let ndy = target.y - s.y;
        assert(abs(ndy) == abs(dy) - 1);
        assert(ndy * ndy < dy * dy) by (nonlinear_arith)
            requires
                abs(ndy) == abs(dy) - 1,
                abs(dy) >= 1,
                abs(ndy) == (if ndy < 0 { -ndy } else { ndy }),
                abs(dy) == (if dy < 0 { -dy } else { dy }),
        ;
        assert((s.y - target.y) * (s.y - target.y) == ndy * ndy) by (nonlinear_arith)
            requires
                s.y - target.y == -ndy,
        ;
        assert((from.y - target.y) * (from.y - target.y) == dy * dy) by (nonlinear_arith)
            requires
                from.y - target.y == -dy,
        ;
    }
}

/// The cell reached after `n` greedy steps from `from` toward `target`, stopping there.
pub open spec fn walk_toward(from: GridCell, target: GridCell, n: nat) -> GridCell
    decreases n,
{
    if n == 0 || from == target {
        from
    } else {
        walk_toward(step_toward(from, target), target, (n - 1) as nat)
    }
}

/// Repeated greedy steps strictly decrease the distance to the target until they reach
/// it: after exactly `manhattan(from, target)` steps the target is reached, every step
/// before that strictly decreases the distance, and every intermediate cell stays
/// within the bounding box of the two cells.
pub proof fn lemma_step_to_reaches_target(from: GridCell, target: GridCell, n: nat)
    requires
        n <= manhattan(from, target),
    ensures
        manhattan(walk_toward(from, target, n), target) == manhattan(from, target) - n,
        n < manhattan(from, target) ==> dist_sq(
            step_toward(walk_toward(from, target, n), target),
            target,
        ) < dist_sq(walk_toward(from, target, n), target),
        n == manhattan(from, target) ==> walk_toward(from, target, n) == target,
        abs(walk_toward(from, target, n).x - target.x) <= abs(from.x - target.x),
        abs(walk_toward(from, target, n).y - target.y) <= abs(from.y - target.y),
        between(from.x as int, walk_toward(from, target, n).x as int, target.x as int),
        between(from.y as int, walk_toward(from, target, n).y as int, target.y as int),
    decreases n,
{
    if n == 0 {
        if manhattan(from, target) > 0 {
            assert(from != target);
            lemma_step_decreases(from, target);
        }
    } else {
        assert(from != target);
        lemma_step_decreases(from, target);
        lemma_step_to_reaches_target(step_toward(from, target), target, (n - 1) as nat);
    }
}

/// Greedy steps between two in-bounds cells never leave the bounds.
pub proof fn lemma_step_to_stays_in_bounds(b: GridBounds, from: GridCell, target: GridCell, n: nat)
    requires
        n <= manhattan(from, target),
        b.contains_cell(from),
        b.contains_cell(target),
    ensures
        b.contains_cell(walk_toward(from, target, n)),
{
    lemma_step_to_reaches_target(from, target, n);
}

/// The number of rows and columns of cells; the grid is centred at the origin.
#[derive(Clone, Copy, Debug, PartialEq, Eq, Structural)]
pub struct GridBounds {
    width: usize,
    height: usize,
}

/// A side length that leaves every cell with an in-bounds neighbour and keeps the
/// edges representable as `isize`.
pub open spec fn valid_side(n: int) -> bool {
    2 <= n <= isize::MAX
}

impl GridBounds {
    #[verifier::type_invariant]
    pub(crate) closed spec fn inv(self) -> bool {
        valid_side(self.width as int) && valid_side(self.height as int)
    }

    /// What the type invariant gives to the rest of the crate.
    pub(crate) proof fn lemma_inv_valid(self)
        requires
            self.inv(),
        ensures
            self.valid(),
    {
    }

    pub closed spec fn cols(self) -> int {
        self.width as int
    }

    pub closed spec fn rows(self) -> int {
        self.height as int
    }

    /// Both sides are valid; every `GridBounds` value is.
    pub open spec fn valid(self) -> bool {
        valid_side(self.cols()) && valid_side(self.rows())
    }

    pub open spec fn left(self) -> int {
        -(self.cols() / 2)
    }

    pub open spec fn right(self) -> int {
        self.left() + self.cols()
    }

    pub open spec fn top(self) -> int {
        -(self.rows() / 2)
    }

    pub open spec fn bottom(self) -> int {
        self.top() + self.rows()
    }

    /// `left <= x < right && top <= y < bottom`.
    pub open spec fn contains_point(self, p: (int, int)) -> bool {
        self.left() <= p.0 < self.right() && self.top() <= p.1 < self.bottom()
    }

    pub open spec fn contains_cell(self, c: GridCell) -> bool {
        self.contains_point(point_of(c))
    }

    pub fn from_size(width: usize, height: usize) -> (r: GridBounds)
        requires
            valid_side(width as int),
            valid_side(height as int),
        ensures
            r.cols() == width,
            r.rows() == height,
    {
        GridBounds { width, height }
    }

    pub fn width(&self) -> (r: usize)
        ensures
            r == self.cols(),
            self.valid(),
    {
        proof {
            use_type_invariant(self);
        }
        self.width
    }

    pub fn height(&self) -> (r: usize)
        ensures
            r == self.rows(),
            self.valid(),
    {
        proof {
            use_type_invariant(self);
        }
        self.height
    }

    pub fn left_inclusive(&self) -> (r: isize)
        ensures
            r == self.left(),
            self.valid(),
    {
        proof {
            use_type_invariant(self);
        }
        -((self.width / 2) as isize)
    }

    pub fn right_exclusive(&self) -> (r: isize)
        ensures
            r == self.right(),
            self.valid(),
    {
        proof {
            use_type_invariant(self);
        }
        (self.width - self.width / 2) as isize
    }

    pub fn top_inclusive(&self) -> (r: isize)
        ensures
            r == self.top(),
            self.valid(),
    {
        proof {
            use_type_invariant(self);
        }
        -((self.height / 2) as isize)
    }

    pub fn bottom_exclusive(&self) -> (r: isize)
        ensures
            r == self.bottom(),
            self.valid(),
    {
        proof {
            use_type_invariant(self);
        }
        (self.height - self.height / 2) as isize
    }

    /// Whether each side has an odd number of cells.
    pub fn oddness(&self) -> (r: (bool, bool))
        ensures
            r == (self.cols() % 2 != 0, self.rows() % 2 != 0),
    {
        (self.width % 2 != 0, self.height % 2 != 0)
    }

    pub fn contains(&self, grid_cell: &GridCell) -> (r: bool)
        ensures
            r == self.contains_cell(*grid_cell),
            self.valid(),
    {
        grid_cell.x >= self.left_inclusive() && grid_cell.x < self.right_exclusive()
            && grid_cell.y >= self.top_inclusive() && grid_cell.y < self.bottom_exclusive()
    }

    /// A cell drawn from `rng` inside the bounds.
    pub fn get_random_position(&self, rng: &mut WyRand) -> (r: GridCell)
        ensures
            self.contains_cell(r),
    {
        let x = random_in(rng, self.left_inclusive(), self.right_exclusive());
        let y = random_in(rng, self.top_inclusive(), self.bottom_exclusive());
        GridCell::new(x, y)
    }
}

/// Edges of the grid: each axis spans exactly its side length, the near edge is the
/// negated floor of half the side, and the far edge mirrors it, one further out on an
/// odd side.
pub proof fn lemma_bounds_edges(b: GridBounds)
    requires
        b.valid(),
    ensures
        b.right() - b.left() == b.cols(),
        b.bottom() - b.top() == b.rows(),
        b.right() == -b.left() + b.cols() % 2,
        b.bottom() == -b.top() + b.rows() % 2,
        b.left() < 0 < b.right(),
        b.top() < 0 < b.bottom(),
        isize::MIN <= b.left(),
        b.right() <= isize::MAX,
        isize::MIN <= b.top(),
        b.bottom() <= isize::MAX,
{
}

} // verus!
