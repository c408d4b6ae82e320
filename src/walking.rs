use vstd::prelude::*;

use crate::behave::Status;
use crate::grid::{GridBounds, GridCell};

verus! {

pub open spec fn representable(p: (int, int)) -> bool {
    isize::MIN <= p.0 <= isize::MAX && isize::MIN <= p.1 <= isize::MAX
}

pub open spec fn cell_at(p: (int, int)) -> GridCell {
    GridCell { x: p.0 as isize, y: p.1 as isize }
}

/// Walking by a fixed vector: each evaluation steps the agent once, and the walk
/// succeeds when the step after that would leave the bounds.
#[derive(Clone, Copy, Debug)]
pub struct WalkInDirectionUntilOutOfBounds(pub (isize, isize));

pub open spec fn shifted(c: GridCell, d: (isize, isize)) -> (int, int) {
    (c.x + d.0, c.y + d.1)
}

/// One evaluation of a walk by `d` from `c`: the agent moves by `d` and the walk
/// succeeds when one more step would leave the bounds. A step that would leave the
/// range of `isize` is not taken, and the walk succeeds.
pub open spec fn walk_outcome(b: GridBounds, c: GridCell, d: (isize, isize)) -> (GridCell, Status) {
    let p = shifted(c, d);
    if representable(p) {
        let n = (p.0 + d.0, p.1 + d.1);
        (cell_at(p), if b.contains_point(n) {
            Status::Running
        } else {
            Status::Success
        })
    } else {
        (c, Status::Success)
    }
}

/// The direction negated on both axes.
pub open spec fn reversed(d: (isize, isize)) -> (isize, isize) {
    ((-d.0) as isize, (-d.1) as isize)
}

/// A direction whose negation is an `isize` too.
pub open spec fn reversible(d: (isize, isize)) -> bool {
    d.0 > isize::MIN && d.1 > isize::MIN
}

impl WalkInDirectionUntilOutOfBounds {
    pub fn new(x: isize, y: isize) -> (r: WalkInDirectionUntilOutOfBounds)
        ensures
            r.0 == (x, y),
    {
        WalkInDirectionUntilOutOfBounds((x, y))
    }

    /// Turns the walk around.
    pub fn reverse(&mut self)
        requires
            reversible(old(self).0),
        ensures
            final(self).0 == reversed(old(self).0),
            reversible(final(self).0),
    {
        self.0.0 = -self.0.0;
        self.0.1 = -self.0.1;
    }

    /// The cell one step away from `from`.
    pub fn step_from(&self, from: &GridCell) -> (r: GridCell)
        requires
            representable(shifted(*from, self.0)),
        ensures
            r == cell_at(shifted(*from, self.0)),
    {
        GridCell::new(from.x + self.0.0, from.y + self.0.1)
    }

    /// One evaluation of the walk for an agent standing on `cell`.
    pub fn evaluate(&self, bounds: &GridBounds, cell: &GridCell) -> (r: (GridCell, Status))
        ensures
            r == walk_outcome(*bounds, *cell, self.0),
    {
        proof {
            use_type_invariant(bounds);
            bounds.lemma_inv_valid();
        }
        let (dx, dy) = self.0;
        match (cell.x.checked_add(dx), cell.y.checked_add(dy)) {
            (Some(x), Some(y)) => {
                let next = GridCell::new(x, y);
                let status = match (x.checked_add(dx), y.checked_add(dy)) {
                    (Some(nx), Some(ny)) => if bounds.contains(&GridCell::new(nx, ny)) {
                        Status::Running
                    } else {
                        Status::Success
                    },
                    _ => Status::Success,
                };
                (next, status)
            },
            _ => (*cell, Status::Success),
        }
    }
}

/// The naive left-right walk, without a behaviour tree: the agent steps, and the walk
/// turns around when the next step would leave the bounds.
pub open spec fn naive_outcome(b: GridBounds, c: GridCell, d: (isize, isize)) -> (
    GridCell,
    (isize, isize),
) {
    let (c2, s) = walk_outcome(b, c, d);
    (c2, if s == Status::Success {
        reversed(d)
    } else {
        d
    })
}

/// One naive step of an agent on `cell` walking by `walk`.
pub fn naive_step(bounds: &GridBounds, cell: &mut GridCell, walk: &mut WalkInDirectionUntilOutOfBounds)
    requires
        reversible(old(walk).0),
    ensures
        (*final(cell), final(walk).0) == naive_outcome(*bounds, *old(cell), old(walk).0),
        reversible(final(walk).0),
{
    let (next, status) = walk.evaluate(bounds, cell);
    *cell = next;
    if status == Status::Success {
        walk.reverse();
    }
}

} // verus!
