use vstd::prelude::*;

use bevy_rand::prelude::WyRand;

use crate::behave::Status;
use crate::grid::{dist_sq, neighbour_points, point_of, step_toward, GridBounds, GridCell};
use crate::items::{kind_of, Item, TargetKind};
use crate::rng::random_in;

verus! {

/// Whether `to` is within `viewing_distance` (Euclidean) of `from`.
pub open spec fn sees(from: GridCell, to: GridCell, viewing_distance: nat) -> bool {
    dist_sq(from, to) <= viewing_distance * viewing_distance
}

/// Item `i` is of `kind` and within `viewing_distance` of `from`.
pub open spec fn visible(
    items: Seq<Item>,
    i: int,
    from: GridCell,
    kind: TargetKind,
    viewing_distance: nat,
) -> bool {
    kind_of(items[i].resource) == kind && sees(from, items[i].cell, viewing_distance)
}

pub open spec fn any_visible(
    items: Seq<Item>,
    from: GridCell,
    kind: TargetKind,
    viewing_distance: nat,
) -> bool {
    exists|j: int| 0 <= j < items.len() && #[trigger] visible(items, j, from, kind, viewing_distance)
}

/// Item `i` is the visible item nearest to `from`, the first in the list among equally
/// near ones.
pub open spec fn is_closest(
    items: Seq<Item>,
    i: int,
    from: GridCell,
    kind: TargetKind,
    viewing_distance: nat,
) -> bool {
    &&& 0 <= i < items.len()
    &&& visible(items, i, from, kind, viewing_distance)
    &&& forall|j: int|
        0 <= j < items.len() && #[trigger] visible(items, j, from, kind, viewing_distance)
            ==> dist_sq(from, items[i].cell) <= dist_sq(from, items[j].cell)
    &&& forall|j: int|
        0 <= j < i && #[trigger] visible(items, j, from, kind, viewing_distance) ==> dist_sq(
            from,
            items[i].cell,
        ) < dist_sq(from, items[j].cell)
}

/// At most one item is the closest one.
pub proof fn lemma_closest_unique(
    items: Seq<Item>,
    i: int,
    k: int,
    from: GridCell,
    kind: TargetKind,
    viewing_distance: nat,
)
    requires
        is_closest(items, i, from, kind, viewing_distance),
        is_closest(items, k, from, kind, viewing_distance),
    ensures
        i == k,
{
    if i < k {
        assert(visible(items, i, from, kind, viewing_distance));
        assert(visible(items, k, from, kind, viewing_distance));
    } else if k < i {
        assert(visible(items, i, from, kind, viewing_distance));
        assert(visible(items, k, from, kind, viewing_distance));
    }
}

pub open spec fn keep_point(b: GridBounds, p: (int, int)) -> Seq<(int, int)> {
    if b.contains_point(p) {
        seq![p]
    } else {
        seq![]
    }
}

/// The in-bounds axis neighbours of `c`, in the order left, right, up, down.
pub open spec fn neighbour_options(b: GridBounds, c: GridCell) -> Seq<(int, int)> {
    let n = neighbour_points(c);
    keep_point(b, n[0]) + keep_point(b, n[1]) + keep_point(b, n[2]) + keep_point(b, n[3])
}

/// `to` is where a random step from `from` may lead: one of its in-bounds neighbours,
/// or `from` itself where it has none.
pub open spec fn wandered(b: GridBounds, from: GridCell, to: GridCell) -> bool {
    let options = neighbour_options(b, from);
    if options.len() == 0 {
        to == from
    } else {
        exists|k: int| 0 <= k < options.len() && point_of(to) == #[trigger] options[k]
    }
}

/// The in-bounds neighbours of `cell` (see `neighbour_options`).
pub fn in_bounds_neighbours(bounds: &GridBounds, cell: &GridCell) -> (r: Vec<GridCell>)
    ensures
        r@.len() == neighbour_options(*bounds, *cell).len(),
        forall|k: int| 0 <= k < r@.len() ==> point_of(#[trigger] r@[k]) == neighbour_options(*bounds, *cell)[k],
{
    let ghost n = neighbour_points(*cell);
    let mut r: Vec<GridCell> = Vec::new();
    let ghost mut acc: Seq<(int, int)> = seq![];
    proof {
        use_type_invariant(bounds);
        bounds.lemma_inv_valid();
    }
    // left
    if cell.x > isize::MIN {
        let c = GridCell::new(cell.x - 1, cell.y);
        if bounds.contains(&c) {
            r.push(c);
        }
    }
    proof {
        acc = keep_point(*bounds, n[0]);
    }
    assert(r@.len() == acc.len());
    assert(forall|k: int| 0 <= k < r@.len() ==> point_of(#[trigger] r@[k]) == acc[k]);
    // right
    if cell.x < isize::MAX {
        let c = GridCell::new(cell.x + 1, cell.y);
        if bounds.contains(&c) {
            r.push(c);
        }
    }
    proof {
        acc = acc + keep_point(*bounds, n[1]);
    }
    assert(r@.len() == acc.len());
    assert(forall|k: int| 0 <= k < r@.len() ==> point_of(#[trigger] r@[k]) == acc[k]);
    // up
    if cell.y > isize::MIN {
        let c = GridCell::new(cell.x, cell.y - 1);
        if bounds.contains(&c) {
            r.push(c);
        }
    }
    proof {
        acc = acc + keep_point(*bounds, n[2]);
    }
    assert(r@.len() == acc.len());
    assert(forall|k: int| 0 <= k < r@.len() ==> point_of(#[trigger] r@[k]) == acc[k]);
    // down
    if cell.y < isize::MAX {
        let c = GridCell::new(cell.x, cell.y + 1);
        if bounds.contains(&c) {
            r.push(c);
        }
    }
    proof {
        acc = acc + keep_point(*bounds, n[3]);
    }
    assert(r@.len() == acc.len());
    assert(forall|k: int| 0 <= k < r@.len() ==> point_of(#[trigger] r@[k]) == acc[k]);
    r
}

/// Moves `cell` to a random in-bounds neighbour drawn from `rng`; where there is none,
/// the cell stays.
pub fn wander(bounds: &GridBounds, cell: &mut GridCell, rng: &mut WyRand)
    ensures
        wandered(*bounds, *old(cell), *final(cell)),
{
    let options = in_bounds_neighbours(bounds, cell);
    if options.len() > 0 {
        let pick = random_in(rng, 0, options.len() as isize) as usize;
        *cell = options[pick];
        proof {
            assert(point_of(*cell) == neighbour_options(*bounds, *old(cell))[pick as int]);
        }
    }
}

/// Looking for the closest item of `kind` within `viewing_distance` of the agent.
#[derive(Clone, Copy, Debug, PartialEq, Eq, Structural)]
pub struct FindTarget {
    pub kind: TargetKind,
    pub viewing_distance: usize,
}

impl FindTarget {
    pub fn new(kind: TargetKind, viewing_distance: usize) -> (r: FindTarget)
        ensures
            r.kind == kind,
            r.viewing_distance == viewing_distance,
    {
        FindTarget { kind, viewing_distance }
    }

    /// Whether `to` is within the viewing distance of `from`.
    pub fn can_see(&self, from: &GridCell, to: &GridCell) -> (r: bool)
        ensures
            r == sees(*from, *to, self.viewing_distance as nat),
    {
        let vd = self.viewing_distance as u128;
        proof {
            assert(vd * vd <= u128::MAX) by (nonlinear_arith)
                requires
                    vd <= usize::MAX,
            ;
            assert(vd * vd == (self.viewing_distance as nat) * (self.viewing_distance as nat));
        }
        match from.distance_squared(to) {
            Some(d) => d <= vd * vd,
            None => false,
        }
    }

    /// The index of the closest visible item of the kind (see `is_closest`), or `None`
    /// where no item of the kind is visible from `from`.
    pub fn closest_visible(&self, items: &Vec<Item>, from: &GridCell) -> (r: Option<usize>)
        ensures
            r matches Some(i) ==> is_closest(items@, i as int, *from, self.kind, self.viewing_distance as nat),
            r is None <==> !any_visible(items@, *from, self.kind, self.viewing_distance as nat),
    {
        let ghost s = items@;
        let ghost vd = self.viewing_distance as nat;
        let mut best: Option<usize> = None;
        let mut best_d: u128 = 0;
        let mut j: usize = 0;
        while j < items.len()
            invariant
                s == items@,
                vd == self.viewing_distance,
                j <= s.len(),
                best is None ==> forall|k: int| 0 <= k < j ==> !#[trigger] visible(s, k, *from, self.kind, vd),
                best matches Some(b) ==> {
                    &&& b < j
                    &&& visible(s, b as int, *from, self.kind, vd)
                    &&& best_d == dist_sq(*from, s[b as int].cell)
                    &&& forall|k: int|
                        0 <= k < j && #[trigger] visible(s, k, *from, self.kind, vd) ==> best_d
                            <= dist_sq(*from, s[k].cell)
                    &&& forall|k: int|
                        0 <= k < b && #[trigger] visible(s, k, *from, self.kind, vd) ==> best_d
                            < dist_sq(*from, s[k].cell)
                },
            decreases s.len() - j,
        {
            let item = &items[j];
            if item.resource.kind() == self.kind && self.can_see(from, &item.cell) {
                let d = from.distance_squared(&item.cell);
                proof {
                    assert(vd * vd <= u128::MAX) by (nonlinear_arith)
                        requires
                            vd <= usize::MAX,
                    ;
                    assert(visible(s, j as int, *from, self.kind, vd));
                }
                let d = d.unwrap();
                proof {
                    assert(d == dist_sq(*from, s[j as int].cell));
                }
                match best {
                    None => {
                        best = Some(j);
                        best_d = d;
                    },
                    Some(_) => {
                        if d < best_d {
                            best = Some(j);
                            best_d = d;
                        }
                    },
                }
            }
            j = j + 1;
        }
        proof {
            if best is None {
                assert forall|k: int| 0 <= k < s.len() implies !#[trigger] visible(s, k, *from, self.kind, vd) by {}
            } else {
                assert(visible(s, best->0 as int, *from, self.kind, vd));
            }
        }
        best
    }
}

/// Where a finder leaves the agent: the target it picked, or the same target and a
/// random step when nothing is in sight.
pub open spec fn found_target(
    finder: FindTarget,
    bounds: GridBounds,
    items: Seq<Item>,
    cell: GridCell,
    target: Option<u64>,
    cell2: GridCell,
    target2: Option<u64>,
    status: Status,
) -> bool {
    if any_visible(items, cell, finder.kind, finder.viewing_distance as nat) {
        &&& exists|i: int|
            is_closest(items, i, cell, finder.kind, finder.viewing_distance as nat) && target2
                == Some(#[trigger] items[i].id)
        &&& cell2 == cell
        &&& status == Status::Success
    } else {
        &&& target2 == target
        &&& wandered(bounds, cell, cell2)
        &&& status == Status::Running
    }
}

/// Where a wanderer leaves the agent: in place once an item of the kind is in sight,
/// else one random step further.
pub open spec fn wandered_until_visible(
    finder: FindTarget,
    bounds: GridBounds,
    items: Seq<Item>,
    cell: GridCell,
    cell2: GridCell,
    status: Status,
) -> bool {
    if any_visible(items, cell, finder.kind, finder.viewing_distance as nat) {
        cell2 == cell && status == Status::Success
    } else {
        wandered(bounds, cell, cell2) && status == Status::Running
    }
}

impl FindTarget {
    /// One evaluation of the find-target leaf: sets the target to the closest visible
    /// item and succeeds, or takes a random step and keeps running.
    pub fn find(
        &self,
        bounds: &GridBounds,
        items: &Vec<Item>,
        cell: &mut GridCell,
        target: &mut Option<u64>,
        rng: &mut WyRand,
    ) -> (status: Status)
        ensures
            found_target(*self, *bounds, items@, *old(cell), *old(target), *final(cell), *final(target), status),
    {
        match self.closest_visible(items, cell) {
            Some(i) => {
                *target = Some(items[i].id);
                Status::Success
            },
            None => {
                wander(bounds, cell, rng);
                Status::Running
            },
        }
    }

    /// One evaluation of the wander-until-visible leaf.
    pub fn wander_until_visible(
        &self,
        bounds: &GridBounds,
        items: &Vec<Item>,
        cell: &mut GridCell,
        rng: &mut WyRand,
    ) -> (status: Status)
        ensures
            wandered_until_visible(*self, *bounds, items@, *old(cell), *final(cell), status),
    {
        match self.closest_visible(items, cell) {
            Some(_) => Status::Success,
            None => {
                wander(bounds, cell, rng);
                Status::Running
            },
        }
    }
}

/// The index of the first item with identity `id`, or -1.
pub open spec fn first_with_id(items: Seq<Item>, id: u64) -> int
    decreases items.len(),
{
    if items.len() == 0 {
        -1
    } else if first_with_id(items.drop_last(), id) >= 0 {
        first_with_id(items.drop_last(), id)
    } else if items.last().id == id {
        items.len() - 1
    } else {
        -1
    }
}

/// `first_with_id` is the index of an item with that identity, with none before it, or
/// -1 when no item has it.
pub proof fn lemma_first_with_id(items: Seq<Item>, id: u64)
    ensures
        -1 <= first_with_id(items, id) < items.len(),
        first_with_id(items, id) >= 0 ==> items[first_with_id(items, id)].id == id,
        first_with_id(items, id) == -1 ==> forall|k: int| 0 <= k < items.len() ==> #[trigger] items[k].id != id,
        forall|k: int| 0 <= k < first_with_id(items, id) ==> #[trigger] items[k].id != id,
    decreases items.len(),
{
    if items.len() > 0 {
        lemma_first_with_id(items.drop_last(), id);
        let p = items.drop_last();
        assert forall|k: int| 0 <= k < p.len() implies #[trigger] items[k].id == p[k].id by {}
    }
}

/// Finds the item with identity `id`.
pub fn find_item(items: &Vec<Item>, id: u64) -> (r: Option<usize>)
    ensures
        r matches Some(i) ==> i == first_with_id(items@, id) && i < items@.len() && items@[i as int].id == id,
        r is None <==> first_with_id(items@, id) == -1,
{
    proof {
        lemma_first_with_id(items@, id);
    }
    let mut j: usize = 0;
    while j < items.len()
        invariant
            j <= items@.len(),
            -1 <= first_with_id(items@, id) < items@.len(),
            first_with_id(items@, id) >= 0 ==> items@[first_with_id(items@, id)].id == id,
            first_with_id(items@, id) == -1 ==> forall|k: int| 0 <= k < items@.len() ==> #[trigger] items@[k].id != id,
            forall|k: int| 0 <= k < first_with_id(items@, id) ==> #[trigger] items@[k].id != id,
            forall|k: int| 0 <= k < j ==> #[trigger] items@[k].id != id,
        decreases items@.len() - j,
    {
        if items[j].id == id {
            return Some(j);
        }
        j = j + 1;
    }
    None
}

/// Heading for the current target.
#[derive(Clone, Copy, Debug, PartialEq, Eq, Structural)]
pub struct GoToTarget;

/// One evaluation of the go-to-target leaf: with no target, or a target that no longer
/// exists, or one already reached, the target is cleared and the leaf succeeds;
/// otherwise the agent takes one greedy step toward it and keeps running.
pub open spec fn go_to_outcome(items: Seq<Item>, cell: GridCell, target: Option<u64>) -> (
    GridCell,
    Option<u64>,
    Status,
) {
    match target {
        None => (cell, None, Status::Success),
        Some(id) => {
            let i = first_with_id(items, id);
            if i < 0 || items[i].cell == cell {
                (cell, None, Status::Success)
            } else {
                (step_toward(cell, items[i].cell), target, Status::Running)
            }
        },
    }
}

impl GoToTarget {
    pub fn go(&self, items: &Vec<Item>, cell: &mut GridCell, target: &mut Option<u64>) -> (status:
        Status)
        ensures
            (*final(cell), *final(target), status) == go_to_outcome(items@, *old(cell), *old(target)),
    {
        match *target {
            None => Status::Success,
            Some(id) => match find_item(items, id) {
                None => {
                    *target = None;
                    Status::Success
                },
                Some(i) => {
                    let goal = items[i].cell;
                    if goal == *cell {
                        *target = None;
                        Status::Success
                    } else {
                        cell.step_to(&goal);
                        Status::Running
                    }
                },
            },
        }
    }
}

} // verus!
