use vstd::prelude::*;

use crate::behave::{descend, resume, Behave, Condition, Frame, Status, Tree};
use crate::grid::{GridBounds, GridCell};
use crate::hunger::Hunger;
use crate::items::TargetKind;
use crate::target_finding::{FindTarget, GoToTarget};
use crate::walking::{walk_outcome, WalkInDirectionUntilOutOfBounds};

verus! {

/// How far agents look for items.
pub const VIEWING_DISTANCE: usize = 8;

/// The hunger fraction below which the hunger-based behaviour looks for fruit: 2/5.
pub const HUNGRY_NUMERATOR: usize = 2;

pub const HUNGRY_DENOMINATOR: usize = 5;

/// The leaf actions of the simulation's behaviour trees.
#[derive(Clone, Copy, Debug)]
pub enum Action {
    WalkInDirectionUntilOutOfBounds(WalkInDirectionUntilOutOfBounds),
    WanderUntilVisible(FindTarget),
    FindTarget(FindTarget),
    GoToTarget(GoToTarget),
    PickUpStuff,
}

/// The movement behaviours that can be installed on all agents.
#[derive(Clone, Copy, Debug, PartialEq, Eq, Structural)]
pub enum MovementBehaviour {
    WalkLeftRightNaive,
    WalkLeftRight,
    WalkClockwise,
    MoveToClosestFruit,
    HungerBased,
}

/// The frames after a leaf reported `r`: unchanged while it runs, else resumed.
pub open spec fn advance<A>(nodes: Seq<Behave<A>>, path: Seq<Frame>, r: Status, hunger: Option<Hunger>) -> Seq<Frame> {
    if r == Status::Running {
        path
    } else {
        resume(nodes, path.drop_last(), r, hunger)
    }
}

/// A walk leaf by `d`.
pub open spec fn is_walk(n: Behave<Action>, d: (isize, isize)) -> bool {
    n matches Behave::Leaf { action: Action::WalkInDirectionUntilOutOfBounds(w) } && w.0 == d
}

/// A find-target leaf for `kind` at the standard viewing distance.
pub open spec fn is_finder(n: Behave<Action>, kind: TargetKind) -> bool {
    n matches Behave::Leaf { action: Action::FindTarget(f) } && f.kind == kind
        && f.viewing_distance == VIEWING_DISTANCE
}

/// A go-to-target leaf.
pub open spec fn is_go_to(n: Behave<Action>) -> bool {
    n matches Behave::Leaf { action: Action::GoToTarget(_) }
}

/// `Forever(Sequence[walk (-1, 0), walk (1, 0)])`.
pub open spec fn is_left_right_tree(nodes: Seq<Behave<Action>>) -> bool {
    &&& nodes.len() == 4
    &&& nodes[0] matches Behave::Forever { child } && child == 1
    &&& nodes[1] matches Behave::Sequence { children } && children@ == seq![2usize, 3usize]
    &&& is_walk(nodes[2], (-1isize, 0isize))
    &&& is_walk(nodes[3], (1isize, 0isize))
}

/// `Forever(Sequence[walk left, walk up, walk right, walk down])`, where up is `+y`.
pub open spec fn is_clockwise_tree(nodes: Seq<Behave<Action>>) -> bool {
    &&& nodes.len() == 6
    &&& nodes[0] matches Behave::Forever { child } && child == 1
    &&& nodes[1] matches Behave::Sequence { children } && children@ == seq![2usize, 3usize, 4usize, 5usize]
    &&& is_walk(nodes[2], (-1isize, 0isize))
    &&& is_walk(nodes[3], (0isize, 1isize))
    &&& is_walk(nodes[4], (1isize, 0isize))
    &&& is_walk(nodes[5], (0isize, -1isize))
}

/// `Forever(Sequence[find fruit, go to target])`.
pub open spec fn is_closest_fruit_tree(nodes: Seq<Behave<Action>>) -> bool {
    &&& nodes.len() == 4
    &&& nodes[0] matches Behave::Forever { child } && child == 1
    &&& nodes[1] matches Behave::Sequence { children } && children@ == seq![2usize, 3usize]
    &&& is_finder(nodes[2], TargetKind::Fruit)
    &&& is_go_to(nodes[3])
}

/// `Forever(Sequence[IfThen(hungry, find fruit, find coins), go to target])`.
pub open spec fn is_hunger_based_tree(nodes: Seq<Behave<Action>>) -> bool {
    &&& nodes.len() == 6
    &&& nodes[0] matches Behave::Forever { child } && child == 1
    &&& nodes[1] matches Behave::Sequence { children } && children@ == seq![2usize, 5usize]
    &&& nodes[2] matches Behave::IfThen { condition, then_branch, else_branch } && condition
        == (Condition::HungerCheck {
        numerator: HUNGRY_NUMERATOR,
        denominator: HUNGRY_DENOMINATOR,
    }) && then_branch == 3 && else_branch == 4
    &&& is_finder(nodes[3], TargetKind::Fruit)
    &&& is_finder(nodes[4], TargetKind::Coins)
    &&& is_go_to(nodes[5])
}

/// `Forever(pick up)`.
pub open spec fn is_pick_up_tree(nodes: Seq<Behave<Action>>) -> bool {
    &&& nodes.len() == 2
    &&& nodes[0] matches Behave::Forever { child } && child == 1
    &&& nodes[1] matches Behave::Leaf { action: Action::PickUpStuff }
}

fn walk_leaf(x: isize, y: isize) -> (r: Behave<Action>)
    ensures
        is_walk(r, (x, y)),
{
    Behave::Leaf {
        action: Action::WalkInDirectionUntilOutOfBounds(WalkInDirectionUntilOutOfBounds::new(x, y)),
    }
}

fn finder_leaf(kind: TargetKind) -> (r: Behave<Action>)
    ensures
        is_finder(r, kind),
{
    Behave::Leaf { action: Action::FindTarget(FindTarget::new(kind, VIEWING_DISTANCE)) }
}

/// Walks left until the edge, then right until the other edge, forever.
pub fn walk_left_right_tree() -> (r: Tree<Action>)
    ensures
        r.wf(),
        is_left_right_tree(r.nodes_spec()),
{
    let nodes = vec![
        Behave::Forever { child: 1 },
        Behave::Sequence { children: vec![2, 3] },
        walk_leaf(-1, 0),
        walk_leaf(1, 0),
    ];
    let r = Tree::new(nodes);
    proof {
        let n = r.nodes_spec();
        assert(crate::behave::node_ok(n, 1));
        assert(forall|i: int| 0 <= i < n.len() ==> #[trigger] crate::behave::node_ok(n, i));
    }
    r
}

/// Walks around the grid's edge: left, up, right, down, forever.
pub fn walk_clockwise_tree() -> (r: Tree<Action>)
    ensures
        r.wf(),
        is_clockwise_tree(r.nodes_spec()),
{
    let nodes = vec![
        Behave::Forever { child: 1 },
        Behave::Sequence { children: vec![2, 3, 4, 5] },
        walk_leaf(-1, 0),
        walk_leaf(0, 1),
        walk_leaf(1, 0),
        walk_leaf(0, -1),
    ];
    let r = Tree::new(nodes);
    proof {
        let n = r.nodes_spec();
        assert(crate::behave::node_ok(n, 1));
        assert(forall|i: int| 0 <= i < n.len() ==> #[trigger] crate::behave::node_ok(n, i));
    }
    r
}

/// Finds the closest fruit in sight and walks to it, forever.
pub fn move_to_closest_fruit_tree() -> (r: Tree<Action>)
    ensures
        r.wf(),
        is_closest_fruit_tree(r.nodes_spec()),
{
    let nodes = vec![
        Behave::Forever { child: 1 },
        Behave::Sequence { children: vec![2, 3] },
        finder_leaf(TargetKind::Fruit),
        Behave::Leaf { action: Action::GoToTarget(GoToTarget) },
    ];
    let r = Tree::new(nodes);
    proof {
        let n = r.nodes_spec();
        assert(crate::behave::node_ok(n, 1));
        assert(forall|i: int| 0 <= i < n.len() ==> #[trigger] crate::behave::node_ok(n, i));
    }
    r
}

/// Looks for fruit when hungry and for coins otherwise, then walks to what it found,
/// forever.
pub fn hunger_based_tree() -> (r: Tree<Action>)
    ensures
        r.wf(),
        is_hunger_based_tree(r.nodes_spec()),
{
    let nodes = vec![
        Behave::Forever { child: 1 },
        Behave::Sequence { children: vec![2, 5] },
        Behave::IfThen {
            condition: Condition::HungerCheck {
                numerator: HUNGRY_NUMERATOR,
                denominator: HUNGRY_DENOMINATOR,
            },
            then_branch: 3,
            else_branch: 4,
        },
        finder_leaf(TargetKind::Fruit),
        finder_leaf(TargetKind::Coins),
        Behave::Leaf { action: Action::GoToTarget(GoToTarget) },
    ];
    let r = Tree::new(nodes);
    proof {
        let n = r.nodes_spec();
        assert(crate::behave::node_ok(n, 1));
        assert(forall|i: int| 0 <= i < n.len() ==> #[trigger] crate::behave::node_ok(n, i));
    }
    r
}

/// Picks up whatever lies on the agent's cell, forever.
pub fn pick_up_tree() -> (r: Tree<Action>)
    ensures
        r.wf(),
        is_pick_up_tree(r.nodes_spec()),
{
    let nodes = vec![Behave::Forever { child: 1 }, Behave::Leaf { action: Action::PickUpStuff }];
    let r = Tree::new(nodes);
    proof {
        let n = r.nodes_spec();
        assert(forall|i: int| 0 <= i < n.len() ==> #[trigger] crate::behave::node_ok(n, i));
    }
    r
}

/// The tree of a tree-based movement behaviour (all but the naive walk).
pub fn movement_tree(kind: MovementBehaviour) -> (r: Option<Tree<Action>>)
    ensures
        kind == MovementBehaviour::WalkLeftRightNaive <==> r is None,
        r matches Some(t) ==> t.wf(),
        kind == MovementBehaviour::WalkLeftRight ==> (r matches Some(t) && is_left_right_tree(t.nodes_spec())),
        kind == MovementBehaviour::WalkClockwise ==> (r matches Some(t) && is_clockwise_tree(t.nodes_spec())),
        kind == MovementBehaviour::MoveToClosestFruit ==> (r matches Some(t) && is_closest_fruit_tree(t.nodes_spec())),
        kind == MovementBehaviour::HungerBased ==> (r matches Some(t) && is_hunger_based_tree(t.nodes_spec())),
{
    match kind {
        MovementBehaviour::WalkLeftRightNaive => None,
        MovementBehaviour::WalkLeftRight => Some(walk_left_right_tree()),
        MovementBehaviour::WalkClockwise => Some(walk_clockwise_tree()),
        MovementBehaviour::MoveToClosestFruit => Some(move_to_closest_fruit_tree()),
        MovementBehaviour::HungerBased => Some(hunger_based_tree()),
    }
}

/// The frames while walking left in the left-right tree.
pub open spec fn walking_left() -> Seq<Frame> {
    seq![Frame { node: 0, slot: 0 }, Frame { node: 1, slot: 0 }, Frame { node: 2, slot: 0 }]
}

/// The frames while walking right in the left-right tree.
pub open spec fn walking_right() -> Seq<Frame> {
    seq![Frame { node: 0, slot: 0 }, Frame { node: 1, slot: 1 }, Frame { node: 3, slot: 0 }]
}

/// The states of the left-right walk on its way between the turning points: walking
/// left strictly right of the left edge, or walking right strictly left of the last
/// column, on an in-bounds row.
pub open spec fn oscillating(b: GridBounds, path: Seq<Frame>, c: GridCell) -> bool {
    &&& b.top() <= c.y < b.bottom()
    &&& {
        ||| path == walking_left() && b.left() < c.x < b.right()
        ||| path == walking_right() && b.left() <= c.x < b.right() - 1
    }
}

/// An instance of the left-right tree starts out walking left, and an agent on the
/// origin starts out oscillating.
pub proof fn lemma_left_right_starts(nodes: Seq<Behave<Action>>, b: GridBounds, hunger: Option<Hunger>)
    requires
        is_left_right_tree(nodes),
        b.valid(),
    ensures
        descend(nodes, 0, hunger) == walking_left(),
        oscillating(b, walking_left(), GridCell { x: 0, y: 0 }),
{
    let d1 = descend(nodes, 2, hunger);
    assert(d1 == seq![Frame { node: 2, slot: 0 }]);
    let d0 = descend(nodes, 1, hunger);
    assert(d0 == seq![Frame { node: 1, slot: 0 }] + d1);
    assert(descend(nodes, 0, hunger) == seq![Frame { node: 0, slot: 0 }] + d0);
    assert(descend(nodes, 0, hunger) =~= walking_left());
    crate::grid::lemma_bounds_edges(b);
}

/// Two opposite walks in a sequence under `Forever` make the agent oscillate between
/// the two turning points: while walking left it moves one cell left per evaluation and
/// turns exactly when it reaches the left edge; while walking right it moves one cell
/// right and turns exactly when it reaches the last column; and it stays oscillating.
pub proof fn lemma_left_right_oscillates(
    nodes: Seq<Behave<Action>>,
    b: GridBounds,
    path: Seq<Frame>,
    c: GridCell,
    hunger: Option<Hunger>,
)
    requires
        is_left_right_tree(nodes),
        b.valid(),
        oscillating(b, path, c),
    ensures
        ({
            let d = if path == walking_left() {
                (-1isize, 0isize)
            } else {
                (1isize, 0isize)
            };
            let (c2, s) = walk_outcome(b, c, d);
            let path2 = advance(nodes, path, s, hunger);
            &&& oscillating(b, path2, c2)
            &&& c2.y == c.y
            &&& path == walking_left() ==> c2.x == c.x - 1 && (path2 == walking_right() <==> c2.x
                == b.left())
            &&& path == walking_right() ==> c2.x == c.x + 1 && (path2 == walking_left() <==> c2.x
                == b.right() - 1)
        }),
{
    crate::grid::lemma_bounds_edges(b);
    let d3 = descend(nodes, 3, hunger);
    assert(d3 == seq![Frame { node: 3, slot: 0 }]);
    let d2 = descend(nodes, 2, hunger);
    assert(d2 == seq![Frame { node: 2, slot: 0 }]);
    let d1 = descend(nodes, 1, hunger);
    assert(d1 == seq![Frame { node: 1, slot: 0 }] + d2);
    if path == walking_left() {
        let rest = path.drop_last();
        assert(rest =~= seq![Frame { node: 0, slot: 0 }, Frame { node: 1, slot: 0 }]);
        assert(rest.drop_last().push(Frame { node: 1, slot: 1 }) + d3 =~= walking_right());
        assert(resume(nodes, rest, Status::Success, hunger) == walking_right());
        assert(walking_left() != walking_right()) by {
            assert(walking_left()[1] != walking_right()[1]);
        }
    } else {
        let rest = path.drop_last();
        assert(rest =~= seq![Frame { node: 0, slot: 0 }, Frame { node: 1, slot: 1 }]);
        let root = rest.drop_last();
        assert(root =~= seq![Frame { node: 0, slot: 0 }]);
        assert(resume(nodes, root.drop_last(), Status::Success, hunger) == Seq::<Frame>::empty());
        assert(root + d1 =~= walking_left());
        assert(resume(nodes, root, Status::Success, hunger) == walking_left());
        assert(resume(nodes, rest, Status::Success, hunger) == walking_left());
        assert(walking_left() != walking_right()) by {
            assert(walking_left()[1] != walking_right()[1]);
        }
    }
}

} // verus!
