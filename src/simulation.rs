use vstd::prelude::*;

use bevy_rand::prelude::WyRand;

use crate::behave::{descend, tree_nodes, Behave, BehaveInstance, Frame, Status, Tree};
use crate::behaviours::{
    advance, is_clockwise_tree, is_closest_fruit_tree, is_hunger_based_tree, is_left_right_tree,
    is_pick_up_tree, movement_tree, pick_up_tree, Action, MovementBehaviour,
};
use crate::grid::{GridBounds, GridCell};
use crate::hunger::{min, Hunger, DEFAULT_HUNGER_CAPACITY};
use crate::pickups::{coins_on, consumed, fruit_on, kept};
use crate::items::{count_kind, kind_of, Coin, Fruit, Item, Resource, TargetKind};
use crate::points::{Points, DEFAULT_POINTS_GOAL};
use crate::rng::seeded_rng;
use crate::schedule::Schedule;
use crate::target_finding::{found_target, go_to_outcome, wandered_until_visible, any_visible};
use crate::walking::{naive_outcome, reversible, walk_outcome, naive_step, WalkInDirectionUntilOutOfBounds};

verus! {

/// An agent: where it stands, its stats, the item it is heading for, and its running
/// behaviours (a naive walk or a movement tree instance, and the pickup instance).
pub struct Agent {
    pub id: u64,
    pub cell: GridCell,
    pub hunger: Option<Hunger>,
    pub points: Points,
    pub target: Option<u64>,
    pub naive_walk: Option<WalkInDirectionUntilOutOfBounds>,
    pub movement: Option<BehaveInstance>,
    pub pickup: BehaveInstance,
}

/// The frames of the pickup instance, which always stands on its one leaf.
pub open spec fn pick_up_path() -> Seq<Frame> {
    seq![Frame { node: 0, slot: 0 }, Frame { node: 1, slot: 0 }]
}

/// An agent's own consistency with the simulation's current behaviours.
pub open spec fn agent_wf(
    a: Agent,
    movement_nodes: Option<Seq<Behave<Action>>>,
    hunger_enabled: bool,
) -> bool {
    &&& (a.hunger is Some <==> hunger_enabled)
    &&& (a.hunger matches Some(h) ==> h.wf())
    &&& a.points.wf()
    &&& (a.naive_walk matches Some(w) ==> reversible(w.0))
    &&& (a.naive_walk is Some ==> a.movement is None)
    &&& (a.movement matches Some(m) ==> (movement_nodes matches Some(n) && m.wf_for(n)))
    &&& a.pickup.frames() == pick_up_path()
}

/// One evaluation of the leaf that `path` stands on, for agent `a`, giving agent `a2`
/// with frames `path2`.
pub open spec fn leaf_step(
    nodes: Seq<Behave<Action>>,
    b: GridBounds,
    items: Seq<Item>,
    a: Agent,
    path: Seq<Frame>,
    a2: Agent,
    path2: Seq<Frame>,
) -> bool {
    if path.len() == 0 {
        a2.cell == a.cell && a2.target == a.target && path2 == path
    } else {
        match nodes[path.last().node as int] {
            Behave::Leaf { action } => match action {
                Action::WalkInDirectionUntilOutOfBounds(w) => {
                    let (c, s) = walk_outcome(b, a.cell, w.0);
                    a2.cell == c && a2.target == a.target && path2 == advance(nodes, path, s, a.hunger)
                },
                Action::FindTarget(f) => {
                    let s = if any_visible(items, a.cell, f.kind, f.viewing_distance as nat) {
                        Status::Success
                    } else {
                        Status::Running
                    };
                    found_target(f, b, items, a.cell, a.target, a2.cell, a2.target, s) && path2
                        == advance(nodes, path, s, a.hunger)
                },
                Action::WanderUntilVisible(f) => {
                    let s = if any_visible(items, a.cell, f.kind, f.viewing_distance as nat) {
                        Status::Success
                    } else {
                        Status::Running
                    };
                    wandered_until_visible(f, b, items, a.cell, a2.cell, s) && a2.target == a.target
                        && path2 == advance(nodes, path, s, a.hunger)
                },
                Action::GoToTarget(_) => {
                    let (c, t, s) = go_to_outcome(items, a.cell, a.target);
                    a2.cell == c && a2.target == t && path2 == advance(nodes, path, s, a.hunger)
                },
                Action::PickUpStuff => a2.cell == a.cell && a2.target == a.target && path2 == path,
            },
            _ => a2.cell == a.cell && a2.target == a.target && path2 == path,
        }
    }
}

/// Agent `a` after the movement pass is `a2`: the naive walk steps it, or else its
/// movement instance evaluates its active leaf. Stats and the pickup instance stay.
pub open spec fn moved(
    nodes: Option<Seq<Behave<Action>>>,
    b: GridBounds,
    items: Seq<Item>,
    a: Agent,
    a2: Agent,
) -> bool {
    &&& a2.id == a.id
    &&& a2.hunger == a.hunger
    &&& a2.points == a.points
    &&& a2.pickup == a.pickup
    &&& match a.naive_walk {
        Some(w) => {
            &&& a2.naive_walk matches Some(w2) && (a2.cell, w2.0) == naive_outcome(b, a.cell, w.0)
            &&& a2.target == a.target
            &&& a2.movement is None
        },
        None => {
            &&& a2.naive_walk is None
            &&& match a.movement {
                None => a2.cell == a.cell && a2.target == a.target && a2.movement is None,
                Some(m) => a2.movement matches Some(m2) && nodes matches Some(n) && leaf_step(
                    n,
                    b,
                    items,
                    a,
                    m.frames(),
                    a2,
                    m2.frames(),
                ),
            }
        },
    }
}

/// Keeps the number of items of one kind at a target, one new item per tick.
#[derive(Clone, Copy, Debug, PartialEq, Eq, Structural)]
pub struct Spawner {
    pub kind: TargetKind,
    pub target_count: usize,
}

/// Nutritional value of a spawned fruit.
pub const FRUIT_NUTRITIONAL_VALUE: usize = 2;

/// Monetary value of a spawned coin.
pub const COIN_MONETARY_VALUE: usize = 2;

/// Number of fruit a requested fruit spawner maintains.
pub const FRUIT_TARGET_COUNT: usize = 20;

/// Number of coins a requested coin spawner maintains.
pub const COIN_TARGET_COUNT: usize = 10;

/// The whole simulation state: grid, agents, items, spawners and the current
/// behaviour settings.
pub struct Simulation {
    bounds: GridBounds,
    agents: Vec<Agent>,
    items: Vec<Item>,
    spawners: Vec<Spawner>,
    hunger_enabled: bool,
    naive_movement_enabled: bool,
    movement_tree: Option<Tree<Action>>,
    pickup_tree: Tree<Action>,
    next_id: u64,
    rng: WyRand,
}

impl Simulation {
    pub closed spec fn bounds_spec(&self) -> GridBounds {
        self.bounds
    }

    pub closed spec fn agents_spec(&self) -> Seq<Agent> {
        self.agents@
    }

    pub closed spec fn items_spec(&self) -> Seq<Item> {
        self.items@
    }

    pub closed spec fn spawners_spec(&self) -> Seq<Spawner> {
        self.spawners@
    }

    pub closed spec fn hunger_enabled_spec(&self) -> bool {
        self.hunger_enabled
    }

    pub closed spec fn naive_enabled_spec(&self) -> bool {
        self.naive_movement_enabled
    }

    pub closed spec fn movement_nodes(&self) -> Option<Seq<Behave<Action>>> {
        match self.movement_tree {
            Some(t) => Some(t.nodes_spec()),
            None => None,
        }
    }

    pub closed spec fn pickup_nodes(&self) -> Seq<Behave<Action>> {
        self.pickup_tree.nodes_spec()
    }

    pub closed spec fn next_id_spec(&self) -> nat {
        self.next_id as nat
    }

    /// The simulation's invariant: trees well formed, every agent consistent with the
    /// current behaviours, at most one spawner per kind, item identities increasing and
    /// below the next fresh identity.
    pub open spec fn wf(&self) -> bool {
        &&& (self.movement_nodes() matches Some(n) ==> crate::behave::tree_wf(n))
        &&& crate::behave::tree_wf(self.pickup_nodes())
        &&& is_pick_up_tree(self.pickup_nodes())
        &&& (self.naive_enabled_spec() ==> self.movement_nodes() is None)
        &&& forall|i: int|
            0 <= i < self.agents_spec().len() ==> agent_wf(
                #[trigger] self.agents_spec()[i],
                self.movement_nodes(),
                self.hunger_enabled_spec(),
            )
        &&& forall|i: int, j: int|
            0 <= i < j < self.spawners_spec().len() ==> #[trigger] self.spawners_spec()[i].kind
                != #[trigger] self.spawners_spec()[j].kind
        &&& ids_increasing(self.items_spec(), self.next_id_spec())
    }

    /// An empty simulation on a grid of `bounds`, drawing its random numbers from a
    /// generator seeded with `seed`.
    pub fn new(bounds: GridBounds, seed: u64) -> (r: Simulation)
        ensures
            r.wf(),
            r.bounds_spec() == bounds,
            r.agents_spec().len() == 0,
            r.items_spec().len() == 0,
            r.spawners_spec().len() == 0,
            !r.hunger_enabled_spec(),
            !r.naive_enabled_spec(),
            r.movement_nodes() is None,
            r.next_id_spec() == 0,
    {
        Simulation {
            bounds,
            agents: Vec::new(),
            items: Vec::new(),
            spawners: Vec::new(),
            hunger_enabled: false,
            naive_movement_enabled: false,
            movement_tree: None,
            pickup_tree: pick_up_tree(),
            next_id: 0,
            rng: seeded_rng(seed),
        }
    }

    pub fn bounds(&self) -> (r: GridBounds)
        ensures
            r == self.bounds_spec(),
    {
        self.bounds
    }

    /// Moves to a grid of other bounds; agents and items keep their cells.
    pub fn set_bounds(&mut self, bounds: GridBounds)
        requires
            old(self).wf(),
        ensures
            final(self).wf(),
            final(self).bounds_spec() == bounds,
            final(self).agents_spec() == old(self).agents_spec(),
            final(self).items_spec() == old(self).items_spec(),
            final(self).spawners_spec() == old(self).spawners_spec(),
            final(self).hunger_enabled_spec() == old(self).hunger_enabled_spec(),
            final(self).naive_enabled_spec() == old(self).naive_enabled_spec(),
            final(self).movement_nodes() == old(self).movement_nodes(),
            final(self).next_id_spec() == old(self).next_id_spec(),
    {
        self.bounds = bounds;
        assert(forall|i: int|
            0 <= i < self.agents_spec().len() ==> agent_wf(
                #[trigger] self.agents_spec()[i],
                self.movement_nodes(),
                self.hunger_enabled_spec(),
            )) by {
            assert(self.agents_spec() == old(self).agents_spec());
        }
    }

    pub fn agents(&self) -> (r: &Vec<Agent>)
        ensures
            r@ == self.agents_spec(),
    {
        &self.agents
    }

    pub fn items(&self) -> (r: &Vec<Item>)
        ensures
            r@ == self.items_spec(),
    {
        &self.items
    }

    pub fn spawners(&self) -> (r: &Vec<Spawner>)
        ensures
            r@ == self.spawners_spec(),
    {
        &self.spawners
    }

    pub fn hunger_enabled(&self) -> (r: bool)
        ensures
            r == self.hunger_enabled_spec(),
    {
        self.hunger_enabled
    }

    /// One evaluation of agent `agent`'s movement: its naive walk, or the active leaf
    /// of its movement instance on `tree`.
    fn move_agent(
        tree: &Option<Tree<Action>>,
        bounds: &GridBounds,
        items: &Vec<Item>,
        agent: &mut Agent,
        rng: &mut WyRand,
    )
        requires
            tree matches Some(t) ==> t.wf(),
            agent_wf(
                *old(agent),
                match tree {
                    Some(t) => Some(t.nodes_spec()),
                    None => None,
                },
                old(agent).hunger is Some,
            ),
        ensures
            moved(
                match tree {
                    Some(t) => Some(t.nodes_spec()),
                    None => None,
                },
                *bounds,
                items@,
                *old(agent),
                *final(agent),
            ),
            agent_wf(
                *final(agent),
                match tree {
                    Some(t) => Some(t.nodes_spec()),
                    None => None,
                },
                old(agent).hunger is Some,
            ),
    {
        match &mut agent.naive_walk {
            Some(w) => {
                naive_step(bounds, &mut agent.cell, w);
                return ;
            },
            None => {},
        }
        let t = match tree {
            Some(t) => t,
            None => {
                return ;
            },
        };
        match &mut agent.movement {
            None => {},
            Some(m) => {
                let ghost path = m.frames();
                let leaf = match m.active_leaf() {
                    Some(l) => l,
                    None => {
                        return ;
                    },
                };
                proof {
                    assert(crate::behave::frame_ok(t.nodes_spec(), path[path.len() - 1]));
                }
                let action = match t.node(leaf) {
                    Behave::Leaf { action } => *action,
                    _ => {
                        return ;
                    },
                };
                let status = match action {
                    Action::WalkInDirectionUntilOutOfBounds(w) => {
                        let (c, s) = w.evaluate(bounds, &agent.cell);
                        agent.cell = c;
                        s
                    },
                    Action::FindTarget(f) => f.find(bounds, items, &mut agent.cell, &mut agent.target, rng),
                    Action::WanderUntilVisible(f) => f.wander_until_visible(bounds, items, &mut agent.cell, rng),
                    Action::GoToTarget(g) => g.go(items, &mut agent.cell, &mut agent.target),
                    Action::PickUpStuff => Status::Running,
                };
                if status != Status::Running {
                    m.report(t, status, &agent.hunger);
                }
            },
        }
    }
}


impl Simulation {
    /// The movement pass: every agent in turn takes its naive or tree-driven step (see
    /// `moved`) against the items as they are; nothing else changes.
    pub fn move_agents(&mut self)
        requires
            old(self).wf(),
        ensures
            final(self).wf(),
            same_world(*old(self), *final(self)),
            all_moved(
                old(self).movement_nodes(),
                old(self).bounds_spec(),
                old(self).items_spec(),
                old(self).agents_spec(),
                final(self).agents_spec(),
            ),
            final(self).agents_spec().len() == old(self).agents_spec().len(),
            forall|i: int|
                0 <= i < old(self).agents_spec().len() ==> moved(
                    old(self).movement_nodes(),
                    old(self).bounds_spec(),
                    old(self).items_spec(),
                    #[trigger] old(self).agents_spec()[i],
                    final(self).agents_spec()[i],
                ),
    {
        let n = self.agents.len();
        let mut i: usize = 0;
        while i < n
            invariant
                n == self.agents@.len(),
                n == old(self).agents@.len(),
                i <= n,
                same_world(*old(self), *self),
                self.movement_tree == old(self).movement_tree,
                self.pickup_tree == old(self).pickup_tree,
                old(self).wf(),
                forall|k: int|
                    0 <= k < i ==> moved(
                        old(self).movement_nodes(),
                        old(self).bounds_spec(),
                        old(self).items_spec(),
                        #[trigger] old(self).agents@[k],
                        self.agents@[k],
                    ),
                forall|k: int| i <= k < n ==> #[trigger] self.agents@[k] == old(self).agents@[k],
                forall|k: int|
                    0 <= k < n ==> agent_wf(
                        #[trigger] self.agents@[k],
                        self.movement_nodes(),
                        self.hunger_enabled,
                    ),
            decreases n - i,
        {
            proof {
                assert(agent_wf(self.agents@[i as int], self.movement_nodes(), self.hunger_enabled));
            }
            Self::move_agent(
                &self.movement_tree,
                &self.bounds,
                &self.items,
                &mut self.agents[i],
                &mut self.rng,
            );
            i = i + 1;
        }
    }

    /// The pickup pass: every agent in turn picks up what lies on its cell (see
    /// `pick_up`), from the items that the agents before it left.
    #[verifier::rlimit(40)]
    pub fn pick_up_all(&mut self)
        requires
            old(self).wf(),
        ensures
            final(self).wf(),
            final(self).items_spec() == items_after_pickups(old(self).agents_spec(), old(self).items_spec()),
            final(self).bounds_spec() == old(self).bounds_spec(),
            final(self).spawners_spec() == old(self).spawners_spec(),
            final(self).hunger_enabled_spec() == old(self).hunger_enabled_spec(),
            final(self).naive_enabled_spec() == old(self).naive_enabled_spec(),
            final(self).movement_nodes() == old(self).movement_nodes(),
            final(self).next_id_spec() == old(self).next_id_spec(),
            all_picked_up(old(self).agents_spec(), final(self).agents_spec(), old(self).items_spec()),
            final(self).agents_spec().len() == old(self).agents_spec().len(),
            forall|i: int|
                0 <= i < old(self).agents_spec().len() ==> picked_up(
                    #[trigger] old(self).agents_spec()[i],
                    final(self).agents_spec()[i],
                    items_after_pickups(old(self).agents_spec().take(i), old(self).items_spec()),
                ),
    {
        let ghost a0 = old(self).agents@;
        let ghost i0 = old(self).items@;
        let n = self.agents.len();
        let mut i: usize = 0;
        while i < n
            invariant
                n == self.agents@.len(),
                n == a0.len(),
                a0 == old(self).agents@,
                i0 == old(self).items@,
                i <= n,
                self.bounds == old(self).bounds,
                self.spawners == old(self).spawners,
                self.hunger_enabled == old(self).hunger_enabled,
                self.naive_movement_enabled == old(self).naive_movement_enabled,
                self.next_id == old(self).next_id,
                self.movement_tree == old(self).movement_tree,
                self.pickup_tree == old(self).pickup_tree,
                old(self).wf(),
                self.items@ == items_after_pickups(a0.take(i as int), i0),
                ids_increasing(self.items@, self.next_id as nat),
                forall|k: int|
                    0 <= k < i ==> picked_up(
                        #[trigger] a0[k],
                        self.agents@[k],
                        items_after_pickups(a0.take(k), i0),
                    ),
                forall|k: int| i <= k < n ==> #[trigger] self.agents@[k] == a0[k],
                forall|k: int|
                    0 <= k < n ==> agent_wf(
                        #[trigger] self.agents@[k],
                        self.movement_nodes(),
                        self.hunger_enabled,
                    ),
            decreases n - i,
        {
            proof {
                assert(agent_wf(self.agents@[i as int], self.movement_nodes(), self.hunger_enabled));
                assert(a0.take(i as int + 1).drop_last() =~= a0.take(i as int));
                assert(a0.take(i as int + 1).last() == a0[i as int]);
                lemma_kept_increasing(self.items@, a0[i as int].cell, a0[i as int].hunger is Some, self.next_id as nat);
            }
            let cell = self.agents[i].cell;
            let agent = &mut self.agents[i];
            crate::pickups::pick_up(&cell, &mut agent.hunger, &mut agent.points, &mut self.items);
            i = i + 1;
        }
        proof {
            assert(a0.take(n as int) =~= a0);
        }
    }

    /// The spawner pass: each spawner whose kind has fewer items than its target adds
    /// one item of its kind on a random in-bounds cell, with a fresh identity, while
    /// fresh identities last.
    pub fn run_spawners(&mut self)
        requires
            old(self).wf(),
        ensures
            final(self).wf(),
            final(self).agents_spec() == old(self).agents_spec(),
            final(self).bounds_spec() == old(self).bounds_spec(),
            final(self).spawners_spec() == old(self).spawners_spec(),
            final(self).hunger_enabled_spec() == old(self).hunger_enabled_spec(),
            final(self).naive_enabled_spec() == old(self).naive_enabled_spec(),
            final(self).movement_nodes() == old(self).movement_nodes(),
            spawners_ran(
                old(self).bounds_spec(),
                old(self).spawners_spec(),
                old(self).next_id_spec(),
                old(self).items_spec(),
                final(self).next_id_spec(),
                final(self).items_spec(),
            ),
            final(self).items_spec().len() <= old(self).items_spec().len() + old(self).spawners_spec().len(),
            final(self).items_spec().take(old(self).items_spec().len() as int) == old(self).items_spec(),
            final(self).items_spec().len() >= old(self).items_spec().len(),
            final(self).next_id_spec() == old(self).next_id_spec() + (final(self).items_spec().len()
                - old(self).items_spec().len()),
            forall|k: int|
                old(self).items_spec().len() <= k < final(self).items_spec().len()
                    ==> old(self).bounds_spec().contains_cell(#[trigger] final(self).items_spec()[k].cell),
            old(self).next_id_spec() + old(self).spawners_spec().len() <= u64::MAX ==> forall|j: int|
                0 <= j < old(self).spawners_spec().len() ==> count_kind(
                    final(self).items_spec(),
                    #[trigger] old(self).spawners_spec()[j].kind,
                ) == count_kind(old(self).items_spec(), old(self).spawners_spec()[j].kind) + if spawn_due(
                    old(self).items_spec(),
                    old(self).spawners_spec()[j],
                ) {
                    1int
                } else {
                    0int
                },
    {
        let ghost items0 = old(self).items@;
        let ghost sp = old(self).spawners@;
        let m = self.spawners.len();
        let mut j: usize = 0;
        while j < m
            invariant
                m == sp.len(),
                sp == self.spawners@,
                items0 == old(self).items@,
                j <= m,
                self.agents == old(self).agents,
                self.bounds == old(self).bounds,
                self.spawners == old(self).spawners,
                self.hunger_enabled == old(self).hunger_enabled,
                self.naive_movement_enabled == old(self).naive_movement_enabled,
                self.movement_tree == old(self).movement_tree,
                self.pickup_tree == old(self).pickup_tree,
                old(self).wf(),
                self.next_id >= old(self).next_id,
                self.items@.len() <= items0.len() + j,
                self.items@.len() - items0.len() == self.next_id - old(self).next_id,
                self.items@.take(items0.len() as int) == items0,
                ids_increasing(self.items@, self.next_id as nat),
                forall|k: int|
                    items0.len() <= k < self.items@.len() ==> {
                        &&& old(self).bounds.contains_cell(#[trigger] self.items@[k].cell)
                        &&& self.items@[k].id == old(self).next_id + (k - items0.len())
                        &&& self.items@[k].resource == spawned_resource(kind_of(self.items@[k].resource))
                    },
                old(self).next_id + sp.len() <= u64::MAX ==> self.next_id + (m - j) <= u64::MAX,
                old(self).next_id + sp.len() <= u64::MAX ==> forall|q: int|
                    0 <= q < j ==> count_kind(self.items@, #[trigger] sp[q].kind) == count_kind(
                        items0,
                        sp[q].kind,
                    ) + if spawn_due(items0, sp[q]) {
                        1int
                    } else {
                        0int
                    },
                forall|q: int|
                    j <= q < m ==> count_kind(self.items@, #[trigger] sp[q].kind) == count_kind(
                        items0,
                        sp[q].kind,
                    ),
            decreases m - j,
        {
            let spawner = self.spawners[j];
            let count = crate::items::count_of_kind(&self.items, spawner.kind);
            proof {
                assert(count == count_kind(items0, sp[j as int].kind));
            }
            if count < spawner.target_count && self.next_id < u64::MAX {
                let cell = self.bounds.get_random_position(&mut self.rng);
                let resource = match spawner.kind {
                    TargetKind::Fruit => Resource::Fruit(Fruit::new(FRUIT_NUTRITIONAL_VALUE)),
                    TargetKind::Coins => Resource::Coin(Coin::new(COIN_MONETARY_VALUE)),
                };
                let item = Item { id: self.next_id, cell, resource };
                let ghost before = self.items@;
                self.items.push(item);
                self.next_id = self.next_id + 1;
                proof {
                    assert(self.items@.drop_last() =~= before);
                    assert(self.items@.take(items0.len() as int) =~= before.take(items0.len() as int));
                    assert forall|q: int| 0 <= q < m && q != j implies #[trigger] sp[q].kind != spawner.kind by {
                        assert(old(self).spawners@[q].kind != old(self).spawners@[j as int].kind);
                    }
                }
            }
            j = j + 1;
        }
        assert(forall|i: int|
            0 <= i < self.agents_spec().len() ==> agent_wf(
                #[trigger] self.agents_spec()[i],
                self.movement_nodes(),
                self.hunger_enabled_spec(),
            )) by {
            assert(self.agents_spec() == old(self).agents_spec());
        }
    }

    /// One movement tick: the movement pass (every agent steps against the items as they
    /// were), then the pickup pass (agents in order take from what is left), then the
    /// spawner pass.
    pub fn movement_tick(&mut self)
        requires
            old(self).wf(),
        ensures
            final(self).wf(),
            movement_ticked(*old(self), *final(self)),
    {
        self.move_agents();
        let ghost moved_agents = self.agents@;
        self.pick_up_all();
        self.run_spawners();
        assert(all_moved(
            old(self).movement_nodes(),
            old(self).bounds_spec(),
            old(self).items_spec(),
            old(self).agents_spec(),
            moved_agents,
        ));
    }
}

impl Simulation {
    /// One hunger tick: every hunger stat goes down by one; agents whose hunger reaches
    /// zero starve and are removed, with their behaviour instances. The order of the
    /// others is kept.
    pub fn hunger_tick(&mut self)
        requires
            old(self).wf(),
        ensures
            final(self).wf(),
            hunger_ticked(*old(self), *final(self)),
    {
        let ghost a0 = old(self).agents@;
        let mut i: usize = 0;
        let ghost mut j: int = 0;
        proof {
            assert forall|k: int| 0 <= k < self.agents@.len() implies agent_wf(
                #[trigger] self.agents@[k],
                self.movement_nodes(),
                self.hunger_enabled,
            ) by {
                assert(agent_wf(self.agents_spec()[k], self.movement_nodes(), self.hunger_enabled_spec()));
            }
        }
        while i < self.agents.len()
            invariant
                a0 == old(self).agents@,
                0 <= j <= a0.len(),
                i == survivors(a0.take(j)).len(),
                self.agents@.len() == i + (a0.len() - j),
                same_world(*old(self), *self),
                self.movement_tree == old(self).movement_tree,
                self.pickup_tree == old(self).pickup_tree,
                old(self).wf(),
                forall|k: int|
                    0 <= k < i ==> hunger_decayed(
                        #[trigger] survivors(a0.take(j))[k],
                        self.agents@[k],
                    ),
                forall|k: int|
                    i <= k < self.agents@.len() ==> #[trigger] self.agents@[k] == a0[j + (k - i)],
                forall|k: int|
                    0 <= k < self.agents@.len() ==> agent_wf(
                        #[trigger] self.agents@[k],
                        self.movement_nodes(),
                        self.hunger_enabled,
                    ),
            decreases self.agents@.len() - i,
        {
            proof {
                assert(self.agents@[i as int] == a0[j]);
                assert(agent_wf(self.agents@[i as int], self.movement_nodes(), self.hunger_enabled));
                assert(a0.take(j + 1).drop_last() =~= a0.take(j));
                assert(a0.take(j + 1).last() == a0[j]);
            }
            let ghost before = self.agents@;
            let agent = &mut self.agents[i];
            let starved = match &mut agent.hunger {
                Some(h) => h.decay(),
                None => false,
            };
            proof {
                assert(starved == starves(a0[j]));
            }
            if starved {
                self.agents.remove(i);
                proof {
                    assert forall|k: int| i <= k < self.agents@.len() implies #[trigger] self.agents@[k]
                        == a0[(j + 1) + (k - i)] by {
                        assert(self.agents@[k] == before[k + 1]);
                    }
                    assert forall|k: int| 0 <= k < i implies #[trigger] self.agents@[k] == before[k] by {}
                }
            } else {
                proof {
                    assert(survivors(a0.take(j + 1)) == survivors(a0.take(j)).push(a0[j]));
                }
                i = i + 1;
            }
            proof {
                j = j + 1;
            }
        }
        proof {
            assert(a0.take(j) =~= a0);
        }
    }
}

/// Whether an agent starves on the next hunger tick.
pub open spec fn starves(a: Agent) -> bool {
    a.hunger matches Some(h) && h.level() <= 1
}

/// The agents that do not starve, in order.
pub open spec fn survivors(agents: Seq<Agent>) -> Seq<Agent>
    decreases agents.len(),
{
    if agents.len() == 0 {
        seq![]
    } else if starves(agents.last()) {
        survivors(agents.drop_last())
    } else {
        survivors(agents.drop_last()).push(agents.last())
    }
}

/// Agent `a` after a hunger tick is `a2`: its hunger is one lower; nothing else changed.
pub open spec fn hunger_decayed(a: Agent, a2: Agent) -> bool {
    &&& a2.id == a.id
    &&& a2.cell == a.cell
    &&& a2.points == a.points
    &&& a2.target == a.target
    &&& a2.naive_walk == a.naive_walk
    &&& a2.movement == a.movement
    &&& a2.pickup == a.pickup
    &&& match a.hunger {
        None => a2.hunger is None,
        Some(h) => a2.hunger matches Some(h2) && h2.cap() == h.cap() && h2.level() == h.level() - 1,
    }
}

/// An agent leaves the simulation on a hunger tick exactly when its hunger reaches
/// zero on it: the agents after the tick are those that did not starve.
pub proof fn lemma_starving_agents_leave(agents: Seq<Agent>, a: Agent)
    ensures
        survivors(agents).contains(a) <==> (agents.contains(a) && !starves(a)),
    decreases agents.len(),
{
    if agents.len() > 0 {
        let p = agents.drop_last();
        lemma_starving_agents_leave(p, a);
        assert(agents =~= p.push(agents.last()));
        if agents.contains(a) && !starves(a) {
            let k = choose|k: int| 0 <= k < agents.len() && agents[k] == a;
            if k < p.len() {
                assert(p[k] == a);
            }
        }
        if p.contains(a) {
            let k = choose|k: int| 0 <= k < p.len() && p[k] == a;
            assert(agents[k] == a);
        }
        let s = survivors(p);
        if !starves(agents.last()) {
            if s.push(agents.last()).contains(a) && a != agents.last() {
                let k = choose|k: int| 0 <= k < s.len() + 1 && s.push(agents.last())[k] == a;
                assert(s[k] == a);
            }
            if s.contains(a) {
                let k = choose|k: int| 0 <= k < s.len() && s[k] == a;
                assert(s.push(agents.last())[k] == a);
            }
            assert(s.push(agents.last())[s.len() as int] == agents.last());
        }
    }
}

/// The inbound commands of the simulation.
#[derive(Clone, Copy, Debug, PartialEq, Eq, Structural)]
pub enum Command {
    SpawnAgent,
    SetBehaviour(MovementBehaviour),
    ClearBehaviours,
    EnableHunger,
    RequestSpawner(TargetKind),
}

/// `a` is a newly spawned agent for the settings of `s`: on the origin, with the next
/// fresh identity, full stats, no target, and the current behaviours installed.
pub open spec fn fresh_agent(a: Agent, s: Simulation) -> bool {
    &&& a.id == s.next_id_spec()
    &&& a.cell == GridCell { x: 0, y: 0 }
    &&& (if s.hunger_enabled_spec() {
        a.hunger matches Some(h) && h.level() == DEFAULT_HUNGER_CAPACITY && h.cap()
            == DEFAULT_HUNGER_CAPACITY
    } else {
        a.hunger is None
    })
    &&& a.points.earned() == 0
    &&& a.points.target() == DEFAULT_POINTS_GOAL
    &&& a.target is None
    &&& (if s.naive_enabled_spec() {
        a.naive_walk matches Some(w) && w.0 == (-1isize, 0isize)
    } else {
        a.naive_walk is None
    })
    &&& match s.movement_nodes() {
        Some(n) => a.movement matches Some(m) && m.frames() == descend(n, 0, a.hunger),
        None => a.movement is None,
    }
    &&& a.pickup.frames() == pick_up_path()
}

/// The shape of the tree that a movement behaviour installs.
pub open spec fn installs(kind: MovementBehaviour, nodes: Option<Seq<Behave<Action>>>) -> bool {
    match kind {
        MovementBehaviour::WalkLeftRightNaive => nodes is None,
        MovementBehaviour::WalkLeftRight => nodes matches Some(n) && is_left_right_tree(n),
        MovementBehaviour::WalkClockwise => nodes matches Some(n) && is_clockwise_tree(n),
        MovementBehaviour::MoveToClosestFruit => nodes matches Some(n) && is_closest_fruit_tree(n),
        MovementBehaviour::HungerBased => nodes matches Some(n) && is_hunger_based_tree(n),
    }
}

/// Agent `a` with behaviour `kind` installed afresh is `a2`.
pub open spec fn installed_on(
    a: Agent,
    a2: Agent,
    kind: MovementBehaviour,
    nodes: Option<Seq<Behave<Action>>>,
) -> bool {
    &&& a2.id == a.id
    &&& a2.cell == a.cell
    &&& a2.hunger == a.hunger
    &&& a2.points == a.points
    &&& a2.target == a.target
    &&& a2.pickup == a.pickup
    &&& (if kind == MovementBehaviour::WalkLeftRightNaive {
        a2.naive_walk matches Some(w) && w.0 == (-1isize, 0isize) && a2.movement is None
    } else {
        &&& a2.naive_walk is None
        &&& a2.movement matches Some(m) && nodes matches Some(n) && m.frames() == descend(n, 0, a.hunger)
    })
}

/// Agent `a` with its movement behaviours cleared is `a2`.
pub open spec fn cleared(a: Agent, a2: Agent) -> bool {
    &&& a2.id == a.id
    &&& a2.cell == a.cell
    &&& a2.hunger == a.hunger
    &&& a2.points == a.points
    &&& a2.target == a.target
    &&& a2.pickup == a.pickup
    &&& a2.naive_walk is None
    &&& a2.movement is None
}

/// Agent `a` with a full hunger stat of the default capacity is `a2`.
pub open spec fn fed(a: Agent, a2: Agent) -> bool {
    &&& a2.id == a.id
    &&& a2.cell == a.cell
    &&& a2.points == a.points
    &&& a2.target == a.target
    &&& a2.naive_walk == a.naive_walk
    &&& a2.movement == a.movement
    &&& a2.pickup == a.pickup
    &&& a2.hunger matches Some(h) && h.level() == DEFAULT_HUNGER_CAPACITY && h.cap()
        == DEFAULT_HUNGER_CAPACITY
}

pub open spec fn has_spawner(spawners: Seq<Spawner>, kind: TargetKind) -> bool {
    exists|i: int| 0 <= i < spawners.len() && #[trigger] spawners[i].kind == kind
}

/// The target count of a requested spawner of `kind`.
pub open spec fn default_target(kind: TargetKind) -> usize {
    match kind {
        TargetKind::Fruit => FRUIT_TARGET_COUNT,
        TargetKind::Coins => COIN_TARGET_COUNT,
    }
}

proof fn lemma_pick_up_path(nodes: Seq<Behave<Action>>, hunger: Option<Hunger>)
    requires
        is_pick_up_tree(nodes),
    ensures
        descend(nodes, 0, hunger) == pick_up_path(),
{
    let d1 = descend(nodes, 1, hunger);
    assert(d1 == seq![Frame { node: 1, slot: 0 }]);
    assert(descend(nodes, 0, hunger) == seq![Frame { node: 0, slot: 0 }] + d1);
    assert(descend(nodes, 0, hunger) =~= pick_up_path());
}

impl Simulation {
    /// Lets `delta` nanoseconds pass on `schedule` and runs the sweeps that its gates
    /// admit, the movement tick before the hunger tick. Returns which gates admitted a
    /// sweep (movement, hunger); with neither, nothing changes.
    pub fn advance_time(&mut self, schedule: &mut Schedule, delta: u64) -> (r: (bool, bool))
        requires
            old(self).wf(),
            old(schedule).wf(),
        ensures
            final(self).wf(),
            final(schedule).wf(),
            r.0 == (old(schedule).movement.elapsed_spec() + delta >= old(schedule).movement.period_spec()),
            r.1 == (old(schedule).hunger.elapsed_spec() + delta >= old(schedule).hunger.period_spec()),
            final(schedule).movement.period_spec() == old(schedule).movement.period_spec(),
            final(schedule).hunger.period_spec() == old(schedule).hunger.period_spec(),
            final(schedule).movement.elapsed_spec() == (old(schedule).movement.elapsed_spec() + delta)
                % (old(schedule).movement.period_spec() as int),
            final(schedule).hunger.elapsed_spec() == (old(schedule).hunger.elapsed_spec() + delta) % (old(
                schedule,
            ).hunger.period_spec() as int),
            !r.0 && !r.1 ==> same_world(*old(self), *final(self)) && final(self).agents_spec()
                == old(self).agents_spec(),
            r.0 && !r.1 ==> movement_ticked(*old(self), *final(self)),
            !r.0 && r.1 ==> hunger_ticked(*old(self), *final(self)),
            r.0 && r.1 ==> exists|mid: Simulation|
                #[trigger] movement_ticked(*old(self), mid) && hunger_ticked(mid, *final(self)),
    {
        let (movement, hunger) = schedule.advance(delta);
        if movement {
            self.movement_tick();
        }
        let ghost mid = *self;
        if hunger {
            self.hunger_tick();
        }
        proof {
            if movement && hunger {
                assert(movement_ticked(*old(self), mid));
            }
        }
        (movement, hunger)
    }
}

/// `s2` is `s` after spawning an agent: with a fresh identity left, one agent more at
/// the end (see `fresh_agent`) and the identity used; with none left, no change.
pub open spec fn agent_spawned(s: Simulation, s2: Simulation) -> bool {
    &&& s2.bounds_spec() == s.bounds_spec()
    &&& s2.items_spec() == s.items_spec()
    &&& s2.spawners_spec() == s.spawners_spec()
    &&& s2.hunger_enabled_spec() == s.hunger_enabled_spec()
    &&& s2.naive_enabled_spec() == s.naive_enabled_spec()
    &&& s2.movement_nodes() == s.movement_nodes()
    &&& if s.next_id_spec() < u64::MAX {
        &&& s2.next_id_spec() == s.next_id_spec() + 1
        &&& s2.agents_spec().len() == s.agents_spec().len() + 1
        &&& s2.agents_spec().take(s.agents_spec().len() as int) == s.agents_spec()
        &&& fresh_agent(s2.agents_spec().last(), s)
    } else {
        s2.agents_spec() == s.agents_spec() && s2.next_id_spec() == s.next_id_spec()
    }
}

/// `s2` is `s` with movement behaviour `kind` installed on every agent (see
/// `installed_on`) and kept for agents spawned later.
pub open spec fn behaviour_set(kind: MovementBehaviour, s: Simulation, s2: Simulation) -> bool {
    &&& s2.bounds_spec() == s.bounds_spec()
    &&& s2.items_spec() == s.items_spec()
    &&& s2.spawners_spec() == s.spawners_spec()
    &&& s2.hunger_enabled_spec() == s.hunger_enabled_spec()
    &&& s2.next_id_spec() == s.next_id_spec()
    &&& s2.naive_enabled_spec() == (kind == MovementBehaviour::WalkLeftRightNaive)
    &&& installs(kind, s2.movement_nodes())
    &&& s2.agents_spec().len() == s.agents_spec().len()
    &&& forall|i: int|
        0 <= i < s.agents_spec().len() ==> installed_on(
            #[trigger] s.agents_spec()[i],
            s2.agents_spec()[i],
            kind,
            s2.movement_nodes(),
        )
}

/// `s2` is `s` with no movement behaviour on any agent, nor for agents spawned later.
pub open spec fn behaviours_cleared(s: Simulation, s2: Simulation) -> bool {
    &&& s2.bounds_spec() == s.bounds_spec()
    &&& s2.items_spec() == s.items_spec()
    &&& s2.spawners_spec() == s.spawners_spec()
    &&& s2.hunger_enabled_spec() == s.hunger_enabled_spec()
    &&& s2.next_id_spec() == s.next_id_spec()
    &&& !s2.naive_enabled_spec()
    &&& s2.movement_nodes() is None
    &&& s2.agents_spec().len() == s.agents_spec().len()
    &&& forall|i: int|
        0 <= i < s.agents_spec().len() ==> cleared(#[trigger] s.agents_spec()[i], s2.agents_spec()[i])
}

/// `s2` is `s` with hunger switched on: unchanged if it was on already, else every agent
/// gets a full hunger stat (see `fed`).
pub open spec fn hunger_switched_on(s: Simulation, s2: Simulation) -> bool {
    &&& s2.hunger_enabled_spec()
    &&& s2.bounds_spec() == s.bounds_spec()
    &&& s2.items_spec() == s.items_spec()
    &&& s2.spawners_spec() == s.spawners_spec()
    &&& s2.naive_enabled_spec() == s.naive_enabled_spec()
    &&& s2.movement_nodes() == s.movement_nodes()
    &&& s2.next_id_spec() == s.next_id_spec()
    &&& if s.hunger_enabled_spec() {
        s2.agents_spec() == s.agents_spec()
    } else {
        &&& s2.agents_spec().len() == s.agents_spec().len()
        &&& forall|i: int|
            0 <= i < s.agents_spec().len() ==> fed(#[trigger] s.agents_spec()[i], s2.agents_spec()[i])
    }
}

/// `s2` is `s` with a spawner of `kind` for `target_count` items added, unless one of
/// that kind exists already.
pub open spec fn spawner_added(kind: TargetKind, target_count: usize, s: Simulation, s2: Simulation) -> bool {
    &&& s2.agents_spec() == s.agents_spec()
    &&& s2.bounds_spec() == s.bounds_spec()
    &&& s2.items_spec() == s.items_spec()
    &&& s2.hunger_enabled_spec() == s.hunger_enabled_spec()
    &&& s2.naive_enabled_spec() == s.naive_enabled_spec()
    &&& s2.movement_nodes() == s.movement_nodes()
    &&& s2.next_id_spec() == s.next_id_spec()
    &&& s2.spawners_spec() == if has_spawner(s.spawners_spec(), kind) {
        s.spawners_spec()
    } else {
        s.spawners_spec().push(Spawner { kind, target_count })
    }
}

/// Whether one of `spawners` is of `kind`.
fn spawner_exists(spawners: &Vec<Spawner>, kind: TargetKind) -> (r: bool)
    ensures
        r == has_spawner(spawners@, kind),
{
    let mut j: usize = 0;
    while j < spawners.len()
        invariant
            j <= spawners@.len(),
            forall|q: int| 0 <= q < j ==> #[trigger] spawners@[q].kind != kind,
        decreases spawners@.len() - j,
    {
        if spawners[j].kind == kind {
            return true;
        }
        j = j + 1;
    }
    false
}

impl Simulation {
    /// Spawns an agent on the origin with the current behaviours and stats (see
    /// `fresh_agent`); returns its identity, or `None` once identities have run out.
    pub fn spawn_agent(&mut self) -> (r: Option<u64>)
        requires
            old(self).wf(),
        ensures
            final(self).wf(),
            agent_spawned(*old(self), *final(self)),
            r == (if old(self).next_id_spec() < u64::MAX {
                Some(old(self).next_id_spec() as u64)
            } else {
                None::<u64>
            }),
    {
        if self.next_id == u64::MAX {
            return None;
        }
        let id = self.next_id;
        let hunger = if self.hunger_enabled {
            Some(Hunger::new(DEFAULT_HUNGER_CAPACITY))
        } else {
            None
        };
        let naive_walk = if self.naive_movement_enabled {
            Some(WalkInDirectionUntilOutOfBounds::new(-1, 0))
        } else {
            None
        };
        let movement = match &self.movement_tree {
            Some(t) => Some(BehaveInstance::new(t, &hunger)),
            None => None,
        };
        let pickup = BehaveInstance::new(&self.pickup_tree, &hunger);
        proof {
            lemma_pick_up_path(self.pickup_nodes(), hunger);
        }
        let agent = Agent {
            id,
            cell: GridCell::new(0, 0),
            hunger,
            points: Points::new(DEFAULT_POINTS_GOAL),
            target: None,
            naive_walk,
            movement,
            pickup,
        };
        let ghost before = self.agents@;
        self.agents.push(agent);
        self.next_id = self.next_id + 1;
        proof {
            assert(self.agents@.take(before.len() as int) =~= before);
            assert forall|k: int| 0 <= k < self.agents@.len() implies agent_wf(
                #[trigger] self.agents@[k],
                self.movement_nodes(),
                self.hunger_enabled,
            ) by {
                if k < before.len() {
                    assert(self.agents@[k] == before[k]);
                    assert(agent_wf(old(self).agents_spec()[k], old(self).movement_nodes(), old(self).hunger_enabled_spec()));
                }
            }
        }
        Some(id)
    }

    /// Installs movement behaviour `kind` on every agent, replacing whatever movement
    /// behaviour ran before; agents spawned later receive it too.
    pub fn set_behaviour(&mut self, kind: MovementBehaviour)
        requires
            old(self).wf(),
        ensures
            final(self).wf(),
            behaviour_set(kind, *old(self), *final(self)),
    {
        let tree = movement_tree(kind);
        let naive = kind == MovementBehaviour::WalkLeftRightNaive;
        let ghost nodes = tree_nodes(tree);
        let ghost a0 = self.agents@;
        let n = self.agents.len();
        let mut i: usize = 0;
        proof {
            assert forall|k: int| 0 <= k < n implies agent_wf(
                #[trigger] a0[k],
                old(self).movement_nodes(),
                old(self).hunger_enabled,
            ) by {
                assert(agent_wf(old(self).agents_spec()[k], old(self).movement_nodes(), old(self).hunger_enabled_spec()));
            }
        }
        while i < n
            invariant
                n == self.agents@.len(),
                a0 == old(self).agents@,
                n == a0.len(),
                i <= n,
                same_world(*old(self), *self),
                self.movement_tree == old(self).movement_tree,
                self.pickup_tree == old(self).pickup_tree,
                old(self).wf(),
                naive == (kind == MovementBehaviour::WalkLeftRightNaive),
                naive <==> tree is None,
                tree matches Some(t) ==> t.wf(),
                nodes == tree_nodes(tree),
                forall|k: int| 0 <= k < i ==> installed_on(#[trigger] a0[k], self.agents@[k], kind, nodes),
                forall|k: int| i <= k < n ==> #[trigger] self.agents@[k] == a0[k],
                forall|k: int|
                    0 <= k < n ==> agent_wf(#[trigger] a0[k], old(self).movement_nodes(), old(self).hunger_enabled),
            decreases n - i,
        {
            proof {
                assert(agent_wf(a0[i as int], old(self).movement_nodes(), old(self).hunger_enabled_spec()));
            }
            let hunger = self.agents[i].hunger;
            let movement = match &tree {
                Some(t) => Some(BehaveInstance::new(t, &hunger)),
                None => None,
            };
            let naive_walk = if naive {
                Some(WalkInDirectionUntilOutOfBounds::new(-1, 0))
            } else {
                None
            };
            let agent = &mut self.agents[i];
            agent.movement = movement;
            agent.naive_walk = naive_walk;
            i = i + 1;
        }
        self.movement_tree = tree;
        self.naive_movement_enabled = naive;
        proof {
            assert forall|k: int| 0 <= k < self.agents@.len() implies agent_wf(
                #[trigger] self.agents@[k],
                self.movement_nodes(),
                self.hunger_enabled,
            ) by {
                assert(installed_on(a0[k], self.agents@[k], kind, nodes));
                assert(agent_wf(a0[k], old(self).movement_nodes(), old(self).hunger_enabled));
                if let Some(t) = tree {
                    crate::behave::lemma_descend_root(t.nodes_spec(), a0[k].hunger);
                }
            }
        }
    }

    /// Stops every movement behaviour, naive or tree-driven.
    pub fn clear_behaviours(&mut self)
        requires
            old(self).wf(),
        ensures
            final(self).wf(),
            behaviours_cleared(*old(self), *final(self)),
    {
        let ghost a0 = self.agents@;
        let n = self.agents.len();
        let mut i: usize = 0;
        proof {
            assert forall|k: int| 0 <= k < n implies agent_wf(
                #[trigger] a0[k],
                old(self).movement_nodes(),
                old(self).hunger_enabled,
            ) by {
                assert(agent_wf(old(self).agents_spec()[k], old(self).movement_nodes(), old(self).hunger_enabled_spec()));
            }
        }
        while i < n
            invariant
                n == self.agents@.len(),
                a0 == old(self).agents@,
                n == a0.len(),
                i <= n,
                same_world(*old(self), *self),
                self.movement_tree == old(self).movement_tree,
                self.pickup_tree == old(self).pickup_tree,
                old(self).wf(),
                forall|k: int| 0 <= k < i ==> cleared(#[trigger] a0[k], self.agents@[k]),
                forall|k: int| i <= k < n ==> #[trigger] self.agents@[k] == a0[k],
                forall|k: int|
                    0 <= k < n ==> agent_wf(#[trigger] a0[k], old(self).movement_nodes(), old(self).hunger_enabled),
            decreases n - i,
        {
            proof {
                assert(agent_wf(a0[i as int], old(self).movement_nodes(), old(self).hunger_enabled_spec()));
            }
            let agent = &mut self.agents[i];
            agent.movement = None;
            agent.naive_walk = None;
            i = i + 1;
        }
        self.movement_tree = None;
        self.naive_movement_enabled = false;
        proof {
            assert forall|k: int| 0 <= k < self.agents@.len() implies agent_wf(
                #[trigger] self.agents@[k],
                self.movement_nodes(),
                self.hunger_enabled,
            ) by {
                assert(cleared(a0[k], self.agents@[k]));
                assert(agent_wf(a0[k], old(self).movement_nodes(), old(self).hunger_enabled));
            }
        }
    }

    /// Switches hunger on: every agent, and every agent spawned later, gets a full hunger
    /// stat of the default capacity. Switching it on again changes nothing.
    pub fn enable_hunger(&mut self)
        requires
            old(self).wf(),
        ensures
            final(self).wf(),
            hunger_switched_on(*old(self), *final(self)),
    {
        if self.hunger_enabled {
            return ;
        }
        let ghost a0 = self.agents@;
        let n = self.agents.len();
        let mut i: usize = 0;
        proof {
            assert forall|k: int| 0 <= k < n implies agent_wf(
                #[trigger] a0[k],
                old(self).movement_nodes(),
                old(self).hunger_enabled,
            ) by {
                assert(agent_wf(old(self).agents_spec()[k], old(self).movement_nodes(), old(self).hunger_enabled_spec()));
            }
        }
        while i < n
            invariant
                n == self.agents@.len(),
                a0 == old(self).agents@,
                n == a0.len(),
                i <= n,
                same_world(*old(self), *self),
                self.movement_tree == old(self).movement_tree,
                self.pickup_tree == old(self).pickup_tree,
                old(self).wf(),
                forall|k: int| 0 <= k < i ==> fed(#[trigger] a0[k], self.agents@[k]),
                forall|k: int| i <= k < n ==> #[trigger] self.agents@[k] == a0[k],
                forall|k: int|
                    0 <= k < n ==> agent_wf(#[trigger] a0[k], old(self).movement_nodes(), old(self).hunger_enabled),
            decreases n - i,
        {
            proof {
                assert(agent_wf(a0[i as int], old(self).movement_nodes(), old(self).hunger_enabled_spec()));
            }
            let agent = &mut self.agents[i];
            agent.hunger = Some(Hunger::new(DEFAULT_HUNGER_CAPACITY));
            i = i + 1;
        }
        self.hunger_enabled = true;
        proof {
            assert forall|k: int| 0 <= k < self.agents@.len() implies agent_wf(
                #[trigger] self.agents@[k],
                self.movement_nodes(),
                self.hunger_enabled,
            ) by {
                assert(fed(a0[k], self.agents@[k]));
                assert(agent_wf(a0[k], old(self).movement_nodes(), old(self).hunger_enabled));
            }
        }
    }

    /// Adds a spawner of `kind` that maintains `target_count` items, unless one of that
    /// kind exists already.
    pub fn add_spawner(&mut self, kind: TargetKind, target_count: usize)
        requires
            old(self).wf(),
        ensures
            final(self).wf(),
            spawner_added(kind, target_count, *old(self), *final(self)),
    {
        if spawner_exists(&self.spawners, kind) {
            return ;
        }
        self.spawners.push(Spawner { kind, target_count });
        proof {
            assert forall|i: int| 0 <= i < self.agents_spec().len() implies agent_wf(
                #[trigger] self.agents_spec()[i],
                self.movement_nodes(),
                self.hunger_enabled_spec(),
            ) by {
                assert(agent_wf(old(self).agents_spec()[i], old(self).movement_nodes(), old(self).hunger_enabled_spec()));
            }
        }
    }

    /// Adds a spawner of `kind` with the default target count of its kind, unless one of
    /// that kind exists already.
    pub fn request_spawner(&mut self, kind: TargetKind)
        requires
            old(self).wf(),
        ensures
            final(self).wf(),
            spawner_added(kind, default_target(kind), *old(self), *final(self)),
    {
        let target_count = match kind {
            TargetKind::Fruit => FRUIT_TARGET_COUNT,
            TargetKind::Coins => COIN_TARGET_COUNT,
        };
        self.add_spawner(kind, target_count);
    }

    /// Places an item on `cell` with a fresh identity, which it returns; `None` once
    /// identities have run out.
    pub fn add_item(&mut self, cell: GridCell, resource: Resource) -> (r: Option<u64>)
        requires
            old(self).wf(),
        ensures
            final(self).wf(),
            final(self).agents_spec() == old(self).agents_spec(),
            final(self).bounds_spec() == old(self).bounds_spec(),
            final(self).spawners_spec() == old(self).spawners_spec(),
            final(self).hunger_enabled_spec() == old(self).hunger_enabled_spec(),
            final(self).naive_enabled_spec() == old(self).naive_enabled_spec(),
            final(self).movement_nodes() == old(self).movement_nodes(),
            old(self).next_id_spec() < u64::MAX ==> {
                &&& r == Some(old(self).next_id_spec() as u64)
                &&& final(self).items_spec() == old(self).items_spec().push(
                    Item { id: old(self).next_id_spec() as u64, cell, resource },
                )
                &&& final(self).next_id_spec() == old(self).next_id_spec() + 1
            },
            old(self).next_id_spec() == u64::MAX ==> r is None && final(self).items_spec()
                == old(self).items_spec() && final(self).next_id_spec() == old(self).next_id_spec(),
    {
        if self.next_id == u64::MAX {
            return None;
        }
        let id = self.next_id;
        self.items.push(Item { id, cell, resource });
        self.next_id = self.next_id + 1;
        proof {
            assert forall|i: int| 0 <= i < self.agents_spec().len() implies agent_wf(
                #[trigger] self.agents_spec()[i],
                self.movement_nodes(),
                self.hunger_enabled_spec(),
            ) by {
                assert(agent_wf(old(self).agents_spec()[i], old(self).movement_nodes(), old(self).hunger_enabled_spec()));
            }
        }
        Some(id)
    }

    /// Carries out one inbound command, through the method of each.
    pub fn handle(&mut self, command: Command)
        requires
            old(self).wf(),
        ensures
            final(self).wf(),
            match command {
                Command::SpawnAgent => agent_spawned(*old(self), *final(self)),
                Command::SetBehaviour(kind) => behaviour_set(kind, *old(self), *final(self)),
                Command::ClearBehaviours => behaviours_cleared(*old(self), *final(self)),
                Command::EnableHunger => hunger_switched_on(*old(self), *final(self)),
                Command::RequestSpawner(kind) => spawner_added(
                    kind,
                    default_target(kind),
                    *old(self),
                    *final(self),
                ),
            },
    {
        match command {
            Command::SpawnAgent => {
                let _ = self.spawn_agent();
            },
            Command::SetBehaviour(kind) => self.set_behaviour(kind),
            Command::ClearBehaviours => self.clear_behaviours(),
            Command::EnableHunger => self.enable_hunger(),
            Command::RequestSpawner(kind) => self.request_spawner(kind),
        }
    }
}

/// Every agent of `a` became the agent of `a2` at the same position by the movement
/// pass.
pub open spec fn all_moved(
    nodes: Option<Seq<Behave<Action>>>,
    b: GridBounds,
    items: Seq<Item>,
    a: Seq<Agent>,
    a2: Seq<Agent>,
) -> bool {
    &&& a2.len() == a.len()
    &&& forall|i: int| 0 <= i < a.len() ==> moved(nodes, b, items, #[trigger] a[i], a2[i])
}

/// Every agent of `a`, in order, picked up from what the agents before it left of
/// `items`, and became the agent of `a2` at the same position.
pub open spec fn all_picked_up(a: Seq<Agent>, a2: Seq<Agent>, items: Seq<Item>) -> bool {
    &&& a2.len() == a.len()
    &&& forall|i: int|
        0 <= i < a.len() ==> picked_up(#[trigger] a[i], a2[i], items_after_pickups(a.take(i), items))
}

/// What a spawner of `kind` places: a fruit of `FRUIT_NUTRITIONAL_VALUE` or a coin of
/// `COIN_MONETARY_VALUE`.
pub open spec fn spawned_resource(kind: TargetKind) -> Resource {
    match kind {
        TargetKind::Fruit => Resource::Fruit(Fruit { nutritional_value: FRUIT_NUTRITIONAL_VALUE }),
        TargetKind::Coins => Resource::Coin(Coin { monetary_value: COIN_MONETARY_VALUE }),
    }
}

/// `items2` and `next2` are `items` and `next` after the spawner pass: the old items
/// first, then at most one new item per spawner, each in bounds, holding what a spawner
/// of its kind places, with the fresh identities from `next` on in order; while fresh
/// identities last, each spawner that was due added exactly one item of its kind and
/// the others none.
pub open spec fn spawners_ran(
    b: GridBounds,
    spawners: Seq<Spawner>,
    next: nat,
    items: Seq<Item>,
    next2: nat,
    items2: Seq<Item>,
) -> bool {
    &&& items.len() <= items2.len() <= items.len() + spawners.len()
    &&& items2.take(items.len() as int) == items
    &&& next2 == next + (items2.len() - items.len())
    &&& forall|k: int|
        items.len() <= k < items2.len() ==> {
            &&& b.contains_cell(#[trigger] items2[k].cell)
            &&& items2[k].id == next + (k - items.len())
            &&& items2[k].resource == spawned_resource(kind_of(items2[k].resource))
        }
    &&& next + spawners.len() <= u64::MAX ==> forall|j: int|
        0 <= j < spawners.len() ==> count_kind(items2, #[trigger] spawners[j].kind) == count_kind(
            items,
            spawners[j].kind,
        ) + if spawn_due(items, spawners[j]) {
            1int
        } else {
            0int
        }
}

/// In every well-formed simulation (which every operation keeps), each agent with a
/// hunger stat has `0 <= remaining <= capacity`, and has one exactly when hunger is on.
pub proof fn lemma_hunger_within_capacity(s: Simulation, i: int)
    requires
        s.wf(),
        0 <= i < s.agents_spec().len(),
    ensures
        s.agents_spec()[i].hunger matches Some(h) ==> h.level() <= h.cap(),
        s.agents_spec()[i].hunger is Some <==> s.hunger_enabled_spec(),
{
    assert(agent_wf(s.agents_spec()[i], s.movement_nodes(), s.hunger_enabled_spec()));
}

/// `s2` is `s` after one movement tick: the movement pass (every agent steps against
/// the items as they were), then the pickup pass, then the spawner pass.
pub open spec fn movement_ticked(s: Simulation, s2: Simulation) -> bool {
    &&& s2.bounds_spec() == s.bounds_spec()
    &&& s2.spawners_spec() == s.spawners_spec()
    &&& s2.hunger_enabled_spec() == s.hunger_enabled_spec()
    &&& s2.naive_enabled_spec() == s.naive_enabled_spec()
    &&& s2.movement_nodes() == s.movement_nodes()
    &&& s.next_id_spec() <= s2.next_id_spec() <= s.next_id_spec() + s.spawners_spec().len()
    &&& exists|moved_agents: Seq<Agent>|
        #[trigger] all_moved(
            s.movement_nodes(),
            s.bounds_spec(),
            s.items_spec(),
            s.agents_spec(),
            moved_agents,
        ) && all_picked_up(moved_agents, s2.agents_spec(), s.items_spec()) && spawners_ran(
            s.bounds_spec(),
            s.spawners_spec(),
            s.next_id_spec(),
            items_after_pickups(moved_agents, s.items_spec()),
            s2.next_id_spec(),
            s2.items_spec(),
        )
}

/// `s2` is `s` after one hunger tick: the agents that do not starve, in order, each
/// with its hunger one lower.
pub open spec fn hunger_ticked(s: Simulation, s2: Simulation) -> bool {
    &&& same_world(s, s2)
    &&& s2.agents_spec().len() == survivors(s.agents_spec()).len()
    &&& forall|k: int|
        0 <= k < s2.agents_spec().len() ==> hunger_decayed(
            #[trigger] survivors(s.agents_spec())[k],
            s2.agents_spec()[k],
        )
}

/// Every field but the agents is the same in both states.
pub open spec fn same_world(a: Simulation, b: Simulation) -> bool {
    &&& b.bounds_spec() == a.bounds_spec()
    &&& b.items_spec() == a.items_spec()
    &&& b.spawners_spec() == a.spawners_spec()
    &&& b.hunger_enabled_spec() == a.hunger_enabled_spec()
    &&& b.naive_enabled_spec() == a.naive_enabled_spec()
    &&& b.movement_nodes() == a.movement_nodes()
    &&& b.pickup_nodes() == a.pickup_nodes()
    &&& b.next_id_spec() == a.next_id_spec()
}

/// The items left after `agents`, in order, each picked up what lies on its cell.
pub open spec fn items_after_pickups(agents: Seq<Agent>, items: Seq<Item>) -> Seq<Item>
    decreases agents.len(),
{
    if agents.len() == 0 {
        items
    } else {
        let a = agents.last();
        kept(items_after_pickups(agents.drop_last(), items), a.cell, a.hunger is Some)
    }
}

/// Agent `a` after picking up from `items` is `a2`: fruit on its cell fed its hunger
/// and coins on its cell earned it points, clamped; nothing else changed.
pub open spec fn picked_up(a: Agent, a2: Agent, items: Seq<Item>) -> bool {
    &&& a2.id == a.id
    &&& a2.cell == a.cell
    &&& a2.target == a.target
    &&& a2.naive_walk == a.naive_walk
    &&& a2.movement == a.movement
    &&& a2.pickup == a.pickup
    &&& a2.points.target() == a.points.target()
    &&& a2.points.earned() == min((a.points.earned() + coins_on(items, a.cell)) as int, a.points.target() as int)
    &&& (a.hunger is None ==> a2.hunger is None)
    &&& (a.hunger matches Some(h) ==> (a2.hunger matches Some(h2) && h2.cap() == h.cap() && h2.level()
        == min((h.level() + fruit_on(items, a.cell)) as int, h.cap() as int)))
}

/// A spawner is due when its kind has fewer items than its target.
pub open spec fn spawn_due(items: Seq<Item>, s: Spawner) -> bool {
    count_kind(items, s.kind) < s.target_count
}

proof fn lemma_kept_subset(items: Seq<Item>, cell: GridCell, eats: bool)
    ensures
        kept(items, cell, eats).len() <= items.len(),
        forall|k: int|
            0 <= k < kept(items, cell, eats).len() ==> exists|j: int|
                0 <= j < items.len() && items[j] == #[trigger] kept(items, cell, eats)[k]
                    && !consumed(items[j], cell, eats),
    decreases items.len(),
{
    if items.len() > 0 {
        let p = items.drop_last();
        lemma_kept_subset(p, cell, eats);
        let kp = kept(p, cell, eats);
        let k1 = kept(items, cell, eats);
        assert forall|k: int| 0 <= k < k1.len() implies exists|j: int|
            0 <= j < items.len() && items[j] == #[trigger] k1[k] && !consumed(items[j], cell, eats) by {
            if k < kp.len() {
                assert(k1[k] == kp[k]);
                let j = choose|j: int| 0 <= j < p.len() && p[j] == kp[k] && !consumed(p[j], cell, eats);
                assert(items[j] == p[j]);
            } else {
                assert(k1[k] == items[items.len() - 1]);
            }
        }
    }
}

/// An item picked up is gone for good: once an agent on `cell` has taken item `i`, no
/// item left has its identity, and an agent heading for it stops there and then, in
/// place, with its target cleared.
pub proof fn lemma_consumed_target_released(
    items: Seq<Item>,
    next: nat,
    cell: GridCell,
    eats: bool,
    i: int,
    agent_cell: GridCell,
)
    requires
        ids_increasing(items, next),
        0 <= i < items.len(),
        consumed(items[i], cell, eats),
    ensures
        forall|k: int|
            0 <= k < kept(items, cell, eats).len() ==> #[trigger] kept(items, cell, eats)[k].id
                != items[i].id,
        go_to_outcome(kept(items, cell, eats), agent_cell, Some(items[i].id)) == (
            agent_cell,
            None::<u64>,
            Status::Success,
        ),
{
    let left = kept(items, cell, eats);
    lemma_kept_subset(items, cell, eats);
    assert forall|k: int| 0 <= k < left.len() implies #[trigger] left[k].id != items[i].id by {
        let j = choose|j: int| 0 <= j < items.len() && items[j] == left[k] && !consumed(items[j], cell, eats);
        if j < i {
            assert(items[j].id < items[i].id);
        } else if i < j {
            assert(items[i].id < items[j].id);
        }
    }
    crate::target_finding::lemma_first_with_id(left, items[i].id);
}

proof fn lemma_kept_increasing(items: Seq<Item>, cell: GridCell, eats: bool, next: nat)
    requires
        ids_increasing(items, next),
    ensures
        ids_increasing(kept(items, cell, eats), next),
    decreases items.len(),
{
    if items.len() > 0 {
        let p = items.drop_last();
        assert(ids_increasing(p, next)) by {
            assert forall|i: int, j: int| 0 <= i < j < p.len() implies #[trigger] p[i].id < #[trigger] p[j].id by {
                assert(p[i] == items[i] && p[j] == items[j]);
            }
            assert forall|i: int| 0 <= i < p.len() implies #[trigger] p[i].id < next by {
                assert(p[i] == items[i]);
            }
        }
        lemma_kept_increasing(p, cell, eats, next);
        lemma_kept_subset(p, cell, eats);
        let kp = kept(p, cell, eats);
        let k1 = kept(items, cell, eats);
        if !consumed(items.last(), cell, eats) {
            let x = items.last();
            assert forall|k: int| 0 <= k < kp.len() implies #[trigger] kp[k].id < x.id by {
                let j = choose|j: int| 0 <= j < p.len() && p[j] == kp[k];
                assert(items[j] == p[j]);
                assert(items[j].id < items[items.len() - 1].id);
            }
            assert forall|i: int, j: int| 0 <= i < j < k1.len() implies #[trigger] k1[i].id < #[trigger] k1[j].id by {
                assert(k1[i] == kp[i]);
                if j < kp.len() {
                    assert(k1[j] == kp[j]);
                }
            }
            assert forall|i: int| 0 <= i < k1.len() implies #[trigger] k1[i].id < next by {
                if i < kp.len() {
                    assert(k1[i] == kp[i]);
                }
            }
        }
    }
}

/// Item identities strictly increase along the list and stay below `next`.
pub open spec fn ids_increasing(items: Seq<Item>, next: nat) -> bool {
    &&& forall|i: int, j: int| 0 <= i < j < items.len() ==> #[trigger] items[i].id < #[trigger] items[j].id
    &&& forall|i: int| 0 <= i < items.len() ==> #[trigger] items[i].id < next
}

} // verus!
