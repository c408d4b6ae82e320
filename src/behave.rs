use vstd::prelude::*;

use crate::hunger::Hunger;

verus! {

/// What a leaf reports each time it is evaluated.
#[derive(Clone, Copy, Debug, PartialEq, Eq, Structural)]
pub enum Status {
    Running,
    Success,
    Failure,
}

/// A check that an `IfThen` node makes, synchronously, each time it is entered.
#[derive(Clone, Copy, Debug, PartialEq, Eq, Structural)]
pub enum Condition {
    /// Holds when the agent has a hunger stat whose fraction left is below
    /// `numerator / denominator`.
    HungerCheck { numerator: usize, denominator: usize },
}

/// Whether condition `c` holds for an agent with the given hunger stat; an agent
/// without one is never hungry.
pub open spec fn condition_holds(c: Condition, hunger: Option<Hunger>) -> bool {
    match c {
        Condition::HungerCheck { numerator, denominator } => match hunger {
            Some(h) => h.below(numerator as nat, denominator as nat),
            None => false,
        },
    }
}

impl Condition {
    pub fn holds(&self, hunger: &Option<Hunger>) -> (r: bool)
        ensures
            r == condition_holds(*self, *hunger),
    {
        match self {
            Condition::HungerCheck { numerator, denominator } => match hunger {
                Some(h) => h.is_below(*numerator, *denominator),
                None => false,
            },
        }
    }
}

/// A node of a behaviour tree. Children are indices into the tree's node list.
pub enum Behave<A> {
    /// Re-enters its child each time the child finishes; never finishes itself.
    Forever { child: usize },
    /// Runs its children in order: fails as soon as one fails, succeeds when the last
    /// one succeeds.
    Sequence { children: Vec<usize> },
    /// Checks the condition on entry and runs one branch, reporting its result.
    IfThen { condition: Condition, then_branch: usize, else_branch: usize },
    /// A parameterised action.
    Leaf { action: A },
}

/// Where a running instance stands in one node: for a `Sequence` the index of the
/// active child, for an `IfThen` 0 for the then-branch and 1 for the else-branch.
#[derive(Clone, Copy, Debug, PartialEq, Eq, Structural)]
pub struct Frame {
    pub node: usize,
    pub slot: usize,
}

/// The node that a frame of `n` with the given slot runs, or -1 for a leaf.
pub open spec fn child_at<A>(n: Behave<A>, slot: int) -> int {
    match n {
        Behave::Forever { child } => child as int,
        Behave::Sequence { children } => children@[slot] as int,
        Behave::IfThen { then_branch, else_branch, .. } => if slot == 0 {
            then_branch as int
        } else {
            else_branch as int
        },
        Behave::Leaf { .. } => -1,
    }
}

/// Children point forward, so that the tree is finite and acyclic.
pub open spec fn node_ok<A>(nodes: Seq<Behave<A>>, i: int) -> bool {
    match nodes[i] {
        Behave::Forever { child } => i < child < nodes.len(),
        Behave::Sequence { children } => 0 < children@.len() <= usize::MAX && forall|k: int|
            0 <= k < children@.len() ==> i < #[trigger] children@[k] < nodes.len(),
        Behave::IfThen { then_branch, else_branch, .. } => i < then_branch < nodes.len() && i
            < else_branch < nodes.len(),
        Behave::Leaf { .. } => true,
    }
}

/// A well-formed tree: a root at index 0, non-empty sequences, forward children.
pub open spec fn tree_wf<A>(nodes: Seq<Behave<A>>) -> bool {
    0 < nodes.len() <= usize::MAX && forall|i: int| 0 <= i < nodes.len() ==> #[trigger] node_ok(nodes, i)
}

/// The frames entered when node `i` is entered: down to the first leaf, taking child 0
/// of a sequence and the branch that the condition of an `IfThen` selects.
pub open spec fn descend<A>(nodes: Seq<Behave<A>>, i: int, hunger: Option<Hunger>) -> Seq<Frame>
    decreases nodes.len() - i,
{
    if 0 <= i < nodes.len() {
        let slot: int = match nodes[i] {
            Behave::IfThen { condition, .. } => if condition_holds(condition, hunger) {
                0
            } else {
                1
            },
            _ => 0,
        };
        let f = Frame { node: i as usize, slot: slot as usize };
        let c = child_at(nodes[i], slot);
        if nodes[i] is Leaf || !(i < c < nodes.len()) {
            seq![f]
        } else {
            seq![f] + descend(nodes, c, hunger)
        }
    } else {
        seq![]
    }
}

/// The frames after the node below `path` finished with `r` (not `Running`): a
/// `Forever` re-enters its child, a `Sequence` whose child succeeded enters the next
/// child if there is one; otherwise the result passes up. An empty result means that
/// the whole tree finished with `r`.
pub open spec fn resume<A>(
    nodes: Seq<Behave<A>>,
    path: Seq<Frame>,
    r: Status,
    hunger: Option<Hunger>,
) -> Seq<Frame>
    decreases path.len(),
{
    if path.len() == 0 {
        seq![]
    } else {
        let f = path.last();
        let rest = path.drop_last();
        match nodes[f.node as int] {
            Behave::Forever { child } => path + descend(nodes, child as int, hunger),
            Behave::Sequence { children } => if r == Status::Success && f.slot + 1
                < children@.len() {
                rest.push(Frame { node: f.node, slot: (f.slot + 1) as usize }) + descend(
                    nodes,
                    children@[f.slot + 1] as int,
                    hunger,
                )
            } else {
                resume(nodes, rest, r, hunger)
            },
            _ => resume(nodes, rest, r, hunger),
        }
    }
}

/// The frame names a node of the tree, with a slot that node has.
pub open spec fn frame_ok<A>(nodes: Seq<Behave<A>>, f: Frame) -> bool {
    &&& f.node < nodes.len()
    &&& match nodes[f.node as int] {
        Behave::Sequence { children } => f.slot < children@.len(),
        Behave::IfThen { .. } => f.slot < 2,
        _ => f.slot == 0,
    }
}

/// Frame `k + 1` runs the node that frame `k` points at.
pub open spec fn linked<A>(nodes: Seq<Behave<A>>, path: Seq<Frame>, k: int) -> bool {
    path[k + 1].node == child_at(nodes[path[k].node as int], path[k].slot as int)
}

/// A chain of frames, each valid and each pointing at the next.
pub open spec fn chain_ok<A>(nodes: Seq<Behave<A>>, path: Seq<Frame>) -> bool {
    &&& forall|k: int| 0 <= k < path.len() ==> frame_ok(nodes, #[trigger] path[k])
    &&& forall|k: int| 0 <= k < path.len() - 1 ==> #[trigger] linked(nodes, path, k)
}

/// The frames of a running instance: a chain from the root down to a leaf.
pub open spec fn path_wf<A>(nodes: Seq<Behave<A>>, path: Seq<Frame>) -> bool {
    &&& path.len() > 0
    &&& path[0].node == 0
    &&& chain_ok(nodes, path)
    &&& nodes[path.last().node as int] is Leaf
}

proof fn lemma_descend_chain<A>(nodes: Seq<Behave<A>>, i: int, hunger: Option<Hunger>)
    requires
        tree_wf(nodes),
        0 <= i < nodes.len(),
    ensures
        descend(nodes, i, hunger).len() > 0,
        descend(nodes, i, hunger)[0].node == i,
        chain_ok(nodes, descend(nodes, i, hunger)),
        nodes[descend(nodes, i, hunger).last().node as int] is Leaf,
    decreases nodes.len() - i,
{
    assert(node_ok(nodes, i));
    let d = descend(nodes, i, hunger);
    if !(nodes[i] is Leaf) {
        let slot: int = match nodes[i] {
            Behave::IfThen { condition, .. } => if condition_holds(condition, hunger) {
                0
            } else {
                1
            },
            _ => 0,
        };
        let c = child_at(nodes[i], slot);
        if let Behave::Sequence { children } = nodes[i] {
            assert(i < children@[0] < nodes.len());
        }
        assert(i < c < nodes.len());
        lemma_descend_chain(nodes, c, hunger);
        let f = Frame { node: i as usize, slot: slot as usize };
        let rest = descend(nodes, c, hunger);
        assert(d == seq![f] + rest);
        assert forall|k: int| 0 <= k < d.len() implies frame_ok(nodes, #[trigger] d[k]) by {
            if k > 0 {
                assert(d[k] == rest[k - 1]);
            }
        }
        assert forall|k: int| 0 <= k < d.len() - 1 implies #[trigger] linked(nodes, d, k) by {
            if k > 0 {
                assert(d[k] == rest[k - 1]);
                assert(d[k + 1] == rest[k]);
                assert(linked(nodes, rest, k - 1));
            }
        }
    }
}

proof fn lemma_concat_chain<A>(nodes: Seq<Behave<A>>, p: Seq<Frame>, d: Seq<Frame>)
    requires
        chain_ok(nodes, p),
        chain_ok(nodes, d),
        p.len() > 0,
        d.len() > 0,
        d[0].node == child_at(nodes[p.last().node as int], p.last().slot as int),
    ensures
        chain_ok(nodes, p + d),
        (p + d)[0] == p[0],
        (p + d).last() == d.last(),
{
    let s = p + d;
    assert forall|k: int| 0 <= k < s.len() implies frame_ok(nodes, #[trigger] s[k]) by {
        if k >= p.len() {
            assert(s[k] == d[k - p.len()]);
        } else {
            assert(s[k] == p[k]);
        }
    }
    assert forall|k: int| 0 <= k < s.len() - 1 implies #[trigger] linked(nodes, s, k) by {
        if k >= p.len() {
            assert(s[k] == d[k - p.len()]);
            assert(s[k + 1] == d[k + 1 - p.len()]);
            assert(linked(nodes, d, k - p.len()));
        } else if k == p.len() - 1 {
            assert(s[k] == p.last());
            assert(s[k + 1] == d[0]);
        } else {
            assert(s[k] == p[k]);
            assert(s[k + 1] == p[k + 1]);
            assert(linked(nodes, p, k));
        }
    }
}

proof fn lemma_drop_last_chain<A>(nodes: Seq<Behave<A>>, p: Seq<Frame>)
    requires
        chain_ok(nodes, p),
        p.len() > 0,
    ensures
        chain_ok(nodes, p.drop_last()),
{
    let q = p.drop_last();
    assert forall|k: int| 0 <= k < q.len() implies frame_ok(nodes, #[trigger] q[k]) by {
        assert(q[k] == p[k]);
    }
    assert forall|k: int| 0 <= k < q.len() - 1 implies #[trigger] linked(nodes, q, k) by {
        assert(q[k] == p[k]);
        assert(q[k + 1] == p[k + 1]);
        assert(linked(nodes, p, k));
    }
}

/// Entering the root of a well-formed tree gives a running instance.
pub proof fn lemma_descend_root<A>(nodes: Seq<Behave<A>>, hunger: Option<Hunger>)
    requires
        tree_wf(nodes),
    ensures
        path_wf(nodes, descend(nodes, 0, hunger)),
{
    lemma_descend_chain(nodes, 0, hunger);
}

/// Resuming a chain that starts at the root gives either a running instance again or
/// the empty path of a finished tree.
pub proof fn lemma_resume_wf<A>(
    nodes: Seq<Behave<A>>,
    path: Seq<Frame>,
    r: Status,
    hunger: Option<Hunger>,
)
    requires
        tree_wf(nodes),
        chain_ok(nodes, path),
        path.len() > 0 ==> path[0].node == 0,
    ensures
        resume(nodes, path, r, hunger).len() == 0 || path_wf(
            nodes,
            resume(nodes, path, r, hunger),
        ),
    decreases path.len(),
{
    if path.len() > 0 {
        let f = path.last();
        let rest = path.drop_last();
        assert(frame_ok(nodes, path[path.len() - 1]));
        assert(node_ok(nodes, f.node as int));
        lemma_drop_last_chain(nodes, path);
        match nodes[f.node as int] {
            Behave::Forever { child } => {
                lemma_descend_chain(nodes, child as int, hunger);
                lemma_concat_chain(nodes, path, descend(nodes, child as int, hunger));
            },
            Behave::Sequence { children } => {
                if r == Status::Success && f.slot + 1 < children@.len() {
                    let g = Frame { node: f.node, slot: (f.slot + 1) as usize };
                    let q = rest.push(g);
                    assert forall|k: int| 0 <= k < q.len() implies frame_ok(
                        nodes,
                        #[trigger] q[k],
                    ) by {
                        if k < rest.len() {
                            assert(q[k] == path[k]);
                        }
                    }
                    assert forall|k: int| 0 <= k < q.len() - 1 implies #[trigger] linked(
                        nodes,
                        q,
                        k,
                    ) by {
                        assert(q[k] == path[k]);
                        assert(q[k + 1].node == path[k + 1].node);
                        assert(linked(nodes, path, k));
                    }
                    let c = children@[f.slot + 1] as int;
                    assert(f.node < c < nodes.len());
                    lemma_descend_chain(nodes, c, hunger);
                    assert(q.last() == g);
                    assert(child_at(nodes[g.node as int], g.slot as int) == c);
                    lemma_concat_chain(nodes, q, descend(nodes, c, hunger));
                    assert(q[0].node == 0);
                } else {
                    lemma_resume_wf(nodes, rest, r, hunger);
                }
            },
            _ => {
                lemma_resume_wf(nodes, rest, r, hunger);
            },
        }
    }
}

/// A tree whose root is `Forever` never finishes: whatever a leaf of a running
/// instance reports, the instance goes on running.
pub proof fn lemma_forever_never_finishes<A>(
    nodes: Seq<Behave<A>>,
    path: Seq<Frame>,
    r: Status,
    hunger: Option<Hunger>,
)
    requires
        tree_wf(nodes),
        nodes[0] is Forever,
        path.len() > 0,
        path[0].node == 0,
    ensures
        resume(nodes, path, r, hunger).len() > 0,
    decreases path.len(),
{
    let f = path.last();
    let rest = path.drop_last();
    match nodes[f.node as int] {
        Behave::Forever { .. } => {},
        Behave::Sequence { children } => {
            if !(r == Status::Success && f.slot + 1 < children@.len()) {
                assert(rest.len() > 0);
                lemma_forever_never_finishes(nodes, rest, r, hunger);
            }
        },
        _ => {
            assert(rest.len() > 0);
            lemma_forever_never_finishes(nodes, rest, r, hunger);
        },
    }
}

/// A behaviour tree definition: immutable, shared by the instances that run it.
pub struct Tree<A> {
    nodes: Vec<Behave<A>>,
}

impl<A> Tree<A> {
    pub closed spec fn nodes_spec(&self) -> Seq<Behave<A>> {
        self.nodes@
    }

    pub open spec fn wf(&self) -> bool {
        tree_wf(self.nodes_spec())
    }

    /// A tree over `nodes`, rooted at index 0.
    pub fn new(nodes: Vec<Behave<A>>) -> (r: Tree<A>)
        ensures
            r.nodes_spec() == nodes@,
    {
        Tree { nodes }
    }

    pub fn len(&self) -> (r: usize)
        ensures
            r == self.nodes_spec().len(),
    {
        self.nodes.len()
    }

    /// Whether the tree is well formed (see `tree_wf`), as `BehaveInstance::new` requires.
    pub fn is_well_formed(&self) -> (r: bool)
        ensures
            r == self.wf(),
    {
        let n = self.nodes.len();
        if n == 0 {
            return false;
        }
        let mut i: usize = 0;
        while i < n
            invariant
                n == self.nodes@.len(),
                i <= n,
                forall|k: int| 0 <= k < i ==> #[trigger] node_ok(self.nodes@, k),
            decreases n - i,
        {
            let ok = match &self.nodes[i] {
                Behave::Forever { child } => i < *child && *child < n,
                Behave::Sequence { children } => {
                    let m = children.len();
                    let mut all = m > 0;
                    let mut j: usize = 0;
                    while j < m
                        invariant
                            m == children@.len(),
                            j <= m,
                            all <==> (m > 0 && forall|q: int| 0 <= q < j ==> i < #[trigger] children@[q] < n),
                        decreases m - j,
                    {
                        if !(i < children[j] && children[j] < n) {
                            all = false;
                        }
                        j = j + 1;
                    }
                    all
                },
                Behave::IfThen { then_branch, else_branch, .. } => i < *then_branch && *then_branch
                    < n && i < *else_branch && *else_branch < n,
                Behave::Leaf { .. } => true,
            };
            if !ok {
                proof {
                    assert(!node_ok(self.nodes@, i as int));
                }
                return false;
            }
            i = i + 1;
        }
        true
    }

    pub fn node(&self, i: usize) -> (r: &Behave<A>)
        requires
            i < self.nodes_spec().len(),
        ensures
            *r == self.nodes_spec()[i as int],
    {
        &self.nodes[i]
    }
}

/// The nodes of an optional tree.
pub open spec fn tree_nodes<A>(t: Option<Tree<A>>) -> Option<Seq<Behave<A>>> {
    match t {
        Some(t) => Some(t.nodes_spec()),
        None => None,
    }
}

/// One agent's walk over a tree: the frames from the root down to the active leaf.
/// An empty path means the tree has finished.
pub struct BehaveInstance {
    path: Vec<Frame>,
}

impl BehaveInstance {
    pub closed spec fn frames(&self) -> Seq<Frame> {
        self.path@
    }

    /// Running on `nodes`, or finished.
    pub open spec fn wf_for<A>(&self, nodes: Seq<Behave<A>>) -> bool {
        self.frames().len() == 0 || path_wf(nodes, self.frames())
    }

    /// Pushes the frames that entering node `i` enters.
    fn enter<A>(&mut self, tree: &Tree<A>, i: usize, hunger: &Option<Hunger>)
        requires
            tree.wf(),
            i < tree.nodes_spec().len(),
        ensures
            final(self).frames() == old(self).frames() + descend(tree.nodes_spec(), i as int, *hunger),
    {
        let ghost nodes = tree.nodes_spec();
        let ghost goal = self.path@ + descend(nodes, i as int, *hunger);
        let mut cur = i;
        loop
            invariant
                tree.wf(),
                nodes == tree.nodes_spec(),
                cur < nodes.len(),
                goal == self.path@ + descend(nodes, cur as int, *hunger),
                goal == old(self).frames() + descend(nodes, i as int, *hunger),
            decreases nodes.len() - cur,
        {
            proof {
                assert(node_ok(nodes, cur as int));
            }
            let ghost p0 = self.path@;
            let node = tree.node(cur);
            let (slot, next): (usize, Option<usize>) = match node {
                Behave::Leaf { .. } => (0, None),
                Behave::Forever { child } => (0, Some(*child)),
                Behave::Sequence { children } => (0, Some(children[0])),
                Behave::IfThen { condition, then_branch, else_branch } => {
                    if condition.holds(hunger) {
                        (0, Some(*then_branch))
                    } else {
                        (1, Some(*else_branch))
                    }
                },
            };
            let f = Frame { node: cur, slot };
            self.path.push(f);
            match next {
                None => {
                    proof {
                        assert(descend(nodes, cur as int, *hunger) == seq![f]);
                        assert(self.path@ =~= p0 + seq![f]);
                    }
                    return ;
                },
                Some(c) => {
                    proof {
                        assert(c == child_at(nodes[cur as int], slot as int));
                        assert(descend(nodes, cur as int, *hunger) == seq![f] + descend(
                            nodes,
                            c as int,
                            *hunger,
                        ));
                        assert(self.path@ + descend(nodes, c as int, *hunger) =~= p0 + (seq![f]
                            + descend(nodes, c as int, *hunger)));
                    }
                    cur = c;
                },
            }
        }
    }

    /// A fresh instance of `tree`, entered at its root.
    pub fn new<A>(tree: &Tree<A>, hunger: &Option<Hunger>) -> (r: BehaveInstance)
        requires
            tree.wf(),
        ensures
            r.frames() == descend(tree.nodes_spec(), 0, *hunger),
            path_wf(tree.nodes_spec(), r.frames()),
    {
        let mut r = BehaveInstance { path: Vec::new() };
        r.enter(tree, 0, hunger);
        proof {
            assert(r.path@ =~= descend(tree.nodes_spec(), 0, *hunger));
            lemma_descend_root(tree.nodes_spec(), *hunger);
        }
        r
    }

    /// The node index of the active leaf, or `None` once the tree has finished.
    pub fn active_leaf(&self) -> (r: Option<usize>)
        ensures
            r == (if self.frames().len() > 0 {
                Some(self.frames().last().node)
            } else {
                None::<usize>
            }),
    {
        if self.path.len() > 0 {
            Some(self.path[self.path.len() - 1].node)
        } else {
            None
        }
    }

    pub fn is_finished(&self) -> (r: bool)
        ensures
            r == (self.frames().len() == 0),
    {
        self.path.len() == 0
    }

    /// The active leaf finished with `r`: moves to the next leaf to run, evaluating the
    /// conditions of the `IfThen` nodes entered on the way against `hunger`. Returns
    /// whether the whole tree finished (with `r`).
    pub fn report<A>(&mut self, tree: &Tree<A>, r: Status, hunger: &Option<Hunger>) -> (finished:
        bool)
        requires
            tree.wf(),
            path_wf(tree.nodes_spec(), old(self).frames()),
            r != Status::Running,
        ensures
            final(self).frames() == resume(
                tree.nodes_spec(),
                old(self).frames().drop_last(),
                r,
                *hunger,
            ),
            final(self).wf_for(tree.nodes_spec()),
            finished == (final(self).frames().len() == 0),
    {
        let ghost nodes = tree.nodes_spec();
        let ghost goal = resume(nodes, self.path@.drop_last(), r, *hunger);
        proof {
            lemma_drop_last_chain(nodes, self.path@);
            lemma_resume_wf(nodes, self.path@.drop_last(), r, *hunger);
        }
        self.path.pop();
        loop
            invariant
                tree.wf(),
                nodes == tree.nodes_spec(),
                goal == resume(nodes, self.path@, r, *hunger),
                goal == resume(nodes, old(self).frames().drop_last(), r, *hunger),
                chain_ok(nodes, self.path@),
                goal.len() == 0 || path_wf(nodes, goal),
                r != Status::Running,
            decreases self.path@.len(),
        {
            let n = self.path.len();
            if n == 0 {
                proof {
                    assert(self.path@ =~= seq![]);
                }
                return true;
            }
            let f = self.path[n - 1];
            let ghost p0 = self.path@;
            proof {
                assert(frame_ok(nodes, p0[n - 1]));
                assert(node_ok(nodes, f.node as int));
                assert(f == p0.last());
                lemma_drop_last_chain(nodes, p0);
            }
            match tree.node(f.node) {
                Behave::Forever { child } => {
                    self.enter(tree, *child, hunger);
                    proof {
                        assert(goal == p0 + descend(nodes, *child as int, *hunger));
                    }
                    return false;
                },
                Behave::Sequence { children } => {
                    if r == Status::Success && f.slot < children.len() - 1 {
                        let next = children[f.slot + 1];
                        let g = Frame { node: f.node, slot: f.slot + 1 };
                        self.path.set(n - 1, g);
                        proof {
                            assert(self.path@ =~= p0.drop_last().push(g));
                            assert(goal == p0.drop_last().push(g) + descend(
                                nodes,
                                next as int,
                                *hunger,
                            ));
                        }
                        self.enter(tree, next, hunger);
                        return false;
                    } else {
                        self.path.pop();
                        proof {
                            assert(goal == resume(nodes, p0.drop_last(), r, *hunger));
                        }
                    }
                },
                _ => {
                    self.path.pop();
                    proof {
                        assert(goal == resume(nodes, p0.drop_last(), r, *hunger));
                    }
                },
            }
        }
    }
}

} // verus!
