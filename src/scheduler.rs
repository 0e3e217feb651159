//! The action scheduler: a queue of actions ordered by when each was last
//! performed, fed lazily with the children of each node the first time
//! that node runs.
use vstd::prelude::*;
use crate::model::{Behavior, BehaviorTree, Node, TreeView, children_of, lookup, well_formed_tree};
use crate::rng::random_in_range;

verus! {

/// Minimum time, in milliseconds, that an action stays current.
pub const DWELL_MS: u128 = 1000;

/// A behavior scheduled for a node of the tree, with the time (in ms) it
/// was last performed; 0 means never.
#[derive(Debug, Clone, Copy, PartialEq, Eq, Structural)]
pub struct BehaviorAction {
    pub behavior: Behavior,
    pub node_id: u32,
    pub last_performed: u128,
}

/// The action that stands in when the queue has nothing to give.
pub open spec fn idle_action(current_time: u128) -> BehaviorAction {
    BehaviorAction { behavior: Behavior::Idle, node_id: 0, last_performed: current_time }
}

/// Index of the action that leaves the queue next: the one performed
/// longest ago; among equally old ones, the one queued last.
pub open spec fn earliest_index(q: Seq<BehaviorAction>) -> int
    decreases q.len(),
{
    if q.len() <= 1 {
        0
    } else {
        let i = earliest_index(q.drop_last());
        if q.last().last_performed <= q[i].last_performed {
            q.len() - 1
        } else {
            i
        }
    }
}

pub proof fn lemma_earliest_index_in_range(q: Seq<BehaviorAction>)
    requires
        q.len() > 0,
    ensures
        0 <= earliest_index(q) < q.len(),
    decreases q.len(),
{
    if q.len() > 1 {
        lemma_earliest_index_in_range(q.drop_last());
    }
}

/// No queued action was performed longer ago than the one at
/// `earliest_index`.
pub proof fn lemma_earliest_is_minimal(q: Seq<BehaviorAction>)
    requires
        q.len() > 0,
    ensures
        forall|j: int|
            0 <= j < q.len() ==> q[earliest_index(q)].last_performed <= (#[trigger] q[j]).last_performed,
    decreases q.len(),
{
    if q.len() > 1 {
        let p = q.drop_last();
        lemma_earliest_is_minimal(p);
        lemma_earliest_index_in_range(p);
        let i = earliest_index(p);
        assert(q[i] == p[i]);
        assert forall|j: int| 0 <= j < q.len() implies q[earliest_index(q)].last_performed <= (
        #[trigger] q[j]).last_performed by {
            if j < q.len() - 1 {
                assert(q[j] == p[j]);
            }
        }
    }
}

/// The queue after one pop, and the action popped: the earliest one, or
/// the idle stand-in when the queue is empty.
pub open spec fn pop_spec(q: Seq<BehaviorAction>, current_time: u128) -> (
    Seq<BehaviorAction>,
    BehaviorAction,
) {
    if q.len() == 0 {
        (q, idle_action(current_time))
    } else {
        let i = earliest_index(q);
        (q.remove(i), q[i])
    }
}

/// A priority queue of actions, least recently performed first.
pub struct ActionQueue {
    actions: Vec<BehaviorAction>,
}

impl View for ActionQueue {
    type V = Seq<BehaviorAction>;

    closed spec fn view(&self) -> Seq<BehaviorAction> {
        self.actions@
    }
}

impl ActionQueue {
    pub fn new() -> (r: ActionQueue)
        ensures
            r@ == Seq::<BehaviorAction>::empty(),
    {
        ActionQueue { actions: Vec::new() }
    }

    pub fn push(&mut self, action: BehaviorAction)
        ensures
            final(self)@ == old(self)@.push(action),
    {
        self.actions.push(action);
    }

    pub fn len(&self) -> (r: usize)
        ensures
            r == self@.len(),
    {
        self.actions.len()
    }

    pub fn is_empty(&self) -> (r: bool)
        ensures
            r == (self@.len() == 0),
    {
        self.actions.len() == 0
    }

    fn earliest(&self) -> (r: usize)
        requires
            self@.len() > 0,
        ensures
            r == earliest_index(self@),
    {
        let ghost q = self.actions@;
        let mut best: usize = 0;
        let mut i: usize = 1;
        assert(q.subrange(0, 1).len() == 1);
        while i < self.actions.len()
            invariant
                q == self.actions@,
                1 <= i <= q.len(),
                best < i,
                best == earliest_index(q.subrange(0, i as int)),
            decreases q.len() - i,
        {
            let ghost next = q.subrange(0, i + 1);
            assert(next.drop_last() =~= q.subrange(0, i as int));
            assert(next.last() == q[i as int]);
            assert(next[best as int] == q[best as int]);
            if self.actions[i].last_performed <= self.actions[best].last_performed {
                best = i;
            }
            i += 1;
        }
        assert(q.subrange(0, q.len() as int) =~= q);
        best
    }

    /// Takes out the action performed longest ago (the one queued last
    /// among equally old ones); `None` when the queue is empty.
    pub fn pop(&mut self) -> (r: Option<BehaviorAction>)
        ensures
            old(self)@.len() == 0 ==> r is None && final(self)@ == old(self)@,
            old(self)@.len() > 0 ==> r == Some(pop_spec(old(self)@, 0).1) && final(self)@ == pop_spec(
                old(self)@,
                0,
            ).0,
    {
        if self.actions.len() == 0 {
            return None;
        }
        let i = self.earliest();
        proof {
            lemma_earliest_index_in_range(self@);
        }
        Some(self.actions.remove(i))
    }

    /// Like `pop`, but an empty queue yields an Idle action for node 0
    /// stamped with `current_time`.
    pub fn pop_or_idle(&mut self, current_time: u128) -> (r: BehaviorAction)
        ensures
            (final(self)@, r) == pop_spec(old(self)@, current_time),
            forall|j: int|
                0 <= j < old(self)@.len() ==> r.last_performed <= (#[trigger] old(self)@[j]).last_performed,
    {
        proof {
            if self@.len() > 0 {
                lemma_earliest_is_minimal(self@);
            }
        }
        match self.pop() {
            Some(a) => a,
            None => BehaviorAction { behavior: Behavior::Idle, node_id: 0, last_performed: current_time },
        }
    }
}

/// The queue after `n` pops.
pub open spec fn pop_times(q: Seq<BehaviorAction>, n: nat, current_time: u128) -> Seq<BehaviorAction>
    decreases n,
{
    if n == 0 {
        q
    } else {
        pop_times(pop_spec(q, current_time).0, (n - 1) as nat, current_time)
    }
}

/// Popping a queue as many times as it has actions empties it, and the
/// pop after that yields the idle stand-in, never nothing.
pub proof fn lemma_drained_queue_yields_idle(q: Seq<BehaviorAction>, current_time: u128)
    ensures
        pop_times(q, q.len(), current_time).len() == 0,
        pop_spec(pop_times(q, q.len(), current_time), current_time).1 == idle_action(current_time),
    decreases q.len(),
{
    if q.len() > 0 {
        lemma_earliest_index_in_range(q);
        let rest = pop_spec(q, current_time).0;
        assert(rest.len() == q.len() - 1);
        lemma_drained_queue_yields_idle(rest, current_time);
    }
}

/// The action for node `id`, stamped `t`, or nothing when the table has
/// no such node.
pub open spec fn action_for(nodes: Seq<Node>, id: u32, t: u128) -> Seq<BehaviorAction> {
    match lookup(nodes, id) {
        Some(n) => seq![BehaviorAction { behavior: n.name, node_id: n.id, last_performed: t }],
        None => Seq::empty(),
    }
}

/// The actions for the children of node `node_id`, stamped `t`, left child
/// first or right child first.
pub open spec fn child_actions(nodes: Seq<Node>, node_id: u32, t: u128, left_first: bool) -> Seq<
    BehaviorAction,
> {
    match children_of(nodes, node_id) {
        None => Seq::empty(),
        Some((l, r)) => if left_first {
            action_for(nodes, l, t) + action_for(nodes, r, t)
        } else {
            action_for(nodes, r, t) + action_for(nodes, l, t)
        },
    }
}

fn push_action_for(tree: &BehaviorTree, id: u32, t: u128, out: &mut Vec<BehaviorAction>)
    ensures
        final(out)@ == old(out)@ + action_for(tree@.nodes, id, t),
{
    match tree.get_node(id) {
        Some(n) => {
            out.push(BehaviorAction { behavior: n.name, node_id: n.id, last_performed: t });
        },
        None => {},
    }
}

/// The actions for the children of `current_action`'s node, stamped with
/// `current_time`, in the order that `left_first` picks.
pub fn child_actions_in_order(
    behavior_tree: &BehaviorTree,
    current_action: &BehaviorAction,
    current_time: u128,
    left_first: bool,
) -> (r: Vec<BehaviorAction>)
    ensures
        r@ == child_actions(behavior_tree@.nodes, current_action.node_id, current_time, left_first),
{
    let mut actions: Vec<BehaviorAction> = Vec::new();
    match behavior_tree.get_node_children(current_action.node_id) {
        Some((left, right)) => {
            if left_first {
                push_action_for(behavior_tree, left, current_time, &mut actions);
                push_action_for(behavior_tree, right, current_time, &mut actions);
            } else {
                push_action_for(behavior_tree, right, current_time, &mut actions);
                push_action_for(behavior_tree, left, current_time, &mut actions);
            }
            assert(actions@ =~= child_actions(
                behavior_tree@.nodes,
                current_action.node_id,
                current_time,
                left_first,
            ));
        },
        None => {
            assert(actions@ =~= Seq::<BehaviorAction>::empty());
        },
    }
    actions
}

/// A fair coin.
fn coin_flip() -> (r: bool) {
    random_in_range(0, 2) == 0
}

/// The actions for the children of `current_action`'s node, stamped with
/// `current_time`, in an order picked by a fair coin.
pub fn get_next_child_actions(
    behavior_tree: &BehaviorTree,
    current_action: &BehaviorAction,
    current_time: u128,
) -> (r: Vec<BehaviorAction>)
    ensures
        r@ == child_actions(behavior_tree@.nodes, current_action.node_id, current_time, true) || r@
            == child_actions(behavior_tree@.nodes, current_action.node_id, current_time, false),
{
    let left_first = coin_flip();
    child_actions_in_order(behavior_tree, current_action, current_time, left_first)
}

/// What a scheduler holds, as plain values.
pub struct SchedulerView {
    pub tree: TreeView,
    pub current: BehaviorAction,
    pub queue: Seq<BehaviorAction>,
    pub expanded: Seq<u32>,
}

/// The state right after construction: the root is current and queued,
/// its children are queued (never performed), and the root counts as
/// expanded.
pub open spec fn initial_scheduler(tree: TreeView, left_first: bool) -> SchedulerView {
    let root = BehaviorAction {
        behavior: tree.root.name,
        node_id: tree.root.id,
        last_performed: 0,
    };
    SchedulerView {
        tree,
        current: root,
        queue: seq![root] + child_actions(tree.nodes, root.node_id, 0, left_first),
        expanded: seq![root.node_id],
    }
}

/// Whether at least `DWELL_MS` have passed since `action` was performed.
pub open spec fn is_due(action: BehaviorAction, current_time: u128) -> bool {
    current_time >= action.last_performed + DWELL_MS
}

/// Whether performing the current action now pushes its children: it has
/// children, and its node has not been expanded before.
pub open spec fn expands(s: SchedulerView, id: u32) -> bool {
    &&& s.current.node_id == id
    &&& children_of(s.tree.nodes, id) is Some
    &&& !s.expanded.contains(id)
}

/// One scheduling step at `current_time`, after the current action was
/// performed: expand its node if this is the first time, stamp it and
/// queue it again, then make the earliest queued action current.
pub open spec fn advance_spec(s: SchedulerView, current_time: u128, left_first: bool) -> SchedulerView {
    let cur = s.current;
    let expand = expands(s, cur.node_id);
    let q1 = if expand {
        s.queue + child_actions(s.tree.nodes, cur.node_id, current_time, left_first)
    } else {
        s.queue
    };
    let done = BehaviorAction { last_performed: current_time, ..cur };
    let (q2, next) = pop_spec(q1.push(done), current_time);
    SchedulerView {
        tree: s.tree,
        current: next,
        queue: q2,
        expanded: if expand {
            s.expanded.push(cur.node_id)
        } else {
            s.expanded
        },
    }
}

/// The state after a run of steps, each given by its time and coin.
pub open spec fn run(s: SchedulerView, steps: Seq<(u128, bool)>) -> SchedulerView
    decreases steps.len(),
{
    if steps.len() == 0 {
        s
    } else {
        run(advance_spec(s, steps[0].0, steps[0].1), steps.drop_first())
    }
}

/// How many steps of the run push the children of node `id`.
pub open spec fn expansions(s: SchedulerView, steps: Seq<(u128, bool)>, id: u32) -> nat
    decreases steps.len(),
{
    if steps.len() == 0 {
        0
    } else {
        (if expands(s, id) {
            1nat
        } else {
            0nat
        }) + expansions(advance_spec(s, steps[0].0, steps[0].1), steps.drop_first(), id)
    }
}

/// Over any run of steps, the children of a node are pushed at most once,
/// and never again once the node counts as expanded (as the root does from
/// construction on).
pub proof fn lemma_expansion_once(s: SchedulerView, steps: Seq<(u128, bool)>, id: u32)
    ensures
        expansions(s, steps, id) <= 1,
        s.expanded.contains(id) ==> expansions(s, steps, id) == 0,
    decreases steps.len(),
{
    if steps.len() > 0 {
        let next = advance_spec(s, steps[0].0, steps[0].1);
        lemma_expansion_once(next, steps.drop_first(), id);
        if expands(s, id) {
            assert(next.expanded == s.expanded.push(id));
            assert(next.expanded.last() == id);
            assert(next.expanded.contains(id));
        } else if s.expanded.contains(id) {
            let j = choose|j: int| 0 <= j < s.expanded.len() && s.expanded[j] == id;
            assert(next.expanded[j] == id);
            assert(next.expanded.contains(id));
        }
    }
}

/// The queue is never empty once seeded: construction queues at least the
/// root, and a step never shrinks the queue. The action a step makes
/// current always comes from the queue (or is the one just performed), so
/// the idle stand-in is never needed there.
pub proof fn lemma_queue_stays_filled(
    tree: TreeView,
    left_first: bool,
    s: SchedulerView,
    current_time: u128,
    coin: bool,
)
    ensures
        initial_scheduler(tree, left_first).queue.len() >= 1,
        advance_spec(s, current_time, coin).queue.len() >= s.queue.len(),
        ({
            let cur = s.current;
            let q1 = if expands(s, cur.node_id) {
                s.queue + child_actions(s.tree.nodes, cur.node_id, current_time, coin)
            } else {
                s.queue
            };
            q1.push(BehaviorAction { last_performed: current_time, ..cur }).contains(
                advance_spec(s, current_time, coin).current,
            )
        }),
{
    let cur = s.current;
    let q1 = if expands(s, cur.node_id) {
        s.queue + child_actions(s.tree.nodes, cur.node_id, current_time, coin)
    } else {
        s.queue
    };
    let q2 = q1.push(BehaviorAction { last_performed: current_time, ..cur });
    lemma_earliest_index_in_range(q2);
    assert(q2[earliest_index(q2)] == advance_spec(s, current_time, coin).current);
}

/// The node ids of a run of actions.
pub open spec fn node_ids(q: Seq<BehaviorAction>) -> Seq<u32> {
    q.map_values(|a: BehaviorAction| a.node_id)
}

/// How many actions for node `id` the scheduler holds, queued or current.
pub open spec fn copies(s: SchedulerView, id: u32) -> nat {
    node_ids(s.queue.push(s.current)).to_multiset().count(id)
}

/// A well-formed tree whose root is node 0 with children 1 and 2, the
/// shape every static tree has.
pub open spec fn tree_ok(tree: TreeView) -> bool {
    &&& well_formed_tree(tree.root, tree.nodes)
    &&& tree.root.id == 0
    &&& tree.root.children == Some((1u32, 2u32))
}

/// Node `x` is in the table and its parent has been expanded.
pub open spec fn parent_expanded(s: SchedulerView, x: u32) -> bool {
    match lookup(s.tree.nodes, x) {
        Some(n) => match n.parent {
            Some(p) => s.expanded.contains(p),
            None => false,
        },
        None => false,
    }
}

/// Every node other than the root is held at most once, and only once its
/// parent has been expanded.
pub open spec fn single_copies(s: SchedulerView) -> bool {
    forall|x: u32|
        x != 0 ==> {
            &&& #[trigger] copies(s, x) <= 1
            &&& (copies(s, x) == 1 ==> parent_expanded(s, x))
        }
}

proof fn lemma_lookup_member(nodes: Seq<Node>, id: u32)
    requires
        lookup(nodes, id) is Some,
    ensures
        lookup(nodes, id)->0.id == id,
        exists|k: int| 0 <= k < nodes.len() && nodes[k] == lookup(nodes, id)->0,
    decreases nodes.len(),
{
    if nodes[0].id != id {
        let rest = nodes.drop_first();
        lemma_lookup_member(rest, id);
        let k = choose|k: int| 0 <= k < rest.len() && rest[k] == lookup(rest, id)->0;
        assert(nodes[k + 1] == rest[k]);
    } else {
        assert(nodes[0] == lookup(nodes, id)->0);
    }
}

/// In a well-formed tree the two children of a node are distinct table
/// entries whose parent is that node.
proof fn lemma_children_facts(tree: TreeView, c: u32)
    requires
        tree_ok(tree),
        children_of(tree.nodes, c) is Some,
    ensures
        ({
            let (l, r) = children_of(tree.nodes, c)->0;
            &&& l != r
            &&& lookup(tree.nodes, l) matches Some(m) && m.id == l && m.parent == Some(c)
            &&& lookup(tree.nodes, r) matches Some(m) && m.id == r && m.parent == Some(c)
        }),
{
    let all = seq![tree.root] + tree.nodes;
    let (l, r) = children_of(tree.nodes, c)->0;
    if c == 0 {
        assert(all[0] == tree.root);
        assert(all[0].children is Some);
    } else {
        lemma_lookup_member(tree.nodes, c);
        let nc = lookup(tree.nodes, c)->0;
        let k = choose|k: int| 0 <= k < tree.nodes.len() && tree.nodes[k] == nc;
        assert(all[k + 1] == nc);
        assert(all[k + 1].children is Some);
    }
    lemma_lookup_member(tree.nodes, l);
    lemma_lookup_member(tree.nodes, r);
}

/// The node ids pushed when node `c` is expanded: its two children, once
/// each.
proof fn lemma_child_ids(tree: TreeView, c: u32, t: u128, left_first: bool)
    requires
        tree_ok(tree),
        children_of(tree.nodes, c) is Some,
    ensures
        ({
            let (l, r) = children_of(tree.nodes, c)->0;
            forall|x: u32|
                #[trigger] node_ids(child_actions(tree.nodes, c, t, left_first)).to_multiset().count(x)
                    == (if x == l {
                    1nat
                } else {
                    0nat
                }) + (if x == r {
                    1nat
                } else {
                    0nat
                })
        }),
{
    broadcast use vstd::seq_lib::group_to_multiset_ensures;

    lemma_children_facts(tree, c);
    let (l, r) = children_of(tree.nodes, c)->0;
    let ids = node_ids(child_actions(tree.nodes, c, t, left_first));
    if left_first {
        assert(ids =~= Seq::<u32>::empty().push(l).push(r));
    } else {
        assert(ids =~= Seq::<u32>::empty().push(r).push(l));
    }
}

/// One step keeps every node other than the root held at most once.
pub proof fn lemma_step_single_copies(s: SchedulerView, current_time: u128, left_first: bool)
    requires
        tree_ok(s.tree),
        single_copies(s),
    ensures
        single_copies(advance_spec(s, current_time, left_first)),
{
    broadcast use vstd::seq_lib::group_to_multiset_ensures;

    let cur = s.current;
    let expand = expands(s, cur.node_id);
    let cs = child_actions(s.tree.nodes, cur.node_id, current_time, left_first);
    let q1 = if expand {
        s.queue + cs
    } else {
        s.queue
    };
    let done = BehaviorAction { last_performed: current_time, ..cur };
    let q1p = q1.push(done);
    let n = advance_spec(s, current_time, left_first);
    lemma_earliest_index_in_range(q1p);
    let i = earliest_index(q1p);
    assert(n.queue == q1p.remove(i));
    assert(n.current == q1p[i]);
    assert(node_ids(n.queue.push(n.current)) =~= node_ids(q1p).remove(i).push(node_ids(q1p)[i]));
    assert(node_ids(q1p).remove(i).to_multiset() == node_ids(q1p).to_multiset().remove(
        node_ids(q1p)[i],
    ));
    assert(node_ids(n.queue.push(n.current)).to_multiset() =~= node_ids(q1p).to_multiset());
    assert(node_ids(s.queue.push(cur)) =~= node_ids(s.queue).push(cur.node_id));
    if expand {
        assert(node_ids(q1p) =~= (node_ids(s.queue) + node_ids(cs)).push(cur.node_id));
        vstd::seq_lib::lemma_multiset_commutative(node_ids(s.queue), node_ids(cs));
        lemma_child_ids(s.tree, cur.node_id, current_time, left_first);
        lemma_children_facts(s.tree, cur.node_id);
    } else {
        assert(node_ids(q1p) =~= node_ids(s.queue).push(cur.node_id));
    }
    assert forall|x: u32| x != 0 implies {
        &&& #[trigger] copies(n, x) <= 1
        &&& (copies(n, x) == 1 ==> parent_expanded(n, x))
    } by {
        assert(copies(s, x) <= 1);
        if expand {
            let (l, r) = children_of(s.tree.nodes, cur.node_id)->0;
            if x == l || x == r {
                if copies(s, x) == 1 {
                    assert(s.expanded.contains(cur.node_id));
                }
                assert(n.expanded.last() == cur.node_id);
            } else if copies(s, x) == 1 {
                let p = lookup(s.tree.nodes, x)->0.parent->0;
                let j = choose|j: int| 0 <= j < s.expanded.len() && s.expanded[j] == p;
                assert(n.expanded[j] == p);
            }
        }
    }
}

/// Right after construction every node other than the root is held at
/// most once.
pub proof fn lemma_initial_single_copies(tree: TreeView, left_first: bool)
    requires
        tree_ok(tree),
    ensures
        single_copies(initial_scheduler(tree, left_first)),
{
    broadcast use vstd::seq_lib::group_to_multiset_ensures;

    let s = initial_scheduler(tree, left_first);
    let root = s.current;
    let cs = child_actions(tree.nodes, 0, 0, left_first);
    lemma_child_ids(tree, 0, 0, left_first);
    lemma_children_facts(tree, 0);
    assert(node_ids(s.queue.push(root)) =~= (seq![0u32] + node_ids(cs)).push(0u32));
    vstd::seq_lib::lemma_multiset_commutative(seq![0u32], node_ids(cs));
    assert(seq![0u32] =~= Seq::<u32>::empty().push(0u32));
    assert(s.expanded[0] == 0u32);
}

/// Over any run of steps from construction, every node other than the root
/// is held at most once: its children were queued only once.
pub proof fn lemma_run_single_copies(tree: TreeView, left_first: bool, steps: Seq<(u128, bool)>)
    requires
        tree_ok(tree),
    ensures
        forall|x: u32| x != 0 ==> #[trigger] copies(run(initial_scheduler(tree, left_first), steps), x) <= 1,
{
    lemma_initial_single_copies(tree, left_first);
    lemma_run_keeps_single_copies(initial_scheduler(tree, left_first), steps);
}

proof fn lemma_run_keeps_single_copies(s: SchedulerView, steps: Seq<(u128, bool)>)
    requires
        tree_ok(s.tree),
        single_copies(s),
    ensures
        single_copies(run(s, steps)),
    decreases steps.len(),
{
    if steps.len() > 0 {
        lemma_step_single_copies(s, steps[0].0, steps[0].1);
        lemma_run_keeps_single_copies(advance_spec(s, steps[0].0, steps[0].1), steps.drop_first());
    }
}

/// The scheduling state of one enemy: its tree, the current action, the
/// queue of the others, and the nodes whose children have been queued.
pub struct ActionScheduler {
    tree: BehaviorTree,
    current_action: BehaviorAction,
    action_queue: ActionQueue,
    expanded: Vec<u32>,
}

impl View for ActionScheduler {
    type V = SchedulerView;

    closed spec fn view(&self) -> SchedulerView {
        SchedulerView {
            tree: self.tree@,
            current: self.current_action,
            queue: self.action_queue@,
            expanded: self.expanded@,
        }
    }
}

impl ActionScheduler {
    /// Seeds the queue with the root and its children, in the order that
    /// `left_first` picks.
    pub fn with_order(tree: BehaviorTree, left_first: bool) -> (r: ActionScheduler)
        ensures
            r@ == initial_scheduler(tree@, left_first),
    {
        let root = tree.get_root();
        let current_action = BehaviorAction {
            behavior: root.name,
            node_id: root.id,
            last_performed: 0,
        };
        let mut action_queue = ActionQueue::new();
        action_queue.push(current_action);
        let children = child_actions_in_order(&tree, &current_action, 0, left_first);
        let mut i: usize = 0;
        while i < children.len()
            invariant
                i <= children@.len(),
                action_queue@ == seq![current_action] + children@.subrange(0, i as int),
            decreases children@.len() - i,
        {
            action_queue.push(children[i]);
            assert(children@.subrange(0, i + 1) =~= children@.subrange(0, i as int).push(
                children@[i as int],
            ));
            i += 1;
        }
        assert(children@.subrange(0, children@.len() as int) =~= children@);
        let mut expanded: Vec<u32> = Vec::new();
        expanded.push(current_action.node_id);
        assert(expanded@ =~= seq![current_action.node_id]);
        ActionScheduler { tree, current_action, action_queue, expanded }
    }

    /// Seeds the queue with the root and its children, in an order picked
    /// by a fair coin.
    pub fn new(tree: BehaviorTree) -> (r: ActionScheduler)
        ensures
            r@ == initial_scheduler(tree@, true) || r@ == initial_scheduler(tree@, false),
    {
        let left_first = coin_flip();
        ActionScheduler::with_order(tree, left_first)
    }

    pub fn current_action(&self) -> (r: BehaviorAction)
        ensures
            r == self@.current,
    {
        self.current_action
    }

    /// How many actions wait in the queue besides the current one.
    pub fn queued(&self) -> (r: usize)
        ensures
            r == self@.queue.len(),
    {
        self.action_queue.len()
    }

    /// Whether the current action has been current for `DWELL_MS` by
    /// `current_time`.
    pub fn is_due(&self, current_time: u128) -> (r: bool)
        ensures
            r == is_due(self@.current, current_time),
    {
        current_time >= self.current_action.last_performed && current_time
            - self.current_action.last_performed >= DWELL_MS
    }

    fn was_expanded(&self, id: u32) -> (r: bool)
        ensures
            r == self@.expanded.contains(id),
    {
        let mut i: usize = 0;
        while i < self.expanded.len()
            invariant
                i <= self.expanded@.len(),
                forall|j: int| 0 <= j < i ==> self.expanded@[j] != id,
            decreases self.expanded@.len() - i,
        {
            if self.expanded[i] == id {
                return true;
            }
            i += 1;
        }
        false
    }

    /// One step at `current_time`, once the current action has been
    /// performed; children are pushed in the order `left_first` picks.
    pub fn advance(&mut self, current_time: u128, left_first: bool)
        ensures
            final(self)@ == advance_spec(old(self)@, current_time, left_first),
    {
        let ghost s = self@;
        let cur = self.current_action;
        let ghost expand = expands(s, cur.node_id);
        let ghost q1 = if expand {
            s.queue + child_actions(s.tree.nodes, cur.node_id, current_time, left_first)
        } else {
            s.queue
        };
        let ghost e1 = if expand {
            s.expanded.push(cur.node_id)
        } else {
            s.expanded
        };
        let has_children = self.tree.get_node_children(cur.node_id).is_some();
        if has_children && !self.was_expanded(cur.node_id) {
            let children = child_actions_in_order(&self.tree, &cur, current_time, left_first);
            let mut i: usize = 0;
            while i < children.len()
                invariant
                    i <= children@.len(),
                    self.action_queue@ == s.queue + children@.subrange(0, i as int),
                    self.expanded@ == s.expanded,
                    self.tree@ == s.tree,
                    self.current_action == cur,
                decreases children@.len() - i,
            {
                self.action_queue.push(children[i]);
                assert(children@.subrange(0, i + 1) =~= children@.subrange(0, i as int).push(
                    children@[i as int],
                ));
                i += 1;
            }
            assert(children@.subrange(0, children@.len() as int) =~= children@);
            self.expanded.push(cur.node_id);
        }
        assert(self.action_queue@ == q1);
        assert(self.expanded@ == e1);
        let done = BehaviorAction { last_performed: current_time, ..cur };
        self.action_queue.push(done);
        self.current_action = self.action_queue.pop_or_idle(current_time);
        assert(self@.tree == s.tree);
    }
}

} // verus!
