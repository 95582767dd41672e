use vstd::prelude::*;

use crate::capability::{distance, semantic_distance, types_compatible, Capability};
use crate::models::Agent;

verus! {

/// Fixed cost of running one more agent, so that longer pipelines cost more.
pub const STEP_COST: u64 = 1;

/// Best-first search over the agent catalog.
pub struct AStarPlanner;

/// A planned sequence of agents and its total cost.
#[derive(Clone, Debug, PartialEq, Eq)]
pub struct PlannedPipeline {
    pub agent_ids: Vec<u128>,
    pub total_cost: u64,
}

/// Why the planner returned no pipeline.
#[derive(PartialEq, Eq, Structural, Clone, Copy, Debug)]
pub enum PlanError {
    /// The search ran out of candidates without reaching the goal.
    NoPathFound,
    /// The search hit its expansion bound before reaching the goal.
    PlanningTimeout,
}

/// Cost of moving from a producer to the consumer that follows it.
pub open spec fn step_cost(from: Capability, to: Capability) -> nat {
    distance(from, to) + STEP_COST as nat
}

/// The capability whose output feeds position `i` of `path`.
pub open spec fn feeder(agents: Seq<Agent>, start: Capability, path: Seq<usize>, i: int) -> Capability {
    if i == 0 {
        start
    } else {
        agents[path[i - 1] as int].capabilities
    }
}

/// `path` is a non-empty sequence of catalog positions whose types line up from `start`.
pub open spec fn is_chain(agents: Seq<Agent>, start: Capability, path: Seq<usize>) -> bool {
    &&& path.len() > 0
    &&& forall|i: int| 0 <= i < path.len() ==> #[trigger] path[i] < agents.len()
    &&& forall|i: int|
        0 <= i < path.len() ==> types_compatible(
            feeder(agents, start, path, i),
            agents[#[trigger] path[i] as int].capabilities,
        )
}

/// Sum of the step costs along `path`, starting from `start`.
pub open spec fn chain_cost(agents: Seq<Agent>, start: Capability, path: Seq<usize>) -> nat
    decreases path.len(),
{
    if path.len() == 0 {
        0
    } else {
        chain_cost(agents, start, path.drop_last()) + step_cost(
            feeder(agents, start, path, path.len() - 1),
            agents[path.last() as int].capabilities,
        )
    }
}

/// A capability that meets the goal exactly.
pub open spec fn meets_goal(cap: Capability, goal: Capability) -> bool {
    distance(cap, goal) == 0
}

/// The agent ids along `path`.
pub open spec fn ids_of(agents: Seq<Agent>, path: Seq<usize>) -> Seq<u128> {
    path.map_values(|i: usize| agents[i as int].id)
}

/// `p` is the pipeline that follows `path` from `start` to `goal`.
pub open spec fn is_plan_for(
    agents: Seq<Agent>,
    start: Capability,
    goal: Capability,
    p: PlannedPipeline,
    path: Seq<usize>,
) -> bool {
    &&& is_chain(agents, start, path)
    &&& meets_goal(agents[path.last() as int].capabilities, goal)
    &&& p.agent_ids@ == ids_of(agents, path)
    &&& p.total_cost == chain_cost(agents, start, path)
}

/// `p` is some pipeline from `start` to `goal` over the catalog.
pub open spec fn is_valid_plan(
    agents: Seq<Agent>,
    start: Capability,
    goal: Capability,
    p: PlannedPipeline,
) -> bool {
    exists|path: Seq<usize>| is_plan_for(agents, start, goal, p, path)
}

/// Costs strictly increase along the list.
pub open spec fn strictly_ascending(ps: Seq<PlannedPipeline>) -> bool {
    forall|i: int, j: int| 0 <= i < j < ps.len() ==> ps[i].total_cost < ps[j].total_cost
}

/// Some chain of agents from `start` ends in an agent that meets the goal.
pub open spec fn goal_reachable(agents: Seq<Agent>, start: Capability, goal: Capability) -> bool {
    exists|path: Seq<usize>| is_chain(agents, start, path) && meets_goal(agents[path.last() as int].capabilities, goal)
}

/// Some agent of the catalog meets the goal.
pub open spec fn some_agent_meets_goal(agents: Seq<Agent>, goal: Capability) -> bool {
    exists|a: int| 0 <= a < agents.len() && meets_goal(agents[a].capabilities, goal)
}

/// Some agent takes the start capability as it is and meets the goal.
pub open spec fn some_agent_goes_directly(agents: Seq<Agent>, start: Capability, goal: Capability) -> bool {
    exists|a: int| 0 <= a < agents.len() && distance(start, agents[a].capabilities) == 0
        && meets_goal(agents[a].capabilities, goal)
}

/// Some agent of the catalog accepts the start capability's type.
pub open spec fn some_agent_accepts_start(agents: Seq<Agent>, start: Capability) -> bool {
    exists|a: int| 0 <= a < agents.len() && types_compatible(start, agents[a].capabilities)
}

/// Cost only grows along a path: each agent past a prefix adds at least the
/// fixed step cost.
pub proof fn lemma_cost_grows_along_path(agents: Seq<Agent>, start: Capability, path: Seq<usize>, i: int)
    requires
        0 <= i <= path.len(),
    ensures
        chain_cost(agents, start, path.subrange(0, i)) + (path.len() - i) * STEP_COST <= chain_cost(
            agents,
            start,
            path,
        ),
    decreases path.len(),
{
    if i < path.len() {
        lemma_cost_grows_along_path(agents, start, path.drop_last(), i);
        assert(path.drop_last().subrange(0, i) =~= path.subrange(0, i));
    } else {
        assert(path.subrange(0, i) =~= path);
    }
}

proof fn lemma_single(agents: Seq<Agent>, start: Capability, a: usize)
    requires
        a < agents.len(),
        types_compatible(start, agents[a as int].capabilities),
    ensures
        is_chain(agents, start, seq![a]),
        chain_cost(agents, start, seq![a]) == step_cost(start, agents[a as int].capabilities),
{
    assert(seq![a].drop_last() =~= Seq::<usize>::empty());
    assert(chain_cost(agents, start, Seq::<usize>::empty()) == 0);
}

proof fn lemma_extend(agents: Seq<Agent>, start: Capability, path: Seq<usize>, b: usize)
    requires
        is_chain(agents, start, path),
        b < agents.len(),
        types_compatible(agents[path.last() as int].capabilities, agents[b as int].capabilities),
    ensures
        is_chain(agents, start, path.push(b)),
        chain_cost(agents, start, path.push(b)) == chain_cost(agents, start, path) + step_cost(
            agents[path.last() as int].capabilities,
            agents[b as int].capabilities,
        ),
{
    let q = path.push(b);
    assert(q.drop_last() =~= path);
    assert forall|i: int| 0 <= i < q.len() implies #[trigger] q[i] < agents.len() by {
        if i < path.len() {
            assert(q[i] == path[i]);
        }
    }
    assert forall|i: int| 0 <= i < q.len() implies types_compatible(
        feeder(agents, start, q, i),
        agents[#[trigger] q[i] as int].capabilities,
    ) by {
        if i < path.len() {
            assert(q[i] == path[i]);
            assert(feeder(agents, start, q, i) == feeder(agents, start, path, i));
        }
    }
}

struct SearchNode {
    path: Vec<usize>,
    g: u64,
    h: u64,
}

spec fn node_ok(agents: Seq<Agent>, start: Capability, goal: Capability, n: SearchNode, bound: nat) -> bool {
    &&& is_chain(agents, start, n.path@)
    &&& n.g == chain_cost(agents, start, n.path@)
    &&& n.h == distance(agents[n.path@.last() as int].capabilities, goal)
    &&& n.path@.len() <= bound
    // A single step costs at most 111: both penalties and the step cost.
    &&& n.g <= 111 * n.path@.len()
    &&& n.h <= 110
}

fn extend_path(path: &Vec<usize>, b: usize) -> (r: Vec<usize>)
    ensures
        r@ == path@.push(b),
{
    let mut r: Vec<usize> = Vec::new();
    let mut i: usize = 0;
    while i < path.len()
        invariant
            i <= path@.len(),
            r@ == path@.subrange(0, i as int),
        decreases path@.len() - i,
    {
        r.push(path[i]);
        i += 1;
    }
    assert(path@.subrange(0, path@.len() as int) =~= path@);
    r.push(b);
    r
}

fn path_ids(agents: &Vec<Agent>, path: &Vec<usize>) -> (r: Vec<u128>)
    requires
        forall|i: int| 0 <= i < path@.len() ==> #[trigger] path@[i] < agents@.len(),
    ensures
        r@ == ids_of(agents@, path@),
{
    let mut r: Vec<u128> = Vec::new();
    let mut i: usize = 0;
    while i < path.len()
        invariant
            i <= path@.len(),
            forall|j: int| 0 <= j < path@.len() ==> #[trigger] path@[j] < agents@.len(),
            r@ =~= ids_of(agents@, path@.subrange(0, i as int)),
        decreases path@.len() - i,
    {
        r.push(agents[path[i]].id);
        i += 1;
        assert(r@ =~= ids_of(agents@, path@.subrange(0, i as int)));
    }
    assert(path@.subrange(0, path@.len() as int) =~= path@);
    r
}

/// `a` comes no later than `b` in the search order: smaller `g + h` first,
/// then smaller `g`, then smaller id of the last agent.
spec fn comes_first(agents: Seq<Agent>, a: SearchNode, b: SearchNode) -> bool {
    let fa = a.g + a.h;
    let fb = b.g + b.h;
    let ia = agents[a.path@.last() as int].id;
    let ib = agents[b.path@.last() as int].id;
    fa < fb || (fa == fb && (a.g < b.g || (a.g == b.g && ia <= ib)))
}

/// The node that the search takes next: smallest `g + h`, then smallest `g`,
/// then smallest agent id.
fn select_next(agents: &Vec<Agent>, frontier: &Vec<SearchNode>) -> (idx: usize)
    requires
        frontier@.len() > 0,
        forall|j: int| 0 <= j < frontier@.len() ==> {
            &&& #[trigger] frontier@[j].g <= 0x100_0000_0000
            &&& frontier@[j].h <= 110
            &&& frontier@[j].path@.len() > 0
            &&& frontier@[j].path@.last() < agents@.len()
        },
    ensures
        idx < frontier@.len(),
        forall|j: int| 0 <= j < frontier@.len() ==> comes_first(agents@, frontier@[idx as int], #[trigger] frontier@[j]),
{
    let mut best: usize = 0;
    let mut j: usize = 1;
    while j < frontier.len()
        invariant
            1 <= j <= frontier@.len(),
            best < frontier@.len(),
            forall|jj: int| 0 <= jj < frontier@.len() ==> {
                &&& #[trigger] frontier@[jj].g <= 0x100_0000_0000
                &&& frontier@[jj].h <= 110
                &&& frontier@[jj].path@.len() > 0
                &&& frontier@[jj].path@.last() < agents@.len()
            },
            forall|jj: int| 0 <= jj < j ==> comes_first(agents@, frontier@[best as int], #[trigger] frontier@[jj]),
        decreases frontier@.len() - j,
    {
        let c = &frontier[j];
        let b = &frontier[best];
        let cf = c.g + c.h;
        let bf = b.g + b.h;
        let cid = agents[c.path[c.path.len() - 1]].id;
        let bid = agents[b.path[b.path.len() - 1]].id;
        proof {
            assert(c.path@.last() == c.path@[c.path@.len() - 1]);
            assert(b.path@.last() == b.path@[b.path@.len() - 1]);
        }
        if cf < bf || (cf == bf && (c.g < b.g || (c.g == b.g && cid < bid))) {
            best = j;
        }
        j += 1;
    }
    best
}

fn same_ids(a: &Vec<u128>, b: &Vec<u128>) -> (r: bool)
    ensures
        r == (a@ == b@),
{
    if a.len() != b.len() {
        return false;
    }
    let mut i: usize = 0;
    while i < a.len()
        invariant
            a@.len() == b@.len(),
            i <= a@.len(),
            forall|j: int| 0 <= j < i ==> a@[j] == b@[j],
        decreases a@.len() - i,
    {
        if a[i] != b[i] {
            return false;
        }
        i += 1;
    }
    assert(a@ =~= b@);
    true
}

/// No two pipelines of the list follow the same agent-id sequence.
pub open spec fn distinct_sequences(ps: Seq<PlannedPipeline>) -> bool {
    forall|i: int, j: int| 0 <= i < ps.len() && 0 <= j < ps.len() && i != j ==> ps[i].agent_ids@ != ps[j].agent_ids@
}

/// Inserts `p` at its place by cost, unless a pipeline of the same cost or of
/// the same agent sequence is already there.
fn insert_by_cost(found: &mut Vec<PlannedPipeline>, p: PlannedPipeline)
    requires
        strictly_ascending(old(found)@),
        distinct_sequences(old(found)@),
    ensures
        strictly_ascending(final(found)@),
        distinct_sequences(final(found)@),
        final(found)@.len() <= old(found)@.len() + 1,
        final(found)@.len() >= 1,
        final(found)@.len() >= old(found)@.len(),
        forall|j: int| 0 <= j < final(found)@.len() ==> #[trigger] final(found)@[j] == p
            || exists|i: int| 0 <= i < old(found)@.len() && final(found)@[j] == old(found)@[i],
{
    let len = found.len();
    let mut q: usize = 0;
    while q < len
        invariant
            len == found@.len(),
            q <= len,
            forall|j: int| 0 <= j < q ==> #[trigger] found@[j].agent_ids@ != p.agent_ids@,
            strictly_ascending(found@),
            distinct_sequences(found@),
        decreases len - q,
    {
        if same_ids(&found[q].agent_ids, &p.agent_ids) {
            return;
        }
        q += 1;
    }
    let mut pos: usize = 0;
    while pos < len && found[pos].total_cost < p.total_cost
        invariant
            len == found@.len(),
            pos <= len,
            forall|j: int| 0 <= j < pos ==> #[trigger] found@[j].total_cost < p.total_cost,
        decreases len - pos,
    {
        pos += 1;
    }
    if pos < len && found[pos].total_cost == p.total_cost {
        return;
    }
    let ghost old_found = found@;
    let ghost g = p.total_cost;
    let ghost pp = p;
    found.insert(pos, p);
    proof {
        assert(found@ == old_found.insert(pos as int, pp));
        assert forall|j: int| 0 <= j < found@.len() implies #[trigger] found@[j] == pp
            || exists|i: int| 0 <= i < old_found.len() && found@[j] == old_found[i] by {
            if j < pos {
                assert(found@[j] == old_found[j]);
            } else if j > pos {
                assert(found@[j] == old_found[j - 1]);
            }
        }
        assert forall|i: int, j: int| 0 <= i < found@.len() && 0 <= j < found@.len() && i != j implies
            found@[i].agent_ids@ != found@[j].agent_ids@ by {
            if i != pos {
                if i < pos {
                    assert(found@[i] == old_found[i]);
                } else {
                    assert(found@[i] == old_found[i - 1]);
                }
            }
            if j != pos {
                if j < pos {
                    assert(found@[j] == old_found[j]);
                } else {
                    assert(found@[j] == old_found[j - 1]);
                }
            }
        }
        assert forall|i: int, j: int| 0 <= i < j < found@.len() implies
            found@[i].total_cost < found@[j].total_cost by {
            if pos < len {
                assert(old_found[pos as int].total_cost > g);
            }
            if j < pos {
                assert(found@[i] == old_found[i]);
                assert(found@[j] == old_found[j]);
            } else if j == pos {
                assert(found@[i] == old_found[i]);
            } else if i == pos {
                assert(found@[j] == old_found[j - 1]);
                if j - 1 > pos {
                    assert(old_found[pos as int].total_cost < old_found[j - 1].total_cost);
                }
            } else if i < pos {
                assert(found@[i] == old_found[i]);
                assert(found@[j] == old_found[j - 1]);
            } else {
                assert(found@[i] == old_found[i - 1]);
                assert(found@[j] == old_found[j - 1]);
            }
        }
    }
}

/// Some node of the frontier ends at catalog position `b`.
spec fn in_frontier(frontier: Seq<SearchNode>, b: usize) -> bool {
    exists|j: int| 0 <= j < frontier.len() && #[trigger] frontier[j].path@.last() == b
}

/// Agent `e` does not meet the goal, and every agent that can follow it has
/// been reached.
spec fn closed(agents: Seq<Agent>, goal: Capability, seen: Seq<Option<u64>>, e: usize) -> bool {
    &&& e < agents.len()
    &&& !meets_goal(agents[e as int].capabilities, goal)
    &&& forall|b: int| 0 <= b < agents.len() && types_compatible(agents[e as int].capabilities, agents[b].capabilities)
        ==> #[trigger] seen[b] is Some
}

/// Every position reached in `old` is still reached in `new`.
spec fn reached_grows(old: Seq<Option<u64>>, new: Seq<Option<u64>>) -> bool {
    &&& old.len() == new.len()
    &&& forall|b: int| 0 <= b < old.len() && #[trigger] old[b] is Some ==> new[b] is Some
}

proof fn lemma_closed_grows(agents: Seq<Agent>, goal: Capability, old: Seq<Option<u64>>, new: Seq<Option<u64>>, e: usize)
    requires
        closed(agents, goal, old, e),
        reached_grows(old, new),
        old.len() == agents.len(),
    ensures
        closed(agents, goal, new, e),
{
    assert forall|b: int| 0 <= b < agents.len() && types_compatible(agents[e as int].capabilities, agents[b].capabilities)
        implies #[trigger] new[b] is Some by {
        assert(old[b] is Some);
    }
}

proof fn lemma_in_frontier_push(old: Seq<SearchNode>, n: SearchNode, x: usize)
    requires
        in_frontier(old, x),
    ensures
        in_frontier(old.push(n), x),
{
    let j = choose|j: int| 0 <= j < old.len() && #[trigger] old[j].path@.last() == x;
    assert(old.push(n)[j] == old[j]);
}

proof fn lemma_in_frontier_remove(before: Seq<SearchNode>, idx: int, x: usize)
    requires
        0 <= idx < before.len(),
        in_frontier(before, x),
        before[idx].path@.last() != x,
    ensures
        in_frontier(before.remove(idx), x),
{
    let j = choose|j: int| 0 <= j < before.len() && #[trigger] before[j].path@.last() == x;
    if j < idx {
        assert(before.remove(idx)[j] == before[j]);
    } else {
        assert(before.remove(idx)[j - 1] == before[j]);
    }
}

proof fn lemma_reached_along_chain(
    agents: Seq<Agent>,
    start: Capability,
    goal: Capability,
    seen: Seq<Option<u64>>,
    expanded: Set<usize>,
    path: Seq<usize>,
    i: int,
)
    requires
        seen.len() == agents.len(),
        forall|b: int| 0 <= b < agents.len() && types_compatible(start, agents[b].capabilities) ==> #[trigger] seen[b] is Some,
        forall|b: int| 0 <= b < agents.len() && #[trigger] seen[b] is Some ==> expanded.contains(b as usize),
        forall|e: usize| expanded.contains(e) ==> closed(agents, goal, seen, e),
        is_chain(agents, start, path),
        0 <= i < path.len(),
    ensures
        seen[path[i] as int] is Some,
    decreases i,
{
    assert(path[i] < agents.len());
    assert(types_compatible(feeder(agents, start, path, i), agents[path[i] as int].capabilities));
    if i > 0 {
        lemma_reached_along_chain(agents, start, goal, seen, expanded, path, i - 1);
        assert(path[i - 1] < agents.len());
        assert(expanded.contains(path[i - 1]));
        assert(closed(agents, goal, seen, path[i - 1]));
    }
}

proof fn lemma_unreachable_when_closed(
    agents: Seq<Agent>,
    start: Capability,
    goal: Capability,
    seen: Seq<Option<u64>>,
    expanded: Set<usize>,
)
    requires
        seen.len() == agents.len(),
        forall|b: int| 0 <= b < agents.len() && types_compatible(start, agents[b].capabilities) ==> #[trigger] seen[b] is Some,
        forall|b: int| 0 <= b < agents.len() && #[trigger] seen[b] is Some ==> expanded.contains(b as usize),
        forall|e: usize| expanded.contains(e) ==> closed(agents, goal, seen, e),
    ensures
        !goal_reachable(agents, start, goal),
{
    assert forall|path: Seq<usize>| is_chain(agents, start, path) implies !meets_goal(
        agents[path.last() as int].capabilities,
        goal,
    ) by {
        lemma_reached_along_chain(agents, start, goal, seen, expanded, path, path.len() - 1);
        assert(path[path.len() - 1] < agents.len());
        assert(expanded.contains(path.last()));
    }
}

proof fn lemma_cost_fits(g: u64, len: nat)
    requires
        g <= 111 * len,
        len <= 0x1_0000_0000,
    ensures
        g <= 0x100_0000_0000,
{
}

impl AStarPlanner {
    /// Searches the catalog for up to `k` pipelines that turn `start` into `goal`,
    /// expanding at most `max_expansions` nodes, and reports how many nodes it
    /// expanded.
    ///
    /// The frontier is ordered by `g + h`, where `g` is the cost so far and `h`
    /// the distance from the node's capability to the goal. A node's successors
    /// are the agents whose input type matches its output type; a successor is
    /// kept only if it improves the best cost seen for that agent, which bounds
    /// the work on cyclic catalogs. A node that meets the goal exactly ends a
    /// pipeline; pipelines are kept sorted by cost, with no two of equal cost or
    /// of the same agent sequence. The search
    /// stops with `k` pipelines, an empty frontier or the expansion bound;
    /// without any pipeline it reports `PlanningTimeout` in the last case and
    /// `NoPathFound` otherwise.
    pub fn find_pipelines_counted(
        agents: &Vec<Agent>,
        start: &Capability,
        goal: &Capability,
        k: u32,
        max_expansions: u32,
    ) -> (out: (Result<Vec<PlannedPipeline>, PlanError>, u32))
        requires
            k >= 1,
        ensures
            out.1 <= max_expansions,
            out.0 == Err::<Vec<PlannedPipeline>, PlanError>(PlanError::PlanningTimeout) ==> out.1 == max_expansions,
            goal_reachable(agents@, *start, *goal) ==> out.0 is Ok || (out.0 == Err::<Vec<PlannedPipeline>, PlanError>(
                PlanError::PlanningTimeout,
            ) && out.1 == max_expansions),
            out.0 is Ok ==> {
                let ps = out.0->Ok_0@;
                &&& 1 <= ps.len() <= k
                &&& forall|i: int| 0 <= i < ps.len() ==> is_valid_plan(agents@, *start, *goal, #[trigger] ps[i])
                &&& strictly_ascending(ps)
                &&& distinct_sequences(ps)
            },
            !some_agent_meets_goal(agents@, *goal) ==> out.0 == Err::<Vec<PlannedPipeline>, PlanError>(PlanError::NoPathFound),
            !some_agent_accepts_start(agents@, *start) ==> out.0 == Err::<Vec<PlannedPipeline>, PlanError>(PlanError::NoPathFound),
            max_expansions >= 1 && some_agent_goes_directly(agents@, *start, *goal) ==> out.0 is Ok,
            out.0 == Err::<Vec<PlannedPipeline>, PlanError>(PlanError::NoPathFound) ==> !goal_reachable(agents@, *start, *goal),
            out.0 == Err::<Vec<PlannedPipeline>, PlanError>(PlanError::PlanningTimeout) ==> some_agent_meets_goal(
                agents@,
                *goal,
            ) && some_agent_accepts_start(agents@, *start),
            max_expansions == 0 && some_agent_meets_goal(agents@, *goal) && some_agent_accepts_start(agents@, *start)
                ==> out.0 == Err::<Vec<PlannedPipeline>, PlanError>(PlanError::PlanningTimeout),
    {
        let n = agents.len();
        let mut any_goal = false;
        let mut any_start = false;
        let mut i: usize = 0;
        while i < n
            invariant
                n == agents@.len(),
                i <= n,
                any_goal == exists|a: int| 0 <= a < i && meets_goal(agents@[a].capabilities, *goal),
                any_start == exists|a: int| 0 <= a < i && types_compatible(*start, agents@[a].capabilities),
            decreases n - i,
        {
            if semantic_distance(&agents[i].capabilities, goal) == 0 {
                any_goal = true;
            }
            if start.output_type == agents[i].capabilities.input_type {
                any_start = true;
            }
            i += 1;
        }
        if !any_goal || !any_start {
            proof {
                assert forall|path: Seq<usize>| is_chain(agents@, *start, path) implies !meets_goal(
                    agents@[path.last() as int].capabilities,
                    *goal,
                ) by {
                    assert(path[path.len() - 1] < agents@.len());
                    assert(path[0] < agents@.len());
                    assert(types_compatible(feeder(agents@, *start, path, 0), agents@[path[0] as int].capabilities));
                }
            }
            return (Err(PlanError::NoPathFound), 0);
        }
        // Best cost seen so far for reaching each catalog position.
        let mut best_g: Vec<Option<u64>> = Vec::new();
        let mut frontier: Vec<SearchNode> = Vec::new();
        let mut i: usize = 0;
        while i < n
            invariant
                n == agents@.len(),
                i <= n,
                best_g@.len() == i,
                forall|j: int| 0 <= j < frontier@.len() ==> node_ok(agents@, *start, *goal, #[trigger] frontier@[j], 1),
                (exists|a: int| 0 <= a < i && types_compatible(*start, agents@[a].capabilities)) ==> frontier@.len() > 0,
                forall|b: int| 0 <= b < i && types_compatible(*start, agents@[b].capabilities) ==> #[trigger] best_g@[b] is Some,
                forall|b: int| 0 <= b < i && #[trigger] best_g@[b] is Some ==> in_frontier(frontier@, b as usize),
                (exists|a: int| 0 <= a < i && distance(*start, agents@[a].capabilities) == 0
                    && meets_goal(agents@[a].capabilities, *goal)) ==> exists|j: int|
                    0 <= j < frontier@.len() && #[trigger] frontier@[j].g + frontier@[j].h <= 1,
            decreases n - i,
        {
            if start.output_type == agents[i].capabilities.input_type {
                let g = semantic_distance(start, &agents[i].capabilities) + STEP_COST;
                let h = semantic_distance(&agents[i].capabilities, goal);
                let path: Vec<usize> = vec![i];
                proof {
                    lemma_single(agents@, *start, i);
                    assert(path@ =~= seq![i]);
                }
                let ghost before = frontier@;
                frontier.push(SearchNode { path, g, h });
                proof {
                    assert forall|j: int| 0 <= j < before.len() implies #[trigger] frontier@[j] == before[j] by {}
                    if exists|j: int| 0 <= j < before.len() && #[trigger] before[j].g + before[j].h <= 1 {
                        let j = choose|j: int| 0 <= j < before.len() && #[trigger] before[j].g + before[j].h <= 1;
                        assert(frontier@[j] == before[j]);
                    }
                    if distance(*start, agents@[i as int].capabilities) == 0
                        && meets_goal(agents@[i as int].capabilities, *goal) {
                        assert(frontier@[before.len() as int].g + frontier@[before.len() as int].h <= 1);
                    }
                    assert forall|b: int| 0 <= b < i && #[trigger] best_g@[b] is Some implies in_frontier(
                        frontier@,
                        b as usize,
                    ) by {
                        lemma_in_frontier_push(before, frontier@[before.len() as int], b as usize);
                        assert(before.push(frontier@[before.len() as int]) == frontier@);
                    }
                    assert(frontier@[before.len() as int].path@.last() == i);
                }
                let ghost seen_before = best_g@;
                best_g.push(Some(g));
                proof {
                    assert forall|b: int| 0 <= b < i implies #[trigger] best_g@[b] == seen_before[b] by {}
                }
            } else {
                let ghost seen_before = best_g@;
                best_g.push(None);
                proof {
                    assert forall|b: int| 0 <= b < i implies #[trigger] best_g@[b] == seen_before[b] by {}
                }
            }
            i += 1;
        }
        let mut found: Vec<PlannedPipeline> = Vec::new();
        let mut expansions: u32 = 0;
        let mut timed_out = false;
        // Agents whose nodes were taken from the frontier and expanded.
        let ghost mut expanded: Set<usize> = Set::empty();
        while frontier.len() > 0 && found.len() < k as usize
            invariant_except_break
                !timed_out,
                max_expansions == 0 ==> frontier@.len() > 0,
            invariant
                k >= 1,
                n == agents@.len(),
                best_g@.len() == n,
                expansions <= max_expansions,
                forall|j: int| 0 <= j < frontier@.len()
                    ==> node_ok(agents@, *start, *goal, #[trigger] frontier@[j], expansions as nat + 1),
                found@.len() <= k,
                forall|j: int| 0 <= j < found@.len() ==> is_valid_plan(agents@, *start, *goal, #[trigger] found@[j]),
                strictly_ascending(found@),
                distinct_sequences(found@),
                max_expansions == 0 ==> found@.len() == 0,
                expansions == 0 ==> found@.len() == 0,
                expansions == 0 && some_agent_goes_directly(agents@, *start, *goal) ==> exists|j: int|
                    0 <= j < frontier@.len() && #[trigger] frontier@[j].g + frontier@[j].h <= 1,
                expansions > 0 && some_agent_goes_directly(agents@, *start, *goal) ==> found@.len() > 0,
                forall|b: int| 0 <= b < n && types_compatible(*start, agents@[b].capabilities) ==> #[trigger] best_g@[b] is Some,
                forall|b: int| 0 <= b < n && #[trigger] best_g@[b] is Some
                    ==> expanded.contains(b as usize) || in_frontier(frontier@, b as usize) || found@.len() > 0,
                forall|e: usize| #[trigger] expanded.contains(e) ==> closed(agents@, *goal, best_g@, e),
            ensures
                !timed_out ==> frontier@.len() == 0 || found@.len() >= k,
                timed_out ==> expansions == max_expansions,
                max_expansions == 0 ==> timed_out,
                max_expansions >= 1 && some_agent_goes_directly(agents@, *start, *goal) ==> found@.len() > 0,
            decreases max_expansions - expansions,
        {
            if expansions >= max_expansions {
                timed_out = true;
                break;
            }
            proof {
                assert forall|j: int| 0 <= j < frontier@.len() implies {
                    &&& #[trigger] frontier@[j].g <= 0x100_0000_0000
                    &&& frontier@[j].h <= 110
                    &&& frontier@[j].path@.len() > 0
                    &&& frontier@[j].path@.last() < agents@.len()
                } by {
                    assert(node_ok(agents@, *start, *goal, frontier@[j], expansions as nat + 1));
                    lemma_cost_fits(frontier@[j].g, frontier@[j].path@.len());
                    assert(frontier@[j].path@[frontier@[j].path@.len() - 1] < agents@.len());
                }
            }
            let idx = select_next(agents, &frontier);
            let ghost before = frontier@;
            let node = frontier.remove(idx);
            proof {
                if expansions == 0 && some_agent_goes_directly(agents@, *start, *goal) {
                    let w = choose|j: int| 0 <= j < before.len() && #[trigger] before[j].g + before[j].h <= 1;
                    assert(comes_first(agents@, before[idx as int], before[w]));
                    assert(node.g >= 1);
                    assert(node.h == 0);
                }
            }
            proof {
                assert(node == before[idx as int]);
                assert forall|j: int| 0 <= j < frontier@.len() implies
                    node_ok(agents@, *start, *goal, #[trigger] frontier@[j], expansions as nat + 2) by {
                    if j < idx {
                        assert(frontier@[j] == before[j]);
                    } else {
                        assert(frontier@[j] == before[j + 1]);
                    }
                }
                assert(node_ok(agents@, *start, *goal, node, expansions as nat + 1));
                assert forall|b: int| 0 <= b < n && #[trigger] best_g@[b] is Some implies expanded.contains(b as usize)
                    || in_frontier(frontier@, b as usize) || found@.len() > 0 || node.path@.last() == b by {
                    if in_frontier(before, b as usize) && node.path@.last() != b {
                        lemma_in_frontier_remove(before, idx as int, b as usize);
                    }
                }
            }
            expansions = expansions + 1;
            let last = node.path[node.path.len() - 1];
            proof {
                assert(node.path@.last() == last);
            }
            if node.h == 0 {
                let ids = path_ids(agents, &node.path);
                let p = PlannedPipeline { agent_ids: ids, total_cost: node.g };
                proof {
                    assert(node.path@.last() == last);
                    assert(is_plan_for(agents@, *start, *goal, p, node.path@));
                }
                let ghost old_found = found@;
                insert_by_cost(&mut found, p);
                proof {
                    assert forall|j: int| 0 <= j < found@.len() implies
                        is_valid_plan(agents@, *start, *goal, #[trigger] found@[j]) by {
                        if found@[j] != p {
                            let i = choose|i: int| 0 <= i < old_found.len() && found@[j] == old_found[i];
                            assert(is_valid_plan(agents@, *start, *goal, old_found[i]));
                        }
                    }
                }
            } else {
                proof {
                    expanded = expanded.insert(last);
                }
                let mut b: usize = 0;
                while b < n
                    invariant
                        !meets_goal(agents@[last as int].capabilities, *goal),
                        expanded.contains(last),
                        forall|c: int| 0 <= c < b && types_compatible(agents@[last as int].capabilities, agents@[c].capabilities)
                            ==> #[trigger] best_g@[c] is Some,
                        forall|c: int| 0 <= c < n && types_compatible(*start, agents@[c].capabilities) ==> #[trigger] best_g@[c] is Some,
                        forall|c: int| 0 <= c < n && #[trigger] best_g@[c] is Some
                            ==> expanded.contains(c as usize) || in_frontier(frontier@, c as usize) || found@.len() > 0,
                        forall|e: usize| #[trigger] expanded.contains(e) && e != last ==> closed(agents@, *goal, best_g@, e),
                        n == agents@.len(),
                        best_g@.len() == n,
                        b <= n,
                        last < n,
                        last == node.path@.last(),
                        node_ok(agents@, *start, *goal, node, expansions as nat),
                        expansions <= max_expansions,
                        forall|j: int| 0 <= j < frontier@.len()
                            ==> node_ok(agents@, *start, *goal, #[trigger] frontier@[j], expansions as nat + 1),
                    decreases n - b,
                {
                    if agents[last].capabilities.output_type == agents[b].capabilities.input_type {
                        let g2 = node.g + semantic_distance(&agents[last].capabilities, &agents[b].capabilities)
                            + STEP_COST;
                        let improves = match best_g[b] {
                            Some(seen) => g2 < seen,
                            None => true,
                        };
                        if improves {
                            let ghost seen_before = best_g@;
                            let ghost frontier_before = frontier@;
                            best_g.set(b, Some(g2));
                            let h2 = semantic_distance(&agents[b].capabilities, goal);
                            let path = extend_path(&node.path, b);
                            proof {
                                lemma_extend(agents@, *start, node.path@, b);
                            }
                            frontier.push(SearchNode { path, g: g2, h: h2 });
                            proof {
                                assert(reached_grows(seen_before, best_g@));
                                assert forall|e: usize| #[trigger] expanded.contains(e) && e != last implies closed(
                                    agents@,
                                    *goal,
                                    best_g@,
                                    e,
                                ) by {
                                    lemma_closed_grows(agents@, *goal, seen_before, best_g@, e);
                                }
                                assert(frontier@[frontier_before.len() as int].path@.last() == b);
                                assert forall|c: int| 0 <= c < n && #[trigger] best_g@[c] is Some implies expanded.contains(
                                    c as usize,
                                ) || in_frontier(frontier@, c as usize) || found@.len() > 0 by {
                                    if c == b {
                                        assert(in_frontier(frontier@, c as usize));
                                    } else {
                                        assert(seen_before[c] is Some);
                                        if in_frontier(frontier_before, c as usize) {
                                            lemma_in_frontier_push(frontier_before, frontier@[frontier_before.len() as int], c as usize);
                                            assert(frontier_before.push(frontier@[frontier_before.len() as int]) == frontier@);
                                        }
                                    }
                                }
                            }
                        }
                    }
                    b += 1;
                }
            }
        }
        proof {
            if !timed_out && found@.len() == 0 {
                lemma_unreachable_when_closed(agents@, *start, *goal, best_g@, expanded);
            }
        }
        if found.len() > 0 {
            (Ok(found), expansions)
        } else if timed_out {
            (Err(PlanError::PlanningTimeout), expansions)
        } else {
            (Err(PlanError::NoPathFound), expansions)
        }
    }

    /// Searches the catalog for up to `k` pipelines that turn `start` into `goal`,
    /// expanding at most `max_expansions` nodes; `find_pipelines_counted` also
    /// reports how many nodes were expanded.
    pub fn find_pipelines(
        agents: &Vec<Agent>,
        start: &Capability,
        goal: &Capability,
        k: u32,
        max_expansions: u32,
    ) -> (r: Result<Vec<PlannedPipeline>, PlanError>)
        requires
            k >= 1,
        ensures
            goal_reachable(agents@, *start, *goal) ==> r is Ok || r == Err::<Vec<PlannedPipeline>, PlanError>(
                PlanError::PlanningTimeout,
            ),
            r is Ok ==> {
                let ps = r->Ok_0@;
                &&& 1 <= ps.len() <= k
                &&& forall|i: int| 0 <= i < ps.len() ==> is_valid_plan(agents@, *start, *goal, #[trigger] ps[i])
                &&& strictly_ascending(ps)
                &&& distinct_sequences(ps)
            },
            !some_agent_meets_goal(agents@, *goal) ==> r == Err::<Vec<PlannedPipeline>, PlanError>(PlanError::NoPathFound),
            !some_agent_accepts_start(agents@, *start) ==> r == Err::<Vec<PlannedPipeline>, PlanError>(PlanError::NoPathFound),
            max_expansions >= 1 && some_agent_goes_directly(agents@, *start, *goal) ==> r is Ok,
            r == Err::<Vec<PlannedPipeline>, PlanError>(PlanError::NoPathFound) ==> !goal_reachable(agents@, *start, *goal),
            r == Err::<Vec<PlannedPipeline>, PlanError>(PlanError::PlanningTimeout) ==> some_agent_meets_goal(
                agents@,
                *goal,
            ) && some_agent_accepts_start(agents@, *start),
            max_expansions == 0 && some_agent_meets_goal(agents@, *goal) && some_agent_accepts_start(agents@, *start)
                ==> r == Err::<Vec<PlannedPipeline>, PlanError>(PlanError::PlanningTimeout),
    {
        Self::find_pipelines_counted(agents, start, goal, k, max_expansions).0
    }
}

} // verus!
