use agent_platform::capability::{semantic_distance, Capability, FORMAT_PENALTY, TYPE_PENALTY};
use agent_platform::models::Agent;
use agent_platform::planner::{AStarPlanner, PlanError, PlannedPipeline, STEP_COST};

fn cap(input: &str, output: &str, formats: &[&str]) -> Capability {
    Capability {
        input_type: input.to_string(),
        output_type: output.to_string(),
        formats: formats.iter().map(|f| f.to_string()).collect(),
        max_resolution: None,
    }
}

fn agent(id: u128, c: Capability) -> Agent {
    Agent {
        id,
        name: format!("agent-{}", id),
        description: String::new(),
        wasm_asset_id: id + 1000,
        capabilities: c,
        created_at: 0,
    }
}

fn chain_cost(agents: &[Agent], start: &Capability, ids: &[u128]) -> u64 {
    let mut prev = start.clone();
    let mut total = 0;
    for id in ids {
        let a = agents.iter().find(|a| a.id == *id).unwrap();
        total += semantic_distance(&prev, &a.capabilities) + STEP_COST;
        prev = a.capabilities.clone();
    }
    total
}

// Exhaustive search over all simple type-compatible chains that meet the goal.
fn brute_force_best(agents: &[Agent], start: &Capability, goal: &Capability) -> Option<u64> {
    fn walk(
        agents: &[Agent],
        goal: &Capability,
        prev: &Capability,
        cost: u64,
        used: &mut Vec<bool>,
        best: &mut Option<u64>,
    ) {
        for (i, a) in agents.iter().enumerate() {
            if used[i] || prev.output_type != a.capabilities.input_type {
                continue;
            }
            let c = cost + semantic_distance(prev, &a.capabilities) + STEP_COST;
            if semantic_distance(&a.capabilities, goal) == 0 && best.map_or(true, |b| c < b) {
                *best = Some(c);
            }
            used[i] = true;
            walk(agents, goal, &a.capabilities, c, used, best);
            used[i] = false;
        }
    }
    let mut used = vec![false; agents.len()];
    let mut best = None;
    walk(agents, goal, start, 0, &mut used, &mut best);
    best
}

fn check_pipelines(agents: &[Agent], start: &Capability, goal: &Capability, ps: &[PlannedPipeline]) {
    for p in ps {
        assert!(!p.agent_ids.is_empty());
        assert_eq!(p.total_cost, chain_cost(agents, start, &p.agent_ids));
        let last = agents.iter().find(|a| a.id == *p.agent_ids.last().unwrap()).unwrap();
        assert_eq!(semantic_distance(&last.capabilities, goal), 0);
    }
}

#[test]
fn distance_of_capability_to_itself_is_zero() {
    let c = cap("text", "text", &["txt", "md"]);
    assert_eq!(semantic_distance(&c, &c), 0);
}

#[test]
fn disjoint_capabilities_get_both_penalties() {
    let a = cap("image", "text", &["jpg"]);
    let b = cap("audio", "video", &["mp4"]);
    assert_eq!(semantic_distance(&a, &b), TYPE_PENALTY + FORMAT_PENALTY);
    assert_eq!(semantic_distance(&a, &b), 110);
}

#[test]
fn each_penalty_applies_alone() {
    let a = cap("image", "text", &["jpg"]);
    assert_eq!(semantic_distance(&a, &cap("text", "summary", &["txt"])), FORMAT_PENALTY);
    assert_eq!(semantic_distance(&a, &cap("audio", "summary", &["jpg"])), TYPE_PENALTY);
    assert_eq!(semantic_distance(&a, &cap("text", "summary", &["png", "jpg"])), 0);
}

#[test]
fn image_to_summary_goes_through_two_agents() {
    let agents = vec![
        agent(1, cap("image", "text", &["jpg"])),
        agent(2, cap("text", "summary", &["jpg", "txt"])),
    ];
    let start = cap("image", "image", &["jpg"]);
    let goal = cap("summary", "summary", &["txt"]);
    let ps = AStarPlanner::find_pipelines(&agents, &start, &goal, 1, 100).unwrap();
    assert_eq!(ps.len(), 1);
    assert_eq!(ps[0].agent_ids, vec![1, 2]);
    assert_eq!(ps[0].total_cost, 2 * STEP_COST);
}

#[test]
fn plan_is_no_worse_than_exhaustive_search() {
    let agents = vec![
        agent(1, cap("image", "text", &["jpg"])),
        agent(2, cap("text", "tokens", &["jpg"])),
        agent(3, cap("text", "tokens", &["wav"])),
        agent(4, cap("tokens", "summary", &["jpg", "txt"])),
        agent(5, cap("tokens", "summary", &["wav"])),
        agent(6, cap("image", "caption", &["png"])),
        agent(7, cap("caption", "tokens", &["png"])),
    ];
    let start = cap("image", "image", &["jpg"]);
    let goal = cap("summary", "summary", &["txt"]);
    let ps = AStarPlanner::find_pipelines(&agents, &start, &goal, 1, 1000).unwrap();
    assert_eq!(ps.len(), 1);
    check_pipelines(&agents, &start, &goal, &ps);
    let best = brute_force_best(&agents, &start, &goal).unwrap();
    assert!(ps[0].total_cost <= best);
    assert_eq!(ps[0].agent_ids, vec![1, 2, 4]);
}

#[test]
fn no_agent_produces_goal_type() {
    let agents = vec![
        agent(1, cap("image", "text", &["jpg"])),
        agent(2, cap("text", "tokens", &["jpg"])),
    ];
    let start = cap("image", "image", &["jpg"]);
    let goal = cap("summary", "summary", &["jpg"]);
    let r = AStarPlanner::find_pipelines(&agents, &start, &goal, 3, 1000);
    assert_eq!(r.err(), Some(PlanError::NoPathFound));
}

#[test]
fn empty_catalog_has_no_path() {
    let start = cap("image", "image", &["jpg"]);
    let goal = cap("summary", "summary", &["jpg"]);
    let r = AStarPlanner::find_pipelines(&Vec::new(), &start, &goal, 1, 10);
    assert_eq!(r.err(), Some(PlanError::NoPathFound));
}

#[test]
fn zero_expansions_times_out() {
    let agents = vec![agent(1, cap("image", "summary", &["jpg"]))];
    let start = cap("image", "image", &["jpg"]);
    let goal = cap("summary", "summary", &["jpg"]);
    let r = AStarPlanner::find_pipelines(&agents, &start, &goal, 1, 0);
    assert_eq!(r.err(), Some(PlanError::PlanningTimeout));
}

#[test]
fn expansion_bound_stops_a_long_search() {
    let agents = vec![
        agent(1, cap("a", "b", &["x"])),
        agent(2, cap("b", "c", &["x"])),
        agent(3, cap("c", "d", &["x"])),
        agent(4, cap("d", "goal", &["x"])),
    ];
    let start = cap("a", "a", &["x"]);
    let goal = cap("goal", "goal", &["x"]);
    let r = AStarPlanner::find_pipelines(&agents, &start, &goal, 1, 2);
    assert_eq!(r.err(), Some(PlanError::PlanningTimeout));
    let ok = AStarPlanner::find_pipelines(&agents, &start, &goal, 1, 4).unwrap();
    assert_eq!(ok[0].agent_ids, vec![1, 2, 3, 4]);
    assert_eq!(ok[0].total_cost, 4);
}

#[test]
fn k_best_pipelines_are_few_sorted_and_distinct() {
    let agents = vec![
        agent(1, cap("image", "text", &["jpg"])),
        agent(2, cap("text", "summary", &["jpg", "txt"])),
        agent(3, cap("text", "summary", &["txt"])),
        agent(4, cap("image", "summary", &["png", "txt"])),
        agent(5, cap("text", "text", &["jpg"])),
    ];
    let start = cap("image", "image", &["jpg"]);
    let goal = cap("summary", "summary", &["txt"]);
    for k in 1..=4u32 {
        let ps = AStarPlanner::find_pipelines(&agents, &start, &goal, k, 1000).unwrap();
        assert!(!ps.is_empty() && ps.len() <= k as usize);
        check_pipelines(&agents, &start, &goal, &ps);
        for w in ps.windows(2) {
            assert!(w[0].total_cost < w[1].total_cost);
        }
        for i in 0..ps.len() {
            for j in 0..ps.len() {
                if i != j {
                    assert_ne!(ps[i].agent_ids, ps[j].agent_ids);
                }
            }
        }
    }
    let ps = AStarPlanner::find_pipelines(&agents, &start, &goal, 3, 1000).unwrap();
    assert_eq!(ps[0].agent_ids, vec![1, 2]);
    assert_eq!(ps[0].total_cost, 2);
    assert!(ps.len() >= 2);
}

#[test]
fn direct_agent_is_found_in_one_expansion() {
    let agents = vec![
        agent(1, cap("image", "text", &["jpg"])),
        agent(2, cap("image", "summary", &["jpg"])),
        agent(3, cap("text", "summary", &["jpg"])),
    ];
    let start = cap("image", "image", &["jpg"]);
    let goal = cap("summary", "summary", &["jpg"]);
    let ps = AStarPlanner::find_pipelines(&agents, &start, &goal, 2, 1).unwrap();
    assert_eq!(ps.len(), 1);
    assert_eq!(ps[0].agent_ids, vec![2]);
    assert_eq!(ps[0].total_cost, STEP_COST);
}

#[test]
fn cycle_without_route_to_goal_has_no_path() {
    let agents = vec![
        agent(1, cap("image", "text", &["jpg"])),
        agent(2, cap("text", "image", &["jpg"])),
        agent(3, cap("audio", "summary", &["jpg"])),
    ];
    let start = cap("image", "image", &["jpg"]);
    let goal = cap("summary", "summary", &["jpg"]);
    let r = AStarPlanner::find_pipelines(&agents, &start, &goal, 1, 1000);
    assert_eq!(r.err(), Some(PlanError::NoPathFound));
}

#[test]
fn expansion_count_stays_within_bound() {
    let agents = vec![
        agent(1, cap("a", "b", &["x"])),
        agent(2, cap("b", "c", &["x"])),
        agent(3, cap("c", "d", &["x"])),
        agent(4, cap("d", "goal", &["x"])),
    ];
    let start = cap("a", "a", &["x"]);
    let goal = cap("goal", "goal", &["x"]);
    let (r, count) = AStarPlanner::find_pipelines_counted(&agents, &start, &goal, 1, 3);
    assert_eq!(r.err(), Some(PlanError::PlanningTimeout));
    assert_eq!(count, 3);
    let (r, count) = AStarPlanner::find_pipelines_counted(&agents, &start, &goal, 1, 50);
    assert_eq!(r.unwrap()[0].agent_ids, vec![1, 2, 3, 4]);
    assert_eq!(count, 4);
}

#[test]
fn repeated_id_sequences_are_returned_once() {
    let agents = vec![
        agent(1, cap("image", "summary", &["jpg"])),
        agent(1, cap("image", "summary", &["png", "jpg"])),
        agent(1, cap("image", "summary", &["png"])),
    ];
    let start = cap("image", "image", &["jpg"]);
    let goal = cap("summary", "summary", &["png", "jpg"]);
    let ps = AStarPlanner::find_pipelines(&agents, &start, &goal, 3, 100).unwrap();
    assert_eq!(ps.len(), 1);
    assert_eq!(ps[0].agent_ids, vec![1]);
    assert_eq!(ps[0].total_cost, STEP_COST);
}
