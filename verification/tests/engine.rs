use neural_sim::level::LEVEL_SCALE;
use neural_sim::neuron::lif_neuron::LifNeuron;
use neural_sim::neuron::{CommonlyCreateable, TimeDependent};
use neural_sim::trace::{TraceEvent, TraceLog};
use neural_sim::{BatchLinkingRule, Director, Error, Simulation, VecOrValueLevel};

type PlainRule = BatchLinkingRule<fn(usize, usize) -> bool>;

fn director_with_agents(sim_time: u32, betas: &[i64]) -> (Director, Vec<u32>) {
    let mut d = Director::new(sim_time, 0).unwrap();
    let mut ids: Vec<u32> = Vec::new();
    for beta in betas {
        let n = LifNeuron::new(*beta);
        ids.push(d.add_to_registry(n).unwrap());
    }
    (d, ids)
}

#[test]
fn registry_issues_dense_ids() {
    let (d, ids) = director_with_agents(1, &[LEVEL_SCALE, LEVEL_SCALE, LEVEL_SCALE]);
    assert_eq!(ids, vec![0, 1, 2]);
    assert_eq!(d.subordinates.len(), 3);
    for (slot, n) in d.subordinates.iter().enumerate() {
        assert_eq!(n.id as usize, slot);
    }
}

#[test]
fn register_batch_returns_consecutive_ids() {
    let mut d = Director::new(1, 0).unwrap();
    let batch = LifNeuron::batch_create_new(4, 600_000);
    let ids = LifNeuron::register_batch(batch, &mut d);
    assert_eq!(ids, vec![0, 1, 2, 3]);
    assert_eq!(d.subordinates.len(), 4);
}

#[test]
fn link_to_unissued_id_is_refused_and_changes_nothing() {
    let (mut d, _) = director_with_agents(1, &[LEVEL_SCALE]);
    let r = d.create_link(0, 5, 100);
    assert!(matches!(r, Err(Error::LinkCreate(_))));
    assert!(d.planner.connection_map[0].is_empty());
    let r2 = d.create_link(3, 0, 100);
    assert!(matches!(r2, Err(Error::LinkCreate(_))));
}

#[test]
fn tick_advances_by_one_only_in_quiet_rounds() {
    let (mut d, _) = director_with_agents(3, &[LEVEL_SCALE]);
    d.subordinates[0].plan_init_impulses(vec![0]);
    let mut log = TraceLog::new(false);
    d.init_planned(&mut log).unwrap();

    // The agent is due at tick 0: the round reports it and holds the clock.
    let fired = d.run_round(&mut log);
    assert_eq!(fired, vec![0]);
    assert_eq!(d.cur_time, 0);

    // Nothing is due any more: each round now advances by exactly one.
    let fired = d.run_round(&mut log);
    assert!(fired.is_empty());
    assert_eq!(d.cur_time, 1);
    let fired = d.run_round(&mut log);
    assert!(fired.is_empty());
    assert_eq!(d.cur_time, 2);
}

#[test]
fn chain_delivers_weight_in_the_firing_round() {
    let (mut d, ids) = director_with_agents(3, &[LEVEL_SCALE, LEVEL_SCALE]);
    d.create_link(ids[0], ids[1], 600_000).unwrap();
    d.subordinates[0].plan_init_impulses(vec![0]);
    let mut log = TraceLog::new(false);
    d.init_planned(&mut log).unwrap();

    let fired = d.run_round(&mut log);
    assert_eq!(fired, vec![0]);
    // Delivered in the same round, before the clock moves on.
    assert_eq!(d.subordinates[1].current_potential, 600_000);
    assert_eq!(d.cur_time, 0);
}

#[test]
fn scenario_single_agent_fires_once_at_tick_zero() {
    // One agent, threshold 1.0, decay 0.6, impulse planned at tick 0,
    // budget 5: one fire at tick 0, potential 0 afterwards, run ends at 5.
    let mut sim = Simulation::new(false).unwrap();
    let mut d = Director::new(5, 0).unwrap();
    let mut n = LifNeuron::new(600_000);
    n.plan_init_impulses(vec![0]);
    d.add_to_registry(n).unwrap();
    sim.register_director(d);
    sim.start().unwrap();

    let d = &sim.controlled_directors[0];
    assert_eq!(d.cur_time, 5);
    assert_eq!(d.subordinates[0].current_potential, 0);
    assert!(d.subordinates[0].spikes_queue.is_empty());

    // The same run, stepped round by round: exactly one fire, at tick 0.
    let mut d = Director::new(5, 0).unwrap();
    let mut n = LifNeuron::new(600_000);
    n.plan_init_impulses(vec![0]);
    d.add_to_registry(n).unwrap();
    let mut log = TraceLog::new(false);
    d.init_planned(&mut log).unwrap();
    let mut all_fires: Vec<(u32, Vec<u32>)> = Vec::new();
    while d.cur_time != d.sim_time {
        let at: u32 = d.cur_time;
        let fired = d.run_round(&mut log);
        all_fires.push((at, fired));
    }
    let fire_count: usize = all_fires.iter().map(|(_, f)| f.len()).sum();
    assert_eq!(fire_count, 1);
    assert_eq!(all_fires[0], (0, vec![0]));
}

#[test]
fn scenario_chain_leaves_receiver_below_threshold() {
    // A fires at tick 1 into B with weight 0.6; B never reaches 1.0 and
    // ends the run holding exactly 0.6.
    let mut sim = Simulation::new(false).unwrap();
    let mut d = Director::new(3, 0).unwrap();
    let mut a = LifNeuron::new(LEVEL_SCALE);
    a.plan_init_impulses(vec![1]);
    let b = LifNeuron::new(LEVEL_SCALE);
    let ida = d.add_to_registry(a).unwrap();
    let idb = d.add_to_registry(b).unwrap();
    d.create_link(ida, idb, 600_000).unwrap();
    sim.register_director(d);
    sim.start().unwrap();

    let d = &sim.controlled_directors[0];
    assert_eq!(d.cur_time, 3);
    assert!(d.subordinates[0].spikes_queue.is_empty());
    assert_eq!(d.subordinates[1].current_potential, 600_000);
    assert!(d.subordinates[1].spikes_queue.is_empty());
}

#[test]
fn scenario_fully_connected_creates_one_link_per_pair() {
    // 2 sources × 2 destinations with scalar weight 0.3: exactly 4 links.
    let (mut d, ids) = director_with_agents(
        1,
        &[LEVEL_SCALE, LEVEL_SCALE, LEVEL_SCALE, LEVEL_SCALE],
    );
    let sources = [ids[0], ids[1]];
    let dests = [ids[2], ids[3]];
    let rule: PlainRule = BatchLinkingRule::FullyConnected;
    d.create_links_by_rule(&sources, &dests, VecOrValueLevel::Val(300_000), rule).unwrap();

    let total: usize = d.planner.connection_map.iter().map(|row| row.len()).sum();
    assert_eq!(total, 4);
    for src in [0usize, 1] {
        let row = &d.planner.connection_map[src];
        assert_eq!(row.len(), 2);
        assert_eq!(row[0].id, 2);
        assert_eq!(row[1].id, 3);
        assert!(row.iter().all(|p| p.weight == 300_000));
    }
}

#[test]
fn user_defined_rule_links_exactly_the_accepted_pairs() {
    let (mut d, ids) = director_with_agents(
        1,
        &[LEVEL_SCALE, LEVEL_SCALE, LEVEL_SCALE, LEVEL_SCALE],
    );
    let sources = [ids[0], ids[1]];
    let dests = [ids[2], ids[3]];
    d.create_links_by_rule(
        &sources,
        &dests,
        VecOrValueLevel::Val(250_000),
        BatchLinkingRule::UserDefined(|i: usize, j: usize| i == j),
    )
    .unwrap();

    let total: usize = d.planner.connection_map.iter().map(|row| row.len()).sum();
    assert_eq!(total, 2);
    assert_eq!(d.planner.connection_map[0][0].id, 2);
    assert_eq!(d.planner.connection_map[1][0].id, 3);
}

#[test]
fn no_links_rule_creates_nothing() {
    let (mut d, ids) = director_with_agents(1, &[LEVEL_SCALE, LEVEL_SCALE]);
    let rule: PlainRule = BatchLinkingRule::NoLinks;
    d.create_links_by_rule(&[ids[0]], &[ids[1]], VecOrValueLevel::Val(300_000), rule).unwrap();
    let total: usize = d.planner.connection_map.iter().map(|row| row.len()).sum();
    assert_eq!(total, 0);
}

#[test]
fn matrix_weights_land_cell_by_cell() {
    let (mut d, ids) = director_with_agents(
        1,
        &[LEVEL_SCALE, LEVEL_SCALE, LEVEL_SCALE, LEVEL_SCALE],
    );
    let sources = [ids[0], ids[1]];
    let dests = [ids[2], ids[3]];
    let rule: PlainRule = BatchLinkingRule::FullyConnected;
    d.create_links_by_rule(
        &sources,
        &dests,
        VecOrValueLevel::Matrix(vec![vec![10, 20], vec![30, 40]]),
        rule,
    )
    .unwrap();
    assert_eq!(d.planner.connection_map[0][0].weight, 10);
    assert_eq!(d.planner.connection_map[0][1].weight, 20);
    assert_eq!(d.planner.connection_map[1][0].weight, 30);
    assert_eq!(d.planner.connection_map[1][1].weight, 40);
}

#[test]
fn isolated_agent_stays_silent_for_the_whole_run() {
    // No signals, no planned impulses: never fires, potential stays 0,
    // whatever the decay factor.
    let mut sim = Simulation::new(false).unwrap();
    let mut d = Director::new(4, 0).unwrap();
    d.add_to_registry(LifNeuron::new(250_000)).unwrap();
    sim.register_director(d);
    sim.start().unwrap();

    let d = &sim.controlled_directors[0];
    assert_eq!(d.cur_time, 4);
    assert_eq!(d.subordinates[0].current_potential, 0);
    assert!(d.subordinates[0].spikes_queue.is_empty());
}

#[test]
fn unsettling_cascade_aborts_the_run() {
    // A and B re-trigger each other with weights above threshold: the
    // clock can never advance and the run gives up with a worker failure.
    let mut sim = Simulation::new(false).unwrap();
    let mut d = Director::new(1, 0).unwrap();
    let mut a = LifNeuron::new(LEVEL_SCALE);
    a.plan_init_impulses(vec![0]);
    let b = LifNeuron::new(LEVEL_SCALE);
    let ida = d.add_to_registry(a).unwrap();
    let idb = d.add_to_registry(b).unwrap();
    d.create_link(ida, idb, 2 * LEVEL_SCALE).unwrap();
    d.create_link(idb, ida, 2 * LEVEL_SCALE).unwrap();
    sim.register_director(d);
    assert_eq!(sim.start(), Err(Error::JoinHandle));
}

#[test]
fn trace_obeys_the_sink_calling_order() {
    let mut sim = Simulation::new(true).unwrap();
    let mut d = Director::new(1, 9).unwrap();
    d.add_to_registry(LifNeuron::new(LEVEL_SCALE)).unwrap();
    sim.register_director(d);
    sim.start().unwrap();

    let events = &sim.trace.events;
    assert_eq!(events[0], TraceEvent::OpenScope(9));
    assert_eq!(events[1], TraceEvent::DeclareVar { director: 9, agent: 0 });
    assert_eq!(events[2], TraceEvent::CloseScope);
    assert_eq!(events[3], TraceEvent::CloseDeclarations);
    assert_eq!(events[4], TraceEvent::BeginValues(9));
    assert_eq!(
        events[5],
        TraceEvent::WriteValue { director: 9, agent: 0, level: 0 }
    );
    assert_eq!(events[6], TraceEvent::EndValues(9));
    assert_eq!(*events.last().unwrap(), TraceEvent::Finalize);
    let closes: usize = events
        .iter()
        .filter(|e| matches!(e, TraceEvent::CloseDeclarations))
        .count();
    assert_eq!(closes, 1);
    // The one quiet round writes the value and advances the clock.
    assert!(events.contains(&TraceEvent::AdvanceTime(1)));
    // No declaration ever follows the close of the structural section.
    let after = &events[4..];
    assert!(after
        .iter()
        .all(|e| !matches!(e, TraceEvent::DeclareVar { .. } | TraceEvent::OpenScope(_))));
}

#[test]
fn trace_groups_each_director_scope_contiguously() {
    let mut sim = Simulation::new(true).unwrap();
    let mut d1 = Director::new(1, 1).unwrap();
    d1.add_to_registry(LifNeuron::new(LEVEL_SCALE)).unwrap();
    let mut d2 = Director::new(1, 2).unwrap();
    d2.add_to_registry(LifNeuron::new(LEVEL_SCALE)).unwrap();
    sim.register_director(d1);
    sim.register_director(d2);
    sim.start().unwrap();

    // Directors start up in reverse registration order, each contributing
    // one whole scope, before the single close of the structural section.
    let events = &sim.trace.events;
    assert_eq!(events[0], TraceEvent::OpenScope(2));
    assert_eq!(events[1], TraceEvent::DeclareVar { director: 2, agent: 0 });
    assert_eq!(events[2], TraceEvent::CloseScope);
    assert_eq!(events[3], TraceEvent::OpenScope(1));
    assert_eq!(events[4], TraceEvent::DeclareVar { director: 1, agent: 0 });
    assert_eq!(events[5], TraceEvent::CloseScope);
    assert_eq!(events[6], TraceEvent::CloseDeclarations);
    assert_eq!(*events.last().unwrap(), TraceEvent::Finalize);
}

#[test]
fn disabled_trace_records_nothing() {
    let mut sim = Simulation::new(false).unwrap();
    let mut d = Director::new(2, 0).unwrap();
    d.add_to_registry(LifNeuron::new(LEVEL_SCALE)).unwrap();
    sim.register_director(d);
    sim.start().unwrap();
    assert!(sim.trace.events.is_empty());
}

#[test]
fn directors_end_up_in_reverse_registration_order() {
    let mut sim = Simulation::new(false).unwrap();
    let d1 = Director::new(1, 11).unwrap();
    let d2 = Director::new(1, 22).unwrap();
    sim.register_director(d1);
    sim.register_director(d2);
    sim.start().unwrap();
    assert_eq!(sim.controlled_directors[0].name, 22);
    assert_eq!(sim.controlled_directors[1].name, 11);
    assert!(sim.controlled_directors.iter().all(|d| d.cur_time == d.sim_time));
}

#[test]
fn register_via_consuming_registration() {
    let mut d = Director::new(1, 0).unwrap();
    let n = LifNeuron::new(LEVEL_SCALE);
    let id = n.register(&mut d);
    assert_eq!(id, Some(0));
    assert_eq!(d.subordinates.len(), 1);
}
