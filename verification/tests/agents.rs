use neural_sim::level::LEVEL_SCALE;
use neural_sim::neuron::lif_neuron::LifNeuron;
use neural_sim::neuron::{CommonlyCreateable, Fire, HasId, Init, Leaky, PlansEvents, SignalReceiver};
use neural_sim::synapse::SynapseGroup;
use neural_sim::{Callable, EventEntry};

#[test]
fn fresh_agent_state() {
    let n = LifNeuron::new(600_000);
    assert_eq!(n.current_potential, 0);
    assert_eq!(n.threshold, LEVEL_SCALE);
    assert_eq!(n.beta, 600_000);
    assert_eq!(n.last_leak_time, 0);
    assert!(n.spikes_queue.is_empty());
    assert!(n.planned_time_steps.is_empty());
}

#[test]
fn add_events_entry_keeps_queue_sorted() {
    let mut n = LifNeuron::new(LEVEL_SCALE);
    n.add_events_entry(5);
    n.add_events_entry(3);
    n.add_events_entry(5);
    n.add_events_entry(1);
    assert_eq!(n.spikes_queue, vec![1, 3, 5, 5]);
    assert_eq!(n.get_earliest_event_int(), Some(&1));
    n.pop_earliest_event_int();
    assert_eq!(n.spikes_queue, vec![3, 5, 5]);
}

#[test]
fn init_folds_planned_impulses_into_queue() {
    let mut n = LifNeuron::new(LEVEL_SCALE);
    n.plan_init_impulses(vec![4, 2]);
    n.init();
    assert_eq!(n.spikes_queue, vec![2, 4]);
    assert_eq!(n.get_earliest_event(), Some(&2));
    assert_eq!(n.get_earliest_event_available(), Some(true));
}

#[test]
fn receive_below_threshold_accumulates() {
    let mut n = LifNeuron::new(LEVEL_SCALE);
    n.recieve_signal(0, 600_000);
    assert_eq!(n.get_signal(), Some(600_000));
    assert!(n.spikes_queue.is_empty());
}

#[test]
fn firing_resets_potential_to_exactly_zero() {
    // Far above threshold: the reset still lands on exactly zero.
    let mut n = LifNeuron::new(LEVEL_SCALE);
    n.recieve_signal(3, 5 * LEVEL_SCALE);
    assert_eq!(n.current_potential, 0);
    assert_eq!(n.spikes_queue, vec![3]);
}

#[test]
fn threshold_is_inclusive() {
    let mut n = LifNeuron::new(LEVEL_SCALE);
    n.recieve_signal(1, LEVEL_SCALE);
    assert_eq!(n.current_potential, 0);
    assert_eq!(n.spikes_queue, vec![1]);
}

#[test]
fn leak_decays_exactly_per_tick() {
    // 0.9 decayed twice by 0.6 is exactly 0.324 in fixed point.
    let mut n = LifNeuron::new(600_000);
    n.recieve_signal(0, 900_000);
    assert_eq!(n.get_signal(), Some(900_000));
    n.recieve_signal(2, 0);
    assert_eq!(n.get_signal(), Some(324_000));
}

#[test]
fn no_decay_with_unit_beta() {
    let mut n = LifNeuron::new(LEVEL_SCALE);
    n.recieve_signal(0, 700_000);
    n.perform_leak(90);
    assert_eq!(n.get_signal(), Some(700_000));
    assert_eq!(n.last_leak_time, 90);
}

#[test]
fn negative_signals_saturate_at_the_floor() {
    let mut n = LifNeuron::new(LEVEL_SCALE);
    n.recieve_signal(0, i64::MIN);
    n.recieve_signal(0, i64::MIN);
    assert_eq!(n.get_signal(), Some(i64::MIN));
}

#[test]
fn identity_via_fire_and_get_id() {
    let mut n = LifNeuron::new(LEVEL_SCALE);
    assert_eq!(n.get_id(), Some(0));
    n.set_id(7);
    assert_eq!(n.get_id(), Some(7));
    assert_eq!(n.fire(), Some(7));
}

#[test]
fn batch_create_new_yields_independent_fresh_agents() {
    let batch = LifNeuron::batch_create_new(3, 600_000);
    assert_eq!(batch.len(), 3);
    for n in &batch {
        assert_eq!(n.current_potential, 0);
        assert_eq!(n.beta, 600_000);
    }
}

#[test]
fn synapse_group_starts_empty() {
    let g = SynapseGroup::new().unwrap();
    assert!(g.connections.is_empty());
}

#[test]
fn event_entry_hands_its_timestamp_to_the_callback() {
    let e = EventEntry::new(42, |t: i32| assert_eq!(t, 42)).unwrap();
    assert_eq!(e.time_stamp, 42);
    e.call();
}
