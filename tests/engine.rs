use blocksim::block::{update, BlockState, Component, ComponentType, Config};
use blocksim::fixed::{self, SCALE};
use blocksim::schedule::schedule;
use blocksim::sim::{SimError, Simulator};

fn feed(kind: ComponentType, inputs: &[i64]) -> Vec<i64> {
    let cfg = Config::standard();
    let mut st = BlockState::initial(kind);
    inputs.iter().map(|&x| update(kind, x, &mut st, &cfg)).collect()
}

#[test]
fn step_outputs_one_whatever_the_input() {
    assert_eq!(feed(ComponentType::Step, &[0, -5 * SCALE, 42, SCALE]), vec![SCALE; 4]);
}

#[test]
fn integrator_of_one_reaches_ten_after_hundred_steps() {
    let out = feed(ComponentType::DiscreteIntegrator, &vec![SCALE; 100]);
    assert_eq!(out[0], SCALE / 10);
    assert_eq!(out[9], SCALE);
    assert_eq!(out[99], 10 * SCALE);
}

#[test]
fn difference_of_constant_is_zero() {
    assert_eq!(feed(ComponentType::Difference, &[3 * SCALE; 6]), vec![0; 6]);
}

#[test]
fn difference_of_changing_input() {
    assert_eq!(feed(ComponentType::Difference, &[SCALE, 3 * SCALE, 2 * SCALE]), vec![0, 2 * SCALE, -SCALE]);
}

#[test]
fn derivative_divides_by_time_step() {
    assert_eq!(feed(ComponentType::DiscreteDerivative, &[0, SCALE, SCALE]), vec![0, 10 * SCALE, 0]);
}

#[test]
fn memory_outputs_previous_input() {
    assert_eq!(feed(ComponentType::Memory, &[5, 7, 9, 11]), vec![5, 5, 7, 9]);
}

#[test]
fn delay_three_zero_fills_then_shifts() {
    let ins: Vec<i64> = (1..=7).map(|k| k * SCALE).collect();
    let expect: Vec<i64> = vec![0, 0, 0, SCALE, 2 * SCALE, 3 * SCALE, 4 * SCALE];
    assert_eq!(feed(ComponentType::Delay(3), &ins), expect);
}

#[test]
fn delay_zero_passes_input_through() {
    assert_eq!(feed(ComponentType::Delay(0), &[4, 5, 6]), vec![4, 5, 6]);
}

#[test]
fn transfer_function_smooths_towards_input() {
    assert_eq!(feed(ComponentType::TransferFunction, &[SCALE, SCALE]), vec![100_000, 190_000]);
}

#[test]
fn pid_terms() {
    let p = ComponentType::PIDController { kp: SCALE, ki: 0, kd: 0 };
    assert_eq!(feed(p, &[0, SCALE / 2]), vec![SCALE, SCALE / 2]);
    let i = ComponentType::PIDController { kp: 0, ki: SCALE, kd: 0 };
    assert_eq!(feed(i, &[0, 0]), vec![100_000, 200_000]);
    let d = ComponentType::PIDController { kp: 0, ki: 0, kd: SCALE };
    assert_eq!(feed(d, &[0, 0]), vec![10 * SCALE, 0]);
}

#[test]
fn scope_has_no_output() {
    assert_eq!(feed(ComponentType::Scope, &[SCALE, 2 * SCALE]), vec![0, 0]);
}

#[test]
fn fixed_point_arithmetic() {
    assert_eq!(fixed::mul(SCALE / 2, SCALE / 2), SCALE / 4);
    assert_eq!(fixed::mul(-1, 1), -1);
    assert_eq!(fixed::div(SCALE, SCALE / 10), 10 * SCALE);
    assert_eq!(fixed::add(i64::MAX, 1), i64::MAX);
    assert_eq!(fixed::sub(i64::MIN, 1), i64::MIN);
    assert_eq!(fixed::mul(i64::MAX, 2 * SCALE), i64::MAX);
}

#[test]
fn ids_increase_from_zero() {
    let mut s = Simulator::new();
    assert_eq!(s.add_component(ComponentType::Step), Ok(0));
    assert_eq!(s.add_memory(), Ok(1));
    assert_eq!(s.add_delay(2), Ok(2));
    assert_eq!(s.components()[2], Component { id: 2, component_type: ComponentType::Delay(2) });
}

#[test]
fn step_into_scope_is_sampled_with_one_step_lag() {
    let mut s = Simulator::new();
    let a = s.add_component(ComponentType::Step).unwrap();
    let b = s.add_component(ComponentType::Scope).unwrap();
    s.connect_components(a, b).unwrap();
    let run = s.simulate(4, &Config::standard()).unwrap();
    assert_eq!(run.samples, vec![0, SCALE, SCALE, SCALE]);
}

#[test]
fn two_producers_sum_not_average() {
    let mut s = Simulator::new();
    let a = s.add_component(ComponentType::Step).unwrap();
    let b = s.add_component(ComponentType::Step).unwrap();
    let c = s.add_component(ComponentType::Scope).unwrap();
    s.connect_components(a, c).unwrap();
    s.connect_components(b, c).unwrap();
    let run = s.simulate(3, &Config::standard()).unwrap();
    assert_eq!(run.samples, vec![0, 2 * SCALE, 2 * SCALE]);
}

#[test]
fn producers_come_first_in_the_order() {
    let mut s = Simulator::new();
    let scope = s.add_component(ComponentType::Scope).unwrap();
    let tf = s.add_component(ComponentType::TransferFunction).unwrap();
    let step = s.add_component(ComponentType::Step).unwrap();
    s.connect_components(tf, scope).unwrap();
    s.connect_components(step, tf).unwrap();
    let run = s.simulate(1, &Config::standard()).unwrap();
    assert_eq!(run.order, vec![2, 1, 0]);
}

#[test]
fn integrator_chain_in_a_run() {
    let mut s = Simulator::new();
    let step = s.add_component(ComponentType::Step).unwrap();
    let int = s.add_discrete_integrator().unwrap();
    let scope = s.add_component(ComponentType::Scope).unwrap();
    s.connect_components(step, int).unwrap();
    s.connect_components(int, scope).unwrap();
    let run = s.simulate(100, &Config::standard()).unwrap();
    assert_eq!(run.samples.len(), 100);
    assert_eq!(run.samples[2], SCALE / 10);
    assert_eq!(run.samples[99], 98 * SCALE / 10);
}

#[test]
fn several_scopes_sample_in_order() {
    let mut s = Simulator::new();
    let step = s.add_component(ComponentType::Step).unwrap();
    let s1 = s.add_component(ComponentType::Scope).unwrap();
    let s2 = s.add_component(ComponentType::Scope).unwrap();
    s.connect_components(step, s1).unwrap();
    s.connect_components(step, s2).unwrap();
    let run = s.simulate(2, &Config::standard()).unwrap();
    assert_eq!(run.samples, vec![0, 0, SCALE, SCALE]);
}

#[test]
fn connect_unknown_id_is_reported_and_changes_nothing() {
    let mut s = Simulator::new();
    let a = s.add_component(ComponentType::Step).unwrap();
    let b = s.add_component(ComponentType::Scope).unwrap();
    s.connect_components(a, b).unwrap();
    assert_eq!(s.connect_components(a, 99), Err(SimError::UnknownComponent(99)));
    assert_eq!(s.connect_components(77, b), Err(SimError::UnknownComponent(77)));
    assert_eq!(s.connect_components(77, 99), Err(SimError::UnknownComponent(77)));
    assert_eq!(s.connections().clone(), vec![(0, 1)]);
    assert_eq!(s.components().len(), 2);
}

#[test]
fn instantaneous_cycle_is_detected() {
    let mut s = Simulator::new();
    let a = s.add_component(ComponentType::TransferFunction).unwrap();
    let b = s.add_component(ComponentType::TransferFunction).unwrap();
    s.connect_components(a, b).unwrap();
    s.connect_components(b, a).unwrap();
    match s.simulate(5, &Config::standard()) {
        Err(SimError::CycleDetected(id)) => assert!(id == a || id == b),
        _ => panic!("expected a cycle"),
    }
}

#[test]
fn self_loop_is_a_cycle() {
    let mut s = Simulator::new();
    let a = s.add_discrete_integrator().unwrap();
    s.connect_components(a, a).unwrap();
    assert!(matches!(s.simulate(1, &Config::standard()), Err(SimError::CycleDetected(0))));
}

#[test]
fn cycle_through_memory_runs() {
    let mut s = Simulator::new();
    let step = s.add_component(ComponentType::Step).unwrap();
    let int = s.add_discrete_integrator().unwrap();
    let mem = s.add_memory().unwrap();
    let scope = s.add_component(ComponentType::Scope).unwrap();
    s.connect_components(step, int).unwrap();
    s.connect_components(int, mem).unwrap();
    s.connect_components(mem, int).unwrap();
    s.connect_components(int, scope).unwrap();
    let run = s.simulate(3, &Config::standard()).unwrap();
    assert_eq!(run.samples.len(), 3);
    assert_eq!(run.samples[0], 0);
}

#[test]
fn non_positive_time_step_is_rejected() {
    let s = Simulator::new();
    let cfg = Config::new(0, 100_000, SCALE);
    assert!(matches!(s.simulate(3, &cfg), Err(SimError::InvalidParameter)));
}

#[test]
fn removal_keeps_other_ids_and_drops_edges() {
    let mut s = Simulator::new();
    let a = s.add_component(ComponentType::Step).unwrap();
    let b = s.add_memory().unwrap();
    let c = s.add_component(ComponentType::Scope).unwrap();
    s.connect_components(a, b).unwrap();
    s.connect_components(b, c).unwrap();
    s.connect_components(a, c).unwrap();
    assert_eq!(s.remove_component(b), Ok(()));
    assert_eq!(s.components().iter().map(|k| k.id).collect::<Vec<_>>(), vec![0, 2]);
    assert_eq!(s.connections().clone(), vec![(0, 1)]);
    assert_eq!(s.remove_component(b), Err(SimError::UnknownComponent(1)));
    assert_eq!(s.add_difference(), Ok(3));
}

#[test]
fn schedule_orders_against_insertion() {
    let comps = vec![
        Component { id: 0, component_type: ComponentType::Scope },
        Component { id: 1, component_type: ComponentType::Step },
    ];
    assert_eq!(schedule(&comps, &vec![(1, 0)]), Ok(vec![1, 0]));
    let memo = vec![
        Component { id: 0, component_type: ComponentType::Memory },
        Component { id: 1, component_type: ComponentType::Memory },
    ];
    assert!(schedule(&memo, &vec![(0, 1), (1, 0)]).is_ok());
}

#[test]
fn pid_and_derivative_adders() {
    let mut s = Simulator::new();
    assert_eq!(s.add_pid_controller(SCALE, 0, 0), Ok(0));
    assert_eq!(s.add_discrete_derivative(), Ok(1));
    assert_eq!(s.components()[0].component_type, ComponentType::PIDController { kp: SCALE, ki: 0, kd: 0 });
}
