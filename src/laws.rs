//! Properties of blocks and diagrams, proved over the model.
use vstd::prelude::*;
use crate::block::{ComponentType, Config, StateModel, initial_model, rule};
use crate::fixed::{SCALE, clamp};
use crate::schedule::{depends, edges_in_range, is_topo_order, on_cycle};
use crate::block::Component;
use crate::sim::input_sum;

verus! {

/// The outputs of a lone block of kind `kind` fed `inputs`, one per step,
/// and its state afterwards.
pub open spec fn drive(kind: ComponentType, inputs: Seq<int>, cfg: Config) -> (Seq<int>, StateModel)
    decreases inputs.len(),
{
    if inputs.len() == 0 {
        (Seq::empty(), initial_model(kind))
    } else {
        let (outs, st) = drive(kind, inputs.drop_last(), cfg);
        let (o, next) = rule(kind, inputs.last(), st, cfg);
        (outs.push(o), next)
    }
}

/// `k` copies of `c`.
pub open spec fn constant(k: nat, c: int) -> Seq<int> {
    Seq::new(k, |i: int| c)
}

/// A step block outputs 1.0 whatever its input, state and parameters.
pub proof fn step_is_constant(input: int, st: StateModel, cfg: Config)
    ensures
        rule(ComponentType::Step, input, st, cfg).0 == SCALE,
{
}

/// An integrator fed 1.0 on each of `k` steps outputs `(i + 1) * dt` on
/// step `i`, as long as that stays within range.
pub proof fn integrator_ramp(k: nat, cfg: Config)
    requires
        cfg.dt > 0,
        k * cfg.dt <= i64::MAX,
    ensures
        drive(ComponentType::DiscreteIntegrator, constant(k, SCALE as int), cfg).0.len() == k,
        forall|i: int| 0 <= i < k ==> #[trigger] drive(ComponentType::DiscreteIntegrator, constant(k, SCALE as int), cfg).0[i]
            == (i + 1) * cfg.dt,
        drive(ComponentType::DiscreteIntegrator, constant(k, SCALE as int), cfg).1 == StateModel::Last(k * cfg.dt),
    decreases k,
{
    let ins = constant(k, SCALE as int);
    if k > 0 {
        let kp = (k - 1) as nat;
        assert(kp * cfg.dt <= k * cfg.dt) by (nonlinear_arith)
            requires
                kp + 1 == k,
                cfg.dt > 0,
        ;
        integrator_ramp(kp, cfg);
        assert(ins.drop_last() =~= constant(kp, SCALE as int));
        assert((SCALE as int * cfg.dt) / (SCALE as int) == cfg.dt) by (nonlinear_arith);
        assert(kp * cfg.dt + cfg.dt == k * cfg.dt) by (nonlinear_arith)
            requires
                kp + 1 == k,
        ;
        assert(kp * cfg.dt >= 0) by (nonlinear_arith)
            requires
                cfg.dt > 0,
        ;
        let (outs, st) = drive(ComponentType::DiscreteIntegrator, ins.drop_last(), cfg);
        assert(st == StateModel::Last(kp * cfg.dt));
        assert(crate::fixed::mul_spec(SCALE as int, cfg.dt as int) == cfg.dt);
        assert(rule(ComponentType::DiscreteIntegrator, SCALE as int, st, cfg).0 == k * cfg.dt);
    } else {
        assert(0 * cfg.dt == 0);
    }
}

/// A difference block fed a constant outputs 0.0 on every step, the first
/// included.
pub proof fn difference_of_constant(k: nat, c: i64, cfg: Config)
    ensures
        drive(ComponentType::Difference, constant(k, c as int), cfg).0 == Seq::new(k, |i: int| 0int),
        k > 0 ==> drive(ComponentType::Difference, constant(k, c as int), cfg).1 == StateModel::Last(c as int),
    decreases k,
{
    if k > 0 {
        difference_of_constant((k - 1) as nat, c, cfg);
        assert(constant(k, c as int).drop_last() =~= constant((k - 1) as nat, c as int));
        assert(drive(ComponentType::Difference, constant(k, c as int), cfg).0 =~= Seq::new(k, |i: int| 0int));
    }
}

/// A memory block outputs on each step after the first the input of the
/// step before; on the first step it passes its input through.
pub proof fn memory_holds_previous_input(inputs: Seq<int>, cfg: Config)
    ensures
        drive(ComponentType::Memory, inputs, cfg).0.len() == inputs.len(),
        inputs.len() > 0 ==> drive(ComponentType::Memory, inputs, cfg).0[0] == inputs[0],
        forall|t: int| 0 < t < inputs.len() ==> #[trigger] drive(ComponentType::Memory, inputs, cfg).0[t] == inputs[t - 1],
        inputs.len() > 0 ==> drive(ComponentType::Memory, inputs, cfg).1 == StateModel::Last(inputs.last()),
    decreases inputs.len(),
{
    if inputs.len() > 0 {
        memory_holds_previous_input(inputs.drop_last(), cfg);
    }
}

/// A delay of `n` steps outputs 0.0 on its first `n` steps and then the
/// input of `n` steps before.
pub proof fn delay_shifts(n: usize, inputs: Seq<int>, cfg: Config)
    ensures
        drive(ComponentType::Delay(n), inputs, cfg).0.len() == inputs.len(),
        forall|t: int| 0 <= t < inputs.len() ==> #[trigger] drive(ComponentType::Delay(n), inputs, cfg).0[t]
            == if t >= n { inputs[t - n] } else { 0 },
        n > 0 ==> drive(ComponentType::Delay(n), inputs, cfg).1 == StateModel::Queue(
            Seq::new(n as nat, |i: int| if inputs.len() - n + i >= 0 { inputs[inputs.len() - n + i] } else { 0 }),
        ),
        n == 0 ==> drive(ComponentType::Delay(n), inputs, cfg).1 == initial_model(ComponentType::Delay(n)),
    decreases inputs.len(),
{
    let t = inputs.len() as int;
    if t == 0 {
        assert(Seq::new(n as nat, |i: int| 0int) =~= Seq::new(
            n as nat,
            |i: int| if inputs.len() - n + i >= 0 { inputs[inputs.len() - n + i] } else { 0 },
        ));
    } else {
        let pre = inputs.drop_last();
        delay_shifts(n, pre, cfg);
        if n > 0 {
            let q = Seq::new(n as nat, |i: int| if pre.len() - n + i >= 0 { pre[pre.len() - n + i] } else { 0 });
            assert(q.drop_first().push(inputs.last()) =~= Seq::new(
                n as nat,
                |i: int| if inputs.len() - n + i >= 0 { inputs[inputs.len() - n + i] } else { 0 },
            ));
        }
    }
}

/// Two producers feeding one consumer add up: its input is the saturated
/// sum of their previous outputs, not their average.
pub proof fn fan_in_sums(a: usize, b: usize, j: usize, prev: Seq<int>)
    requires
        a < prev.len(),
        b < prev.len(),
        i64::MIN <= prev[a as int] <= i64::MAX,
    ensures
        input_sum(seq![(a, j), (b, j)], j, prev) == clamp(prev[a as int] + prev[b as int]),
{
    let e = seq![(a, j), (b, j)];
    assert(e.drop_last() =~= seq![(a, j)]);
    assert(seq![(a, j)].drop_last() =~= Seq::<(usize, usize)>::empty());
    assert(input_sum(Seq::<(usize, usize)>::empty(), j, prev) == 0);
    assert(input_sum(seq![(a, j)], j, prev) == prev[a as int]);
}

/// A diagram with a cycle that no delaying block breaks has no evaluation
/// order, so a run of it cannot succeed.
pub proof fn cycle_has_no_order(comps: Seq<Component>, edges: Seq<(usize, usize)>, order: Seq<usize>, k: usize)
    requires
        edges_in_range(comps.len(), edges),
        on_cycle(depends(comps, edges), k),
    ensures
        !is_topo_order(comps.len(), depends(comps, edges), order),
{
    let deps = depends(comps, edges);
    if is_topo_order(comps.len(), deps, order) {
        let p = choose|p: Seq<usize>|
            p.len() >= 2 && p[0] == k && p.last() == k && forall|i: int|
                0 <= i < p.len() - 1 ==> #[trigger] deps.contains((p[i], p[i + 1]));
        let pos = |x: usize| choose|i: int| 0 <= i < order.len() && order[i] == x;
        let ps = Seq::new(p.len(), |i: int| pos(p[i]));
        assert forall|i: int| 0 <= i < ps.len() - 1 implies #[trigger] ps[i] < ps[i + 1] by {
            assert(deps.contains((p[i], p[i + 1])));
            let m = choose|m: int| 0 <= m < edges.len() && edges[m] == (p[i], p[i + 1]);
            assert(edges[m].0 < comps.len() && edges[m].1 < comps.len());
            assert(order.contains(p[i]));
            assert(order.contains(p[i + 1]));
        }
        lemma_chain_increases(ps);
        assert(ps[0] < ps.last());
    }
}

proof fn lemma_chain_increases(s: Seq<int>)
    requires
        s.len() >= 2,
        forall|r: int| 0 <= r < s.len() - 1 ==> #[trigger] s[r] < s[r + 1],
    ensures
        s[0] < s.last(),
    decreases s.len(),
{
    if s.len() > 2 {
        lemma_chain_increases(s.drop_last());
    }
}

} // verus!
