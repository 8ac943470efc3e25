//! Block kinds, their private state and their per-step update rules.
use vstd::prelude::*;
use crate::fixed::{self, SCALE, clamp, mul_spec, div_spec};

verus! {

/// The closed set of block kinds. Gains and the PID coefficients are
/// fixed-point values (see [`crate::fixed`]).
#[derive(Clone, Copy, Debug, PartialEq, Eq, Structural)]
pub enum ComponentType {
    /// Constant source of 1.0.
    Step,
    /// First-order low-pass: moves a fraction `alpha` towards its input.
    TransferFunction,
    /// Sink that records the signal flowing into it.
    Scope,
    /// Outputs the input of `n` steps ago, 0.0 before that.
    Delay(usize),
    /// Current input minus previous input.
    Difference,
    /// Difference divided by the time step.
    DiscreteDerivative,
    /// Running sum of input times the time step.
    DiscreteIntegrator,
    /// PID controller acting on the error `reference - input`.
    PIDController { kp: i64, ki: i64, kd: i64 },
    /// Unit delay: outputs the previous input.
    Memory,
}

/// Parameters of a run, all fixed-point: the time step `dt` (positive), the
/// smoothing coefficient `alpha` of a transfer function and the reference
/// that PID controllers track.
#[derive(Clone, Copy, Debug, PartialEq, Eq, Structural)]
pub struct Config {
    pub dt: i64,
    pub alpha: i64,
    pub reference: i64,
}

/// The abstract state of a block between two steps.
pub ghost enum StateModel {
    /// The block keeps nothing.
    Stateless,
    /// A block that keeps its previous input, before its first step.
    Fresh,
    /// One carried value: previous output, previous input or running sum.
    Last(int),
    /// Previous error and running integral of a PID controller.
    Pid(int, int),
    /// The inputs still to be released by a delay, oldest first.
    Queue(Seq<int>),
}

/// Whether a block ignores its input of the current step, so that a cycle
/// through it needs no ordering within a step.
pub open spec fn breaks_cycles(kind: ComponentType) -> bool {
    match kind {
        ComponentType::Memory => true,
        ComponentType::Delay(n) => n > 0,
        _ => false,
    }
}

/// The state a block starts a run with.
pub open spec fn initial_model(kind: ComponentType) -> StateModel {
    match kind {
        ComponentType::Step | ComponentType::Scope => StateModel::Stateless,
        ComponentType::TransferFunction | ComponentType::DiscreteIntegrator => StateModel::Last(0),
        ComponentType::Difference | ComponentType::DiscreteDerivative | ComponentType::Memory => StateModel::Fresh,
        ComponentType::PIDController { .. } => StateModel::Pid(0, 0),
        ComponentType::Delay(n) => StateModel::Queue(Seq::new(n as nat, |i: int| 0int)),
    }
}

/// The carried value of a state, or `default` where there is none.
pub open spec fn last_or(st: StateModel, default: int) -> int {
    match st {
        StateModel::Last(v) => v,
        _ => default,
    }
}

/// Whether `st` is a state that a block of kind `kind` can hold.
pub open spec fn fits(kind: ComponentType, st: StateModel) -> bool {
    match kind {
        ComponentType::Step | ComponentType::Scope => st is Stateless,
        ComponentType::TransferFunction | ComponentType::DiscreteIntegrator => st is Last,
        ComponentType::Difference | ComponentType::DiscreteDerivative | ComponentType::Memory =>
            st is Fresh || st is Last,
        ComponentType::PIDController { .. } => st is Pid,
        ComponentType::Delay(n) => st is Queue && st->Queue_0.len() == n,
    }
}

/// One step of a block: from its summed input and its state to its output
/// and its next state. A scope has no output and contributes 0.0 downstream.
pub open spec fn rule(kind: ComponentType, input: int, st: StateModel, cfg: Config) -> (int, StateModel) {
    match kind {
        ComponentType::Step => (SCALE as int, st),
        ComponentType::Scope => (0, st),
        ComponentType::TransferFunction => {
            let prev = last_or(st, 0);
            let out = clamp(prev + mul_spec(cfg.alpha as int, clamp(input - prev)));
            (out, StateModel::Last(out))
        },
        ComponentType::Difference => {
            let prev = last_or(st, input);
            (clamp(input - prev), StateModel::Last(input))
        },
        ComponentType::DiscreteDerivative => {
            let prev = last_or(st, input);
            (div_spec(clamp(input - prev), cfg.dt as int), StateModel::Last(input))
        },
        ComponentType::DiscreteIntegrator => {
            let out = clamp(last_or(st, 0) + mul_spec(input, cfg.dt as int));
            (out, StateModel::Last(out))
        },
        ComponentType::Memory => (last_or(st, input), StateModel::Last(input)),
        ComponentType::PIDController { kp, ki, kd } => {
            let (prev_error, prev_integral) = match st {
                StateModel::Pid(e, i) => (e, i),
                _ => (0, 0),
            };
            let error = clamp(cfg.reference - input);
            let integral = clamp(prev_integral + mul_spec(error, cfg.dt as int));
            let derivative = div_spec(clamp(error - prev_error), cfg.dt as int);
            let out = clamp(
                clamp(mul_spec(kp as int, error) + mul_spec(ki as int, integral))
                    + mul_spec(kd as int, derivative),
            );
            (out, StateModel::Pid(error, integral))
        },
        ComponentType::Delay(n) => {
            if n == 0 {
                (input, st)
            } else {
                let q = st->Queue_0;
                (q[0], StateModel::Queue(q.drop_first().push(input)))
            }
        },
    }
}

/// The private state of one block during a run.
pub enum BlockState {
    Stateless,
    Fresh,
    Last(i64),
    Pid { prev_error: i64, integral: i64 },
    /// A ring buffer of pending inputs; the oldest sits at `head`.
    Ring { buf: Vec<i64>, head: usize },
}

/// Position in a ring buffer of length `n` that lies `i` places after `head`.
pub open spec fn ring_index(head: int, i: int, n: int) -> int {
    if head + i < n {
        head + i
    } else {
        head + i - n
    }
}

impl BlockState {
    /// The state as an abstract value; a ring reads from its head onwards.
    pub open spec fn view(&self) -> StateModel {
        match self {
            BlockState::Stateless => StateModel::Stateless,
            BlockState::Fresh => StateModel::Fresh,
            BlockState::Last(v) => StateModel::Last(*v as int),
            BlockState::Pid { prev_error, integral } => StateModel::Pid(*prev_error as int, *integral as int),
            BlockState::Ring { buf, head } => StateModel::Queue(
                Seq::new(buf@.len(), |i: int| buf@[ring_index(*head as int, i, buf@.len() as int)] as int),
            ),
        }
    }

    /// A ring's head lies inside its buffer, unless the buffer is empty.
    pub open spec fn wf(&self) -> bool {
        match self {
            BlockState::Ring { buf, head } => *head < buf@.len() || (*head == 0 && buf@.len() == 0),
            _ => true,
        }
    }

    /// The state a block of kind `kind` starts a run with.
    pub fn initial(kind: ComponentType) -> (r: BlockState)
        ensures
            r.wf(),
            r.view() == initial_model(kind),
    {
        match kind {
            ComponentType::Step | ComponentType::Scope => BlockState::Stateless,
            ComponentType::TransferFunction | ComponentType::DiscreteIntegrator => BlockState::Last(0),
            ComponentType::Difference | ComponentType::DiscreteDerivative | ComponentType::Memory => BlockState::Fresh,
            ComponentType::PIDController { .. } => BlockState::Pid { prev_error: 0, integral: 0 },
            ComponentType::Delay(n) => {
                let mut buf: Vec<i64> = Vec::new();
                let mut k: usize = 0;
                while k < n
                    invariant
                        k <= n,
                        buf@.len() == k,
                        forall|j: int| 0 <= j < k ==> buf@[j] == 0,
                    decreases n - k,
                {
                    buf.push(0);
                    k = k + 1;
                }
                let r = BlockState::Ring { buf, head: 0 };
                proof {
                    if let StateModel::Queue(q) = r.view() {
                        assert(q =~= Seq::new(n as nat, |i: int| 0int));
                    }
                }
                r
            },
        }
    }
}

fn last_or_exec(st: &BlockState, default: i64) -> (r: i64)
    ensures
        r == last_or(st.view(), default as int),
{
    match st {
        BlockState::Last(v) => *v,
        _ => default,
    }
}

/// Advances one block by one step: returns its output and replaces its state.
pub fn update(kind: ComponentType, input: i64, state: &mut BlockState, cfg: &Config) -> (out: i64)
    requires
        cfg.dt > 0,
        old(state).wf(),
        fits(kind, old(state).view()),
    ensures
        final(state).wf(),
        fits(kind, final(state).view()),
        (out as int, final(state).view()) == rule(kind, input as int, old(state).view(), *cfg),
{
    match kind {
        ComponentType::Step => SCALE,
        ComponentType::Scope => 0,
        ComponentType::TransferFunction => {
            let prev = last_or_exec(state, 0);
            let out = fixed::add(prev, fixed::mul(cfg.alpha, fixed::sub(input, prev)));
            *state = BlockState::Last(out);
            out
        },
        ComponentType::Difference => {
            let prev = last_or_exec(state, input);
            *state = BlockState::Last(input);
            fixed::sub(input, prev)
        },
        ComponentType::DiscreteDerivative => {
            let prev = last_or_exec(state, input);
            *state = BlockState::Last(input);
            fixed::div(fixed::sub(input, prev), cfg.dt)
        },
        ComponentType::DiscreteIntegrator => {
            let prev = last_or_exec(state, 0);
            let out = fixed::add(prev, fixed::mul(input, cfg.dt));
            *state = BlockState::Last(out);
            out
        },
        ComponentType::Memory => {
            let prev = last_or_exec(state, input);
            *state = BlockState::Last(input);
            prev
        },
        ComponentType::PIDController { kp, ki, kd } => {
            let (prev_error, prev_integral) = match state {
                BlockState::Pid { prev_error, integral } => (*prev_error, *integral),
                _ => (0, 0),
            };
            let error = fixed::sub(cfg.reference, input);
            let integral = fixed::add(prev_integral, fixed::mul(error, cfg.dt));
            let derivative = fixed::div(fixed::sub(error, prev_error), cfg.dt);
            let out = fixed::add(
                fixed::add(fixed::mul(kp, error), fixed::mul(ki, integral)),
                fixed::mul(kd, derivative),
            );
            *state = BlockState::Pid { prev_error: error, integral };
            out
        },
        ComponentType::Delay(n) => {
            if n == 0 {
                input
            } else {
                ring_shift(state, input)
            }
        },
    }
}

/// Releases the oldest input of a non-empty ring and stores `input` in its place.
fn ring_shift(state: &mut BlockState, input: i64) -> (out: i64)
    requires
        old(state).wf(),
        *old(state) is Ring,
        old(state)->buf@.len() > 0,
    ensures
        final(state).wf(),
        *final(state) is Ring,
        final(state)->buf@.len() == old(state)->buf@.len(),
        out as int == old(state).view()->Queue_0[0],
        final(state).view() == StateModel::Queue(old(state).view()->Queue_0.drop_first().push(input as int)),
{
    let ghost q = state.view()->Queue_0;
    match state {
        BlockState::Ring { buf, head } => {
            let n = buf.len();
            let h = *head;
            let out = buf[h];
            buf.set(h, input);
            let nh: usize = if h + 1 == n { 0 } else { h + 1 };
            *head = nh;
            proof {
                let nq = state.view()->Queue_0;
                assert(nq =~= q.drop_first().push(input as int));
            }
            out
        },
        _ => 0,
    }
}

} // verus!

verus! {

/// A block of the diagram: a stable identifier and its kind.
#[derive(Clone, Copy, Debug, PartialEq, Eq, Structural)]
pub struct Component {
    pub id: u64,
    pub component_type: ComponentType,
}

impl ComponentType {
    /// Whether this kind ignores its input of the current step.
    pub fn is_cycle_breaker(&self) -> (r: bool)
        ensures
            r == breaks_cycles(*self),
    {
        match self {
            ComponentType::Memory => true,
            ComponentType::Delay(n) => *n > 0,
            _ => false,
        }
    }
}

} // verus!

verus! {

/// A block's state keeps fitting its kind.
pub proof fn lemma_rule_fits(kind: ComponentType, input: int, st: StateModel, cfg: Config)
    requires
        fits(kind, st),
    ensures
        fits(kind, rule(kind, input, st, cfg).1),
{
}

/// A block's initial state fits its kind.
pub proof fn lemma_initial_fits(kind: ComponentType)
    ensures
        fits(kind, initial_model(kind)),
{
}

} // verus!

verus! {

impl Config {
    /// A configuration from a time step, a smoothing coefficient and a reference.
    pub fn new(dt: i64, alpha: i64, reference: i64) -> (r: Config)
        ensures
            r == (Config { dt, alpha, reference }),
    {
        Config { dt, alpha, reference }
    }

    /// Time step 0.1, smoothing 0.1 and reference 1.0.
    pub fn standard() -> (r: Config)
        ensures
            r == (Config { dt: 100_000, alpha: 100_000, reference: SCALE }),
    {
        Config { dt: 100_000, alpha: 100_000, reference: SCALE }
    }
}

} // verus!
