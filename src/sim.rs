//! The simulator: the signal graph of blocks and the stepping of a run.
use vstd::prelude::*;
use crate::block::{
    BlockState, Component, ComponentType, Config, StateModel, fits, initial_model, rule,
};
use crate::fixed::{self, clamp};
use crate::schedule::{depends, edges_in_range, instant_edges, is_topo_order, on_cycle, schedule, toposort_of};

verus! {

/// What can go wrong when editing or running a diagram.
#[derive(Clone, Copy, Debug, PartialEq, Eq, Structural)]
pub enum SimError {
    /// A cycle without a delaying block runs through the block with this id.
    CycleDetected(u64),
    /// No block has this id.
    UnknownComponent(u64),
    /// The time step of a run is not positive.
    InvalidParameter,
    /// Every identifier has been handed out.
    IdsExhausted,
}

/// The outcome of a run: the evaluation order used in every step (positions
/// in the block list) and the samples recorded by scopes, step by step.
pub struct Run {
    pub order: Vec<usize>,
    pub samples: Vec<i64>,
}

/// A sequence of machine integers read as mathematical integers.
pub open spec fn ints(s: Seq<i64>) -> Seq<int> {
    Seq::new(s.len(), |i: int| s[i] as int)
}

/// The abstract states of a list of blocks.
pub open spec fn views(s: Seq<BlockState>) -> Seq<StateModel> {
    Seq::new(s.len(), |i: int| s[i].view())
}

/// The summed input of block `j`: the previous outputs of its producers,
/// one term per edge, added with saturation in edge order.
pub open spec fn input_sum(edges: Seq<(usize, usize)>, j: usize, prev: Seq<int>) -> int
    decreases edges.len(),
{
    if edges.len() == 0 {
        0
    } else {
        let s = input_sum(edges.drop_last(), j, prev);
        if edges.last().1 == j {
            clamp(s + prev[edges.last().0 as int])
        } else {
            s
        }
    }
}

/// Outputs and states after one step, from the outputs and states before it.
pub open spec fn step_model(
    comps: Seq<Component>,
    edges: Seq<(usize, usize)>,
    cfg: Config,
    prev: Seq<int>,
    sts: Seq<StateModel>,
) -> (Seq<int>, Seq<StateModel>) {
    (
        Seq::new(comps.len(), |j: int| rule(comps[j].component_type, input_sum(edges, j as usize, prev), sts[j], cfg).0),
        Seq::new(comps.len(), |j: int| rule(comps[j].component_type, input_sum(edges, j as usize, prev), sts[j], cfg).1),
    )
}

/// Outputs and states after `t` steps; every output starts at 0.0.
pub open spec fn state_after(comps: Seq<Component>, edges: Seq<(usize, usize)>, cfg: Config, t: nat) -> (
    Seq<int>,
    Seq<StateModel>,
)
    decreases t,
{
    if t == 0 {
        (Seq::new(comps.len(), |j: int| 0int), Seq::new(comps.len(), |j: int| initial_model(comps[j].component_type)))
    } else {
        let (prev, sts) = state_after(comps, edges, cfg, (t - 1) as nat);
        step_model(comps, edges, cfg, prev, sts)
    }
}

/// The samples of one step: the input of each scope, in evaluation order.
pub open spec fn samples_of(comps: Seq<Component>, edges: Seq<(usize, usize)>, order: Seq<usize>, prev: Seq<int>) -> Seq<int>
    decreases order.len(),
{
    if order.len() == 0 {
        Seq::empty()
    } else {
        let s = samples_of(comps, edges, order.drop_last(), prev);
        if comps[order.last() as int].component_type is Scope {
            s.push(input_sum(edges, order.last(), prev))
        } else {
            s
        }
    }
}

/// The samples of the first `t` steps.
pub open spec fn trace(comps: Seq<Component>, edges: Seq<(usize, usize)>, cfg: Config, order: Seq<usize>, t: nat) -> Seq<int>
    decreases t,
{
    if t == 0 {
        Seq::empty()
    } else {
        trace(comps, edges, cfg, order, (t - 1) as nat) + samples_of(
            comps,
            edges,
            order,
            state_after(comps, edges, cfg, (t - 1) as nat).0,
        )
    }
}

/// Identifiers increase along the list and lie below the next one to hand
/// out; edges join listed blocks.
pub open spec fn well_formed(comps: Seq<Component>, edges: Seq<(usize, usize)>, next_id: u64) -> bool {
    &&& forall|i: int, k: int| 0 <= i < k < comps.len() ==> comps[i].id < comps[k].id
    &&& forall|i: int| 0 <= i < comps.len() ==> #[trigger] comps[i].id < next_id
    &&& edges_in_range(comps.len(), edges)
}

/// Some block has identifier `id`.
pub open spec fn has_id(comps: Seq<Component>, id: u64) -> bool {
    exists|i: int| 0 <= i < comps.len() && #[trigger] comps[i].id == id
}

/// A block diagram: blocks with unique identifiers and the signal edges
/// between them, kept as positions in the block list.
pub struct Simulator {
    components: Vec<Component>,
    edges: Vec<(usize, usize)>,
    next_id: u64,
}

impl Simulator {
    /// The blocks, in the order they were added.
    pub closed spec fn comps(&self) -> Seq<Component> {
        self.components@
    }

    /// The signal edges, producer first, in the order they were made.
    pub closed spec fn edge_list(&self) -> Seq<(usize, usize)> {
        self.edges@
    }

    /// The identifier that the next block receives.
    pub closed spec fn next(&self) -> u64 {
        self.next_id
    }

    pub open spec fn wf(&self) -> bool {
        well_formed(self.comps(), self.edge_list(), self.next())
    }

    /// An empty diagram.
    pub fn new() -> (r: Simulator)
        ensures
            r.wf(),
            r.comps() == Seq::<Component>::empty(),
            r.edge_list() == Seq::<(usize, usize)>::empty(),
            r.next() == 0,
    {
        Simulator { components: Vec::new(), edges: Vec::new(), next_id: 0 }
    }

    /// The blocks, for display.
    pub fn components(&self) -> (r: &Vec<Component>)
        ensures
            r@ == self.comps(),
    {
        &self.components
    }

    /// The signal edges as positions in the block list, for display.
    pub fn connections(&self) -> (r: &Vec<(usize, usize)>)
        ensures
            r@ == self.edge_list(),
    {
        &self.edges
    }

    /// The position of the block with identifier `id`.
    pub fn find(&self, id: u64) -> (r: Option<usize>)
        ensures
            match r {
                Some(i) => i < self.comps().len() && self.comps()[i as int].id == id,
                None => !has_id(self.comps(), id),
            },
    {
        let mut i: usize = 0;
        while i < self.components.len()
            invariant
                i <= self.components@.len(),
                forall|k: int| 0 <= k < i ==> self.components@[k].id != id,
            decreases self.components@.len() - i,
        {
            if self.components[i].id == id {
                return Some(i);
            }
            i = i + 1;
        }
        None
    }

    /// Adds a block and returns its identifier, the next one in sequence.
    pub fn add_component(&mut self, component_type: ComponentType) -> (r: Result<u64, SimError>)
        requires
            old(self).wf(),
        ensures
            final(self).wf(),
            final(self).edge_list() == old(self).edge_list(),
            match r {
                Ok(id) => old(self).next() < u64::MAX && id == old(self).next() && final(self).next() == id + 1
                    && final(self).comps() == old(self).comps().push(Component { id, component_type }),
                Err(e) => e == SimError::IdsExhausted && old(self).next() == u64::MAX
                    && final(self).comps() == old(self).comps() && final(self).next() == old(self).next(),
            },
    {
        if self.next_id == u64::MAX {
            return Err(SimError::IdsExhausted);
        }
        let id = self.next_id;
        self.next_id = id + 1;
        self.components.push(Component { id, component_type });
        Ok(id)
    }

    /// Feeds the output of block `from` into block `to`. An unknown
    /// identifier is reported and leaves the diagram as it was.
    pub fn connect_components(&mut self, from: u64, to: u64) -> (r: Result<(), SimError>)
        requires
            old(self).wf(),
        ensures
            final(self).wf(),
            final(self).comps() == old(self).comps(),
            final(self).next() == old(self).next(),
            match r {
                Ok(()) => has_id(old(self).comps(), from) && has_id(old(self).comps(), to)
                    && exists|i: usize, j: usize|
                    i < old(self).comps().len() && j < old(self).comps().len()
                        && old(self).comps()[i as int].id == from && old(self).comps()[j as int].id == to
                        && final(self).edge_list() == old(self).edge_list().push((i, j)),
                Err(e) => final(self).edge_list() == old(self).edge_list() && if !has_id(old(self).comps(), from) {
                    e == SimError::UnknownComponent(from)
                } else {
                    !has_id(old(self).comps(), to) && e == SimError::UnknownComponent(to)
                },
            },
    {
        let i = match self.find(from) {
            Some(i) => i,
            None => return Err(SimError::UnknownComponent(from)),
        };
        let j = match self.find(to) {
            Some(j) => j,
            None => return Err(SimError::UnknownComponent(to)),
        };
        self.edges.push((i, j));
        proof {
            assert(self.edges@.last() == (i, j));
        }
        Ok(())
    }
}

} // verus!

verus! {

fn zeros(n: usize) -> (r: Vec<i64>)
    ensures
        r@.len() == n,
        ints(r@) == Seq::new(n as nat, |j: int| 0int),
{
    let mut r: Vec<i64> = Vec::new();
    let mut k: usize = 0;
    while k < n
        invariant
            k <= n,
            r@.len() == k,
            forall|j: int| 0 <= j < k ==> r@[j] == 0,
        decreases n - k,
    {
        r.push(0);
        k = k + 1;
    }
    assert(ints(r@) =~= Seq::new(n as nat, |j: int| 0int));
    r
}

impl Simulator {
    /// The summed input of the block at position `j`, from the outputs of
    /// the previous step.
    pub fn get_input_value(&self, j: usize, prev: &Vec<i64>) -> (r: i64)
        requires
            self.wf(),
            prev@.len() == self.comps().len(),
        ensures
            r as int == input_sum(self.edge_list(), j, ints(prev@)),
    {
        let mut sum: i64 = 0;
        let mut k: usize = 0;
        while k < self.edges.len()
            invariant
                self.wf(),
                prev@.len() == self.comps().len(),
                k <= self.edges@.len(),
                sum as int == input_sum(self.edges@.take(k as int), j, ints(prev@)),
            decreases self.edges@.len() - k,
        {
            let (a, b) = self.edges[k];
            proof {
                assert(self.edges@.take(k as int + 1).drop_last() =~= self.edges@.take(k as int));
            }
            if b == j {
                sum = fixed::add(sum, prev[a]);
            }
            k = k + 1;
        }
        assert(self.edges@.take(k as int) =~= self.edges@);
        sum
    }

    fn initial_states(&self) -> (r: Vec<BlockState>)
        ensures
            r@.len() == self.comps().len(),
            views(r@) == Seq::new(self.comps().len(), |j: int| initial_model(self.comps()[j].component_type)),
            forall|j: int| 0 <= j < r@.len() ==> (#[trigger] r@[j]).wf(),
    {
        let mut r: Vec<BlockState> = Vec::new();
        let mut k: usize = 0;
        while k < self.components.len()
            invariant
                k <= self.components@.len(),
                r@.len() == k,
                forall|j: int| 0 <= j < k ==> (#[trigger] r@[j]).wf() && r@[j].view() == initial_model(self.components@[j].component_type),
            decreases self.components@.len() - k,
        {
            r.push(BlockState::initial(self.components[k].component_type));
            k = k + 1;
        }
        assert(views(r@) =~= Seq::new(self.comps().len(), |j: int| initial_model(self.comps()[j].component_type)));
        r
    }

    /// Runs the diagram for `steps` steps. Each step evaluates every block
    /// once, in an order where each producer comes before the blocks that
    /// read its output in the same step; inputs are the previous step's
    /// outputs. A cycle without a delaying block is reported, as is a time
    /// step that is not positive.
    pub fn simulate(&self, steps: usize, cfg: &Config) -> (r: Result<Run, SimError>)
        requires
            self.wf(),
        ensures
            match r {
                Ok(run) => cfg.dt > 0
                    && toposort_of(self.comps().len(), instant_edges(self.comps(), self.edge_list())) == Ok::<Seq<usize>, usize>(run.order@)
                    && is_topo_order(self.comps().len(), depends(self.comps(), self.edge_list()), run.order@)
                    && ints(run.samples@) == trace(self.comps(), self.edge_list(), *cfg, run.order@, steps as nat),
                Err(SimError::InvalidParameter) => cfg.dt <= 0,
                Err(SimError::CycleDetected(id)) => cfg.dt > 0 && exists|k: usize|
                    k < self.comps().len() && self.comps()[k as int].id == id
                        && toposort_of(self.comps().len(), instant_edges(self.comps(), self.edge_list())) == Err::<Seq<usize>, usize>(k)
                        && on_cycle(depends(self.comps(), self.edge_list()), k),
                Err(_) => false,
            },
    {
        if cfg.dt <= 0 {
            return Err(SimError::InvalidParameter);
        }
        let order = match schedule(&self.components, &self.edges) {
            Ok(order) => order,
            Err(k) => return Err(SimError::CycleDetected(self.components[k].id)),
        };
        let n = self.components.len();
        let ghost comps = self.comps();
        let ghost edges = self.edge_list();
        let mut states = self.initial_states();
        let mut prev = zeros(n);
        let mut samples: Vec<i64> = Vec::new();
        let mut t: usize = 0;
        proof {
            assert forall|j: int| 0 <= j < n implies (#[trigger] states@[j]).wf() && fits(comps[j].component_type, states@[j].view()) by {
                assert(views(states@)[j] == states@[j].view());
                crate::block::lemma_initial_fits(comps[j].component_type);
            }
            assert(ints(samples@) =~= Seq::<int>::empty());
        }
        while t < steps
            invariant
                self.wf(),
                comps == self.comps(),
                edges == self.edge_list(),
                n == comps.len(),
                cfg.dt > 0,
                is_topo_order(n as nat, depends(comps, edges), order@),
                t <= steps,
                prev@.len() == n,
                states@.len() == n,
                ints(prev@) == state_after(comps, edges, *cfg, t as nat).0,
                views(states@) == state_after(comps, edges, *cfg, t as nat).1,
                forall|j: int| 0 <= j < n ==> (#[trigger] states@[j]).wf() && fits(comps[j].component_type, states@[j].view()),
                ints(samples@) == trace(comps, edges, *cfg, order@, t as nat),
            decreases steps - t,
        {
            let ghost sts = views(states@);
            let ghost before = samples@;
            let ghost next = step_model(comps, edges, *cfg, ints(prev@), sts);
            proof {
                lemma_state_after_fits(comps, edges, *cfg, t as nat);
            }
            let mut cur = zeros(n);
            let mut pos: usize = 0;
            while pos < n
                invariant
                    self.wf(),
                    comps == self.comps(),
                    edges == self.edge_list(),
                    n == comps.len(),
                    cfg.dt > 0,
                    is_topo_order(n as nat, depends(comps, edges), order@),
                    pos <= n,
                    prev@.len() == n,
                    cur@.len() == n,
                    states@.len() == n,
                    sts.len() == n,
                    next == step_model(comps, edges, *cfg, ints(prev@), sts),
                    forall|j: int| 0 <= j < n ==> (#[trigger] states@[j]).wf() && fits(comps[j].component_type, states@[j].view()),
                    forall|j: int| 0 <= j < n ==> fits(comps[j].component_type, #[trigger] sts[j]),
                    forall|k: int| 0 <= k < pos ==> cur@[#[trigger] order@[k] as int] == next.0[order@[k] as int]
                        && states@[order@[k] as int].view() == next.1[order@[k] as int],
                    forall|j: int| 0 <= j < n && !order@.take(pos as int).contains(j as usize) ==> #[trigger] states@[j].view() == sts[j],
                    ints(samples@) == ints(before) + samples_of(comps, edges, order@.take(pos as int), ints(prev@)),
                decreases n - pos,
            {
                let j = order[pos];
                assert(!order@.take(pos as int).contains(j)) by {
                    if order@.take(pos as int).contains(j) {
                        let k = choose|k: int| 0 <= k < pos && order@.take(pos as int)[k] == j;
                        assert(order@[k] == order@[pos as int]);
                    }
                }
                let input = self.get_input_value(j, &prev);
                let kind = self.components[j].component_type;
                let mut st = BlockState::Stateless;
                states.set_and_swap(j, &mut st);
                let out = crate::block::update(kind, input, &mut st, cfg);
                states.set_and_swap(j, &mut st);
                cur.set(j, out);
                let ghost s0 = samples@;
                if matches!(kind, ComponentType::Scope) {
                    samples.push(input);
                }
                proof {
                    let tk = order@.take(pos as int + 1);
                    assert(tk.drop_last() =~= order@.take(pos as int));
                    assert(tk.last() == j);
                    let sp = samples_of(comps, edges, order@.take(pos as int), ints(prev@));
                    if kind is Scope {
                        assert(ints(samples@) =~= ints(s0).push(input as int));
                        assert(ints(samples@) =~= ints(before) + sp.push(input as int));
                    } else {
                        assert(samples@ == s0);
                    }
                    assert(ints(samples@) =~= ints(before) + samples_of(comps, edges, tk, ints(prev@)));
                    assert forall|j2: int| 0 <= j2 < n && !tk.contains(j2 as usize) implies #[trigger] states@[j2].view() == sts[j2] by {
                        if order@.take(pos as int).contains(j2 as usize) {
                            let k = choose|k: int| 0 <= k < pos && order@.take(pos as int)[k] == j2 as usize;
                            assert(tk[k] == j2 as usize);
                        }
                        assert(j2 != j as int) by {
                            assert(tk[pos as int] == j);
                        }
                    }
                    assert forall|k: int| 0 <= k < pos + 1 implies cur@[#[trigger] order@[k] as int] == next.0[order@[k] as int]
                        && states@[order@[k] as int].view() == next.1[order@[k] as int] by {
                        if k < pos {
                            assert(order@[k] != j) by {
                                assert(order@.no_duplicates());
                            }
                        }
                    }
                }
                pos = pos + 1;
            }
            proof {
                assert(order@.take(n as int) =~= order@);
                assert forall|j: int| 0 <= j < n implies cur@[j] == next.0[j] && states@[j].view() == next.1[j] by {
                    assert(order@.contains(j as usize));
                    let k = choose|k: int| 0 <= k < order@.len() && order@[k] == j as usize;
                    assert(cur@[order@[k] as int] == next.0[order@[k] as int]);
                }
                assert(ints(cur@) =~= next.0);
                assert(views(states@) =~= next.1);
                assert(state_after(comps, edges, *cfg, (t + 1) as nat) == next);
                assert(trace(comps, edges, *cfg, order@, (t + 1) as nat) == ints(before) + samples_of(comps, edges, order@, ints(prev@)));
            }
            prev = cur;
            t = t + 1;
        }
        Ok(Run { order, samples })
    }
}

/// Every state of the model fits the kind of its block.
proof fn lemma_state_after_fits(comps: Seq<Component>, edges: Seq<(usize, usize)>, cfg: Config, t: nat)
    ensures
        state_after(comps, edges, cfg, t).0.len() == comps.len(),
        state_after(comps, edges, cfg, t).1.len() == comps.len(),
        forall|j: int| 0 <= j < comps.len() ==> fits(comps[j].component_type, #[trigger] state_after(comps, edges, cfg, t).1[j]),
    decreases t,
{
    if t > 0 {
        lemma_state_after_fits(comps, edges, cfg, (t - 1) as nat);
        let (prev, sts) = state_after(comps, edges, cfg, (t - 1) as nat);
        assert forall|j: int| 0 <= j < comps.len() implies fits(comps[j].component_type, #[trigger] state_after(comps, edges, cfg, t).1[j]) by {
            crate::block::lemma_rule_fits(comps[j].component_type, input_sum(edges, j as usize, prev), sts[j], cfg);
        }
    } else {
        assert forall|j: int| 0 <= j < comps.len() implies fits(comps[j].component_type, #[trigger] state_after(comps, edges, cfg, t).1[j]) by {
            crate::block::lemma_initial_fits(comps[j].component_type);
        }
    }
}

} // verus!

verus! {

/// Position `x` once position `i` is taken out of the list.
pub open spec fn shift_down(x: usize, i: usize) -> usize {
    if x > i {
        (x - 1) as usize
    } else {
        x
    }
}

/// The edges that remain once block `i` is removed, renumbered to the
/// shortened block list, in their old order.
pub open spec fn edges_without(edges: Seq<(usize, usize)>, i: usize) -> Seq<(usize, usize)>
    decreases edges.len(),
{
    if edges.len() == 0 {
        Seq::empty()
    } else {
        let rest = edges_without(edges.drop_last(), i);
        let (a, b) = edges.last();
        if a == i || b == i {
            rest
        } else {
            rest.push((shift_down(a, i), shift_down(b, i)))
        }
    }
}

proof fn lemma_edges_without_in_range(edges: Seq<(usize, usize)>, i: usize, n: nat)
    requires
        i < n,
        edges_in_range(n, edges),
    ensures
        edges_in_range((n - 1) as nat, edges_without(edges, i)),
    decreases edges.len(),
{
    if edges.len() > 0 {
        lemma_edges_without_in_range(edges.drop_last(), i, n);
        assert(edges.last() == edges[edges.len() - 1]);
    }
}

impl Simulator {
    /// Adds a delay of `delay_steps` steps; a delay of 0 passes its input through.
    pub fn add_delay(&mut self, delay_steps: usize) -> (r: Result<u64, SimError>)
        requires
            old(self).wf(),
        ensures
            final(self).wf(),
            final(self).edge_list() == old(self).edge_list(),
            match r {
                Ok(id) => old(self).next() < u64::MAX && id == old(self).next() && final(self).next() == id + 1
                    && final(self).comps() == old(self).comps().push(Component { id, component_type: ComponentType::Delay(delay_steps) }),
                Err(e) => e == SimError::IdsExhausted && old(self).next() == u64::MAX
                    && final(self).comps() == old(self).comps() && final(self).next() == old(self).next(),
            },
    {
        self.add_component(ComponentType::Delay(delay_steps))
    }

    /// Adds a difference block.
    pub fn add_difference(&mut self) -> (r: Result<u64, SimError>)
        requires
            old(self).wf(),
        ensures
            final(self).wf(),
            final(self).edge_list() == old(self).edge_list(),
            match r {
                Ok(id) => old(self).next() < u64::MAX && id == old(self).next() && final(self).next() == id + 1
                    && final(self).comps() == old(self).comps().push(Component { id, component_type: ComponentType::Difference }),
                Err(e) => e == SimError::IdsExhausted && old(self).next() == u64::MAX
                    && final(self).comps() == old(self).comps() && final(self).next() == old(self).next(),
            },
    {
        self.add_component(ComponentType::Difference)
    }

    /// Adds a discrete derivative block.
    pub fn add_discrete_derivative(&mut self) -> (r: Result<u64, SimError>)
        requires
            old(self).wf(),
        ensures
            final(self).wf(),
            final(self).edge_list() == old(self).edge_list(),
            match r {
                Ok(id) => old(self).next() < u64::MAX && id == old(self).next() && final(self).next() == id + 1
                    && final(self).comps() == old(self).comps().push(Component { id, component_type: ComponentType::DiscreteDerivative }),
                Err(e) => e == SimError::IdsExhausted && old(self).next() == u64::MAX
                    && final(self).comps() == old(self).comps() && final(self).next() == old(self).next(),
            },
    {
        self.add_component(ComponentType::DiscreteDerivative)
    }

    /// Adds a discrete integrator block.
    pub fn add_discrete_integrator(&mut self) -> (r: Result<u64, SimError>)
        requires
            old(self).wf(),
        ensures
            final(self).wf(),
            final(self).edge_list() == old(self).edge_list(),
            match r {
                Ok(id) => old(self).next() < u64::MAX && id == old(self).next() && final(self).next() == id + 1
                    && final(self).comps() == old(self).comps().push(Component { id, component_type: ComponentType::DiscreteIntegrator }),
                Err(e) => e == SimError::IdsExhausted && old(self).next() == u64::MAX
                    && final(self).comps() == old(self).comps() && final(self).next() == old(self).next(),
            },
    {
        self.add_component(ComponentType::DiscreteIntegrator)
    }

    /// Adds a PID controller with fixed-point gains.
    pub fn add_pid_controller(&mut self, kp: i64, ki: i64, kd: i64) -> (r: Result<u64, SimError>)
        requires
            old(self).wf(),
        ensures
            final(self).wf(),
            final(self).edge_list() == old(self).edge_list(),
            match r {
                Ok(id) => old(self).next() < u64::MAX && id == old(self).next() && final(self).next() == id + 1
                    && final(self).comps() == old(self).comps().push(
                    Component { id, component_type: ComponentType::PIDController { kp, ki, kd } },
                ),
                Err(e) => e == SimError::IdsExhausted && old(self).next() == u64::MAX
                    && final(self).comps() == old(self).comps() && final(self).next() == old(self).next(),
            },
    {
        self.add_component(ComponentType::PIDController { kp, ki, kd })
    }

    /// Adds a memory block.
    pub fn add_memory(&mut self) -> (r: Result<u64, SimError>)
        requires
            old(self).wf(),
        ensures
            final(self).wf(),
            final(self).edge_list() == old(self).edge_list(),
            match r {
                Ok(id) => old(self).next() < u64::MAX && id == old(self).next() && final(self).next() == id + 1
                    && final(self).comps() == old(self).comps().push(Component { id, component_type: ComponentType::Memory }),
                Err(e) => e == SimError::IdsExhausted && old(self).next() == u64::MAX
                    && final(self).comps() == old(self).comps() && final(self).next() == old(self).next(),
            },
    {
        self.add_component(ComponentType::Memory)
    }

    /// Removes the block with identifier `id` and every edge that touches
    /// it; the other blocks keep their identifiers.
    pub fn remove_component(&mut self, id: u64) -> (r: Result<(), SimError>)
        requires
            old(self).wf(),
        ensures
            final(self).wf(),
            final(self).next() == old(self).next(),
            match r {
                Ok(()) => exists|i: usize|
                    i < old(self).comps().len() && old(self).comps()[i as int].id == id
                        && final(self).comps() == old(self).comps().remove(i as int)
                        && final(self).edge_list() == edges_without(old(self).edge_list(), i),
                Err(e) => e == SimError::UnknownComponent(id) && !has_id(old(self).comps(), id)
                    && final(self).comps() == old(self).comps() && final(self).edge_list() == old(self).edge_list(),
            },
    {
        let i = match self.find(id) {
            Some(i) => i,
            None => return Err(SimError::UnknownComponent(id)),
        };
        let ghost old_edges = self.edges@;
        let ghost n = self.components@.len();
        self.components.remove(i);
        let mut kept: Vec<(usize, usize)> = Vec::new();
        let mut k: usize = 0;
        while k < self.edges.len()
            invariant
                self.edges@ == old_edges,
                edges_in_range(n, old_edges),
                i < n,
                k <= old_edges.len(),
                kept@ == edges_without(old_edges.take(k as int), i),
            decreases old_edges.len() - k,
        {
            let (a, b) = self.edges[k];
            proof {
                assert(old_edges.take(k as int + 1).drop_last() =~= old_edges.take(k as int));
            }
            if a != i && b != i {
                let na: usize = if a > i { a - 1 } else { a };
                let nb: usize = if b > i { b - 1 } else { b };
                kept.push((na, nb));
            }
            k = k + 1;
        }
        assert(old_edges.take(k as int) =~= old_edges);
        proof {
            lemma_edges_without_in_range(old_edges, i, n);
        }
        self.edges = kept;
        Ok(())
    }
}

} // verus!
