use vstd::prelude::*;
use rand::rngs::StdRng;
use crate::action_space::{ActionSpace, ConfigurationError, Interval, UNIT, in_box, projection};
use crate::hotelling_agent::{HotellingAgent, HotellingAgentType, drawn, fixed_start};
use crate::partition::{
    GeometryError, distinct, left_edge, lemma_partition_coverage, partition_line, rewards, right_edge,
    share, sum,
};

verus! {

/// Dimensionality of the space the agents compete in.
#[derive(Debug, Clone, Copy, PartialEq, Eq, Structural)]
pub enum Dimensions {
    OneD,
    TwoD,
}

impl Dimensions {
    pub open spec fn spec_count(self) -> nat {
        match self {
            Dimensions::OneD => 1,
            Dimensions::TwoD => 2,
        }
    }

    /// Number of coordinates of a position.
    pub fn count(&self) -> (r: u32)
        ensures
            r == self.spec_count(),
    {
        match self {
            Dimensions::OneD => 1,
            Dimensions::TwoD => 2,
        }
    }
}

/// Failure of one round; the simulation is left as it was.
#[derive(Debug, Clone, Copy, PartialEq, Eq, Structural)]
pub enum RoundError {
    /// The agent with this id could not move.
    AgentMoveFailed { agent_id: u32 },
    /// The space could not be split among the new positions.
    PartitionFailed(GeometryError),
}

/// What a completed round hands back: the committed positions, one row per
/// agent in agent order, and on the line each agent's payoff in half grid
/// units. Planar cells are not measured here.
#[derive(Debug, Clone)]
pub struct StepOutcome {
    pub positions: Vec<Vec<u32>>,
    pub rewards: Option<Vec<u64>>,
}

/// Whether the agent's position fits the action space, so that it can move.
pub open spec fn can_move(a: HotellingAgent, space: Seq<Interval>) -> bool {
    a.position@.len() == space.len()
}

/// The positions the agents move to, in agent order.
pub open spec fn planned(agents: Seq<HotellingAgent>, space: Seq<Interval>) -> Seq<Seq<u32>> {
    Seq::new(agents.len(), |i: int| projection(agents[i].position@, space))
}

/// Whether agent `i` is the first one that cannot move.
pub open spec fn first_stuck(agents: Seq<HotellingAgent>, space: Seq<Interval>, i: int) -> bool {
    &&& 0 <= i < agents.len()
    &&& !can_move(agents[i], space)
    &&& forall|j: int| 0 <= j < i ==> can_move(#[trigger] agents[j], space)
}

/// Whether every agent can move.
pub open spec fn all_can_move(agents: Seq<HotellingAgent>, space: Seq<Interval>) -> bool {
    forall|j: int| 0 <= j < agents.len() ==> can_move(#[trigger] agents[j], space)
}

/// Whether no two rows coincide.
pub open spec fn distinct_rows(rows: Seq<Seq<u32>>) -> bool {
    forall|i: int, j: int| 0 <= i < j < rows.len() ==> rows[i] != rows[j]
}

/// The first coordinate of every row.
pub open spec fn first_column(rows: Seq<Seq<u32>>) -> Seq<u32> {
    Seq::new(rows.len(), |i: int| rows[i][0])
}

/// Whether every agent stands inside the action space.
pub open spec fn positions_in_space(agents: Seq<HotellingAgent>, space: Seq<Interval>) -> bool {
    forall|i: int| 0 <= i < agents.len() ==> in_box((#[trigger] agents[i]).position@, space)
}

/// Whether `s` is a fresh run of `num_agents` agents with the fixed start:
/// round 0, the unit cube, agent `i` with id `i`, every coordinate at one unit.
pub open spec fn fixed_run(s: Simulation, num_agents: u32, dim: Dimensions) -> bool {
    &&& s.wf()
    &&& s.round == 0
    &&& s.num_agents == num_agents
    &&& s.dim == dim
    &&& s.action_space@ == Seq::new(dim.spec_count(), |k: int| Interval { lo: 0, hi: UNIT })
    &&& forall|i: int|
        0 <= i < num_agents ==> {
            &&& (#[trigger] s.agents@[i]).id == i
            &&& s.agents@[i].position@ == fixed_start(dim.spec_count())
            &&& s.agents@[i].velocity@ == fixed_start(dim.spec_count())
        }
}

/// Whether two runs hold the same state, agent by agent.
pub open spec fn same_state(a: Simulation, b: Simulation) -> bool {
    &&& a.dim == b.dim
    &&& a.round == b.round
    &&& a.num_agents == b.num_agents
    &&& a.action_space@ == b.action_space@
    &&& a.agents@.len() == b.agents@.len()
    &&& forall|i: int|
        0 <= i < a.agents@.len() ==> {
            &&& (#[trigger] a.agents@[i]).id == b.agents@[i].id
            &&& a.agents@[i].position@ == b.agents@[i].position@
            &&& a.agents@[i].velocity@ == b.agents@[i].velocity@
        }
}

/// Two fresh runs with the fixed start and the same population and dimension
/// hold the same state, so a step plans the same moves for both, and hence
/// commits the same positions and pays the same rewards.
pub proof fn lemma_fixed_runs_agree(s1: Simulation, s2: Simulation, num_agents: u32, dim: Dimensions)
    requires
        fixed_run(s1, num_agents, dim),
        fixed_run(s2, num_agents, dim),
    ensures
        same_state(s1, s2),
        planned(s1.agents@, s1.action_space@) == planned(s2.agents@, s2.action_space@),
        all_can_move(s1.agents@, s1.action_space@) == all_can_move(s2.agents@, s2.action_space@),
{
    let p1 = planned(s1.agents@, s1.action_space@);
    let p2 = planned(s2.agents@, s2.action_space@);
    assert(p1 =~= p2);
}

/// Whether two points are the same.
fn same_point(a: &Vec<u32>, b: &Vec<u32>) -> (r: bool)
    ensures
        r == (a@ == b@),
{
    if a.len() != b.len() {
        return false;
    }
    let mut k: usize = 0;
    while k < a.len()
        invariant
            k <= a@.len(),
            a@.len() == b@.len(),
            forall|j: int| 0 <= j < k ==> a@[j] == b@[j],
        decreases a@.len() - k,
    {
        if a[k] != b[k] {
            return false;
        }
        k += 1;
    }
    assert(a@ =~= b@);
    true
}

/// Whether no two rows coincide.
pub fn rows_distinct(rows: &Vec<Vec<u32>>) -> (r: bool)
    ensures
        r == (forall|i: int, j: int| 0 <= i < j < rows@.len() ==> rows@[i]@ != rows@[j]@),
{
    let mut i: usize = 0;
    while i < rows.len()
        invariant
            i <= rows@.len(),
            forall|a: int, b: int| 0 <= a < i && a < b < rows@.len() ==> rows@[a]@ != rows@[b]@,
        decreases rows@.len() - i,
    {
        let mut j: usize = i + 1;
        while j < rows.len()
            invariant
                i < rows@.len(),
                i + 1 <= j <= rows@.len(),
                forall|a: int, b: int| 0 <= a < i && a < b < rows@.len() ==> rows@[a]@ != rows@[b]@,
                forall|b: int| i < b < j ==> rows@[i as int]@ != rows@[b]@,
            decreases rows@.len() - j,
        {
            if same_point(&rows[i], &rows[j]) {
                return false;
            }
            j += 1;
        }
        i += 1;
    }
    true
}

/// The first coordinate of every row.
fn column_zero(rows: &Vec<Vec<u32>>) -> (r: Vec<u32>)
    requires
        forall|i: int| 0 <= i < rows@.len() ==> (#[trigger] rows@[i])@.len() >= 1,
    ensures
        r@ == Seq::new(rows@.len(), |i: int| rows@[i]@[0]),
{
    let mut r: Vec<u32> = Vec::new();
    let mut i: usize = 0;
    while i < rows.len()
        invariant
            i <= rows@.len(),
            forall|k: int| 0 <= k < rows@.len() ==> (#[trigger] rows@[k])@.len() >= 1,
            r@ == Seq::new(i as nat, |k: int| rows@[k]@[0]),
        decreases rows@.len() - i,
    {
        r.push(rows[i][0]);
        i += 1;
        assert(r@ =~= Seq::new(i as nat, |k: int| rows@[k]@[0]));
    }
    r
}

/// A copy of a point.
fn copy_point(p: &Vec<u32>) -> (r: Vec<u32>)
    ensures
        r@ == p@,
{
    let r = p.clone();
    assert(r@ =~= p@);
    r
}

/// On rows of one coordinate, distinct rows are distinct first coordinates.
proof fn lemma_single_column(rows: Seq<Seq<u32>>)
    requires
        forall|i: int| 0 <= i < rows.len() ==> (#[trigger] rows[i]).len() == 1,
    ensures
        distinct(first_column(rows)) == distinct_rows(rows),
{
    let xs = first_column(rows);
    if distinct_rows(rows) {
        assert forall|i: int, j: int| 0 <= i < j < xs.len() implies xs[i] != xs[j] by {
            if xs[i] == xs[j] {
                assert(rows[i] =~= rows[j]);
            }
        }
    }
    if distinct(xs) {
        assert forall|i: int, j: int| 0 <= i < j < rows.len() implies rows[i] != rows[j] by {
            assert(xs[i] != xs[j]);
        }
    }
}

/// The state of a run: the round counter, the agents in index order and the
/// shared action space.
#[derive(Debug, Clone)]
pub struct Simulation {
    pub dim: Dimensions,
    pub round: u32,
    pub num_agents: u32,
    pub agents: Vec<HotellingAgent>,
    pub action_space: ActionSpace,
}

impl Simulation {
    /// The shape every run keeps: a well-formed action space of the run's
    /// dimension, and one agent per member of the population.
    pub open spec fn wf(&self) -> bool {
        &&& self.action_space.wf()
        &&& self.action_space@.len() == self.dim.spec_count()
        &&& self.agents@.len() == self.num_agents
    }

    /// A run of `num_agents` agents of kind `agent_type` in the unit square or
    /// segment, at round 0. Agent `i` has id `i`.
    pub fn new(
        num_agents: u32,
        dim: Dimensions,
        agent_type: HotellingAgentType,
        entropy: &mut Option<StdRng>,
    ) -> (r: Result<Simulation, ConfigurationError>)
        ensures
            agent_type == HotellingAgentType::Unknown ==> r == Err::<Simulation, ConfigurationError>(
                ConfigurationError::UnsupportedStrategy,
            ),
            agent_type == HotellingAgentType::Random && (*old(entropy)) is None ==> r == Err::<
                Simulation,
                ConfigurationError,
            >(ConfigurationError::MissingEntropySource),
            agent_type == HotellingAgentType::Simple || (agent_type == HotellingAgentType::Random
                && (*old(entropy)) is Some) <==> r is Ok,
            r matches Ok(s) ==> {
                &&& s.wf()
                &&& s.round == 0
                &&& s.num_agents == num_agents
                &&& s.dim == dim
                &&& s.action_space@ == Seq::new(
                    dim.spec_count(),
                    |k: int| Interval { lo: 0, hi: UNIT },
                )
                &&& positions_in_space(s.agents@, s.action_space@)
                &&& forall|i: int| 0 <= i < num_agents ==> (#[trigger] s.agents@[i]).id == i
                &&& agent_type == HotellingAgentType::Simple ==> fixed_run(s, num_agents, dim)
                &&& agent_type == HotellingAgentType::Random ==> forall|i: int|
                    0 <= i < num_agents ==> drawn((#[trigger] s.agents@[i]).position@, dim.spec_count())
                        && drawn(s.agents@[i].velocity@, dim.spec_count())
            },
            (*final(entropy)) is Some <==> (*old(entropy)) is Some,
    {
        if agent_type == HotellingAgentType::Unknown {
            return Err(ConfigurationError::UnsupportedStrategy);
        }
        if agent_type == HotellingAgentType::Random && entropy.is_none() {
            return Err(ConfigurationError::MissingEntropySource);
        }
        let d = dim.count();
        let action_space = ActionSpace::unit_cube(d);
        let mut agents: Vec<HotellingAgent> = Vec::new();
        let mut i: u32 = 0;
        while i < num_agents
            invariant
                i <= num_agents,
                d == dim.spec_count(),
                agents@.len() == i,
                agent_type != HotellingAgentType::Unknown,
                agent_type == HotellingAgentType::Random ==> (*entropy) is Some,
                (*entropy) is Some <==> (*old(entropy)) is Some,
                action_space.wf(),
                action_space@ == Seq::new(d as nat, |k: int| Interval { lo: 0, hi: UNIT }),
                forall|k: int| 0 <= k < i ==> (#[trigger] agents@[k]).id == k,
                positions_in_space(agents@, action_space@),
                agent_type == HotellingAgentType::Simple ==> forall|k: int|
                    0 <= k < i ==> (#[trigger] agents@[k]).position@ == fixed_start(d as nat)
                        && agents@[k].velocity@ == fixed_start(d as nat),
                agent_type == HotellingAgentType::Random ==> forall|k: int|
                    0 <= k < i ==> drawn((#[trigger] agents@[k]).position@, d as nat) && drawn(
                        agents@[k].velocity@,
                        d as nat,
                    ),
            decreases num_agents - i,
        {
            let a = match HotellingAgent::new(i, d, agent_type, entropy) {
                Ok(a) => a,
                Err(e) => return Err(e),
            };
            assert(in_box(a.position@, action_space@));
            agents.push(a);
            i += 1;
        }
        Ok(Simulation { dim, round: 0, num_agents, agents, action_space })
    }

    /// Plays one round: every agent moves from the same snapshot of positions,
    /// the space is split among the new positions, and on the line each agent
    /// is paid the length of its cell. Either all new positions are committed
    /// and the round counter advances, or nothing changes.
    pub fn step(&mut self) -> (r: Result<StepOutcome, RoundError>)
        requires
            old(self).wf(),
            old(self).round < u32::MAX,
        ensures
            ({
                let agents = old(self).agents@;
                let space = old(self).action_space@;
                let plan = planned(agents, space);
                &&& !all_can_move(agents, space) ==> (r matches Err(RoundError::AgentMoveFailed {
                    agent_id,
                }) && exists|i: int| first_stuck(agents, space, i) && agent_id == agents[i].id)
                &&& all_can_move(agents, space) && agents.len() == 0 ==> r == Err::<
                    StepOutcome,
                    RoundError,
                >(RoundError::PartitionFailed(GeometryError::EmptyPointSet))
                &&& all_can_move(agents, space) && agents.len() > 0 && !distinct_rows(plan) ==> r
                    == Err::<StepOutcome, RoundError>(
                    RoundError::PartitionFailed(GeometryError::DuplicatePoints),
                )
                &&& all_can_move(agents, space) && agents.len() > 0 && distinct_rows(plan) ==> r is Ok
                &&& r is Err ==> *final(self) == *old(self)
                &&& r matches Ok(out) ==> {
                    &&& final(self).wf()
                    &&& final(self).round == old(self).round + 1
                    &&& final(self).dim == old(self).dim
                    &&& final(self).num_agents == old(self).num_agents
                    &&& final(self).action_space@ == space
                    &&& final(self).agents@.len() == agents.len()
                    &&& out.positions@.len() == agents.len()
                    &&& forall|i: int|
                        0 <= i < agents.len() ==> {
                            &&& (#[trigger] final(self).agents@[i]).id == agents[i].id
                            &&& final(self).agents@[i].position@ == plan[i]
                            &&& final(self).agents@[i].velocity@ == agents[i].velocity@
                            &&& out.positions@[i]@ == plan[i]
                        }
                    &&& positions_in_space(final(self).agents@, space)
                    &&& old(self).dim == Dimensions::OneD ==> (out.rewards matches Some(w) && w@.len()
                        == agents.len() && forall|i: int|
                        0 <= i < agents.len() ==> #[trigger] w@[i] == share(
                            first_column(plan),
                            agents.len(),
                            i,
                            space[0],
                        ) && sum(w@) == 2 * (space[0].hi - space[0].lo))
                    &&& old(self).dim == Dimensions::TwoD ==> out.rewards is None
                }
            }),
    {
        let ghost agents = self.agents@;
        let ghost space = self.action_space@;
        let ghost plan = planned(agents, space);
        let snapshot = self.get_matrix();
        let mut actions: Vec<Vec<u32>> = Vec::new();
        let mut i: usize = 0;
        while i < self.agents.len()
            invariant
                *self == *old(self),
                agents == self.agents@,
                space == self.action_space@,
                plan == planned(agents, space),
                plan.len() == agents.len(),
                self.action_space.wf(),
                i <= agents.len(),
                actions@.len() == i,
                forall|k: int| 0 <= k < i ==> can_move(#[trigger] agents[k], space),
                forall|k: int| 0 <= k < i ==> (#[trigger] actions@[k])@ == plan[k],
                forall|k: int| 0 <= k < i ==> in_box((#[trigger] actions@[k])@, space),
            decreases agents.len() - i,
        {
            match self.agents[i].make_move(&snapshot, &self.action_space) {
                Ok(p) => actions.push(p),
                Err(_) => {
                    assert(first_stuck(agents, space, i as int));
                    return Err(RoundError::AgentMoveFailed { agent_id: self.agents[i].id });
                },
            }
            i += 1;
        }
        assert(all_can_move(agents, space));
        if actions.len() == 0 {
            return Err(RoundError::PartitionFailed(GeometryError::EmptyPointSet));
        }
        let ghost rows = Seq::new(actions@.len(), |k: int| actions@[k]@);
        assert(rows =~= plan);
        let paid = match self.dim {
            Dimensions::OneD => {
                let xs = column_zero(&actions);
                let region = self.action_space.intervals[0];
                assert(xs@ =~= first_column(plan));
                proof {
                    assert forall|k: int| 0 <= k < plan.len() implies (#[trigger] plan[k]).len() == 1 by {
                        assert(actions@[k]@ == plan[k]);
                    }
                    lemma_single_column(plan);
                    assert forall|k: int| 0 <= k < xs@.len() implies region.holds(#[trigger] xs@[k]) by {
                        assert(in_box(actions@[k]@, space));
                        assert(space[0] == region);
                    }
                }
                match partition_line(&xs, region) {
                    Ok(cells) => {
                        let w = rewards(&cells);
                        proof {
                            assert forall|k: int| 0 <= k < w@.len() implies #[trigger] w@[k] == share(
                                first_column(plan),
                                plan.len(),
                                k,
                                space[0],
                            ) by {
                                assert(cells@[k].left == left_edge(xs@, xs@.len(), k, region));
                                assert(cells@[k].right == right_edge(xs@, xs@.len(), k, region));
                            }
                            lemma_partition_coverage(xs@, region, w@);
                        }
                        Some(w)
                    },
                    Err(e) => {
                        return Err(RoundError::PartitionFailed(e));
                    },
                }
            },
            Dimensions::TwoD => {
                if !rows_distinct(&actions) {
                    assert(!distinct_rows(plan));
                    return Err(RoundError::PartitionFailed(GeometryError::DuplicatePoints));
                }
                None
            },
        };
        let mut moved: Vec<HotellingAgent> = Vec::new();
        let mut j: usize = 0;
        while j < self.agents.len()
            invariant
                *self == *old(self),
                agents == self.agents@,
                space == self.action_space@,
                actions@.len() == agents.len(),
                plan.len() == agents.len(),
                j <= agents.len(),
                moved@.len() == j,
                forall|k: int| 0 <= k < agents.len() ==> (#[trigger] actions@[k])@ == plan[k],
                forall|k: int| 0 <= k < agents.len() ==> in_box((#[trigger] actions@[k])@, space),
                forall|k: int|
                    0 <= k < j ==> {
                        &&& (#[trigger] moved@[k]).id == agents[k].id
                        &&& moved@[k].position@ == plan[k]
                        &&& moved@[k].velocity@ == agents[k].velocity@
                    },
                positions_in_space(moved@, space),
            decreases agents.len() - j,
        {
            let a = HotellingAgent {
                id: self.agents[j].id,
                position: copy_point(&actions[j]),
                velocity: copy_point(&self.agents[j].velocity),
            };
            moved.push(a);
            j += 1;
        }
        self.agents = moved;
        self.round = self.round + 1;
        Ok(StepOutcome { positions: actions, rewards: paid })
    }

    /// The agents' positions, one row per agent in index order.
    pub fn get_matrix(&self) -> (r: Vec<Vec<u32>>)
        ensures
            r@.len() == self.agents@.len(),
            forall|i: int| 0 <= i < self.agents@.len() ==> (#[trigger] r@[i])@ == self.agents@[i].position@,
    {
        let mut r: Vec<Vec<u32>> = Vec::new();
        let mut i: usize = 0;
        while i < self.agents.len()
            invariant
                i <= self.agents@.len(),
                r@.len() == i,
                forall|k: int| 0 <= k < i ==> (#[trigger] r@[k])@ == self.agents@[k].position@,
            decreases self.agents@.len() - i,
        {
            r.push(copy_point(&self.agents[i].position));
            i += 1;
        }
        r
    }
}

} // verus!
