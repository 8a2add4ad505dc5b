use vstd::prelude::*;
use rand::rngs::StdRng;
use rand::Rng;
use crate::action_space::{ActionSpace, ConfigurationError, UNIT, in_box, projection};

verus! {

#[verifier::external_type_specification]
#[verifier::external_body]
pub struct ExStdRng(StdRng);

/// Relies on rand's `Rng::gen_range` over `0..bound`: the value drawn lies in
/// that range (it panics only on an empty range, which `requires` rules out).
#[verifier::external_body]
fn draw_below(rng: &mut StdRng, bound: u32) -> (r: u32)
    requires
        bound > 0,
    ensures
        r < bound,
{
    rng.gen_range(0..bound)
}

/// How an agent sets its first position and velocity.
#[derive(Debug, Clone, Copy, PartialEq, Eq, Structural)]
pub enum HotellingAgentType {
    /// Every coordinate starts at one unit.
    Simple,
    /// Every coordinate is drawn uniformly from `[0, 1)`.
    Random,
    /// A sentinel that never yields an agent.
    Unknown,
}

/// Failure of an agent's own operations.
#[derive(Debug, Clone, Copy, PartialEq, Eq, Structural)]
pub enum SynthesisError {
    /// A stochastic strategy found no entropy source.
    UnexpectedNoneType,
    /// The strategy cannot produce an agent.
    InvalidAgentType,
    /// The agent's position has another dimension than the action space.
    ShapeMismatch,
}

/// The coordinates of a fixed start: `dim` copies of one unit.
pub open spec fn fixed_start(dim: nat) -> Seq<u32> {
    Seq::new(dim, |k: int| UNIT)
}

/// Whether `s` could come from a uniform draw of `dim` coordinates in `[0, 1)`.
pub open spec fn drawn(s: Seq<u32>, dim: nat) -> bool {
    &&& s.len() == dim
    &&& forall|k: int| 0 <= k < dim ==> #[trigger] s[k] < UNIT
}

/// The errors of `setup_type` as construction errors.
pub open spec fn config_error(e: SynthesisError) -> ConfigurationError {
    match e {
        SynthesisError::UnexpectedNoneType => ConfigurationError::MissingEntropySource,
        _ => ConfigurationError::UnsupportedStrategy,
    }
}

/// `dim` coordinates drawn uniformly from `[0, UNIT)`.
fn draw_coordinates(rng: &mut StdRng, dim: u32) -> (r: Vec<u32>)
    ensures
        drawn(r@, dim as nat),
{
    let mut r: Vec<u32> = Vec::new();
    let mut k: u32 = 0;
    while k < dim
        invariant
            k <= dim,
            drawn(r@, k as nat),
        decreases dim - k,
    {
        let x = draw_below(rng, UNIT);
        r.push(x);
        k += 1;
    }
    r
}

/// `dim` coordinates of one unit each.
fn fixed_coordinates(dim: u32) -> (r: Vec<u32>)
    ensures
        r@ == fixed_start(dim as nat),
{
    let mut r: Vec<u32> = Vec::new();
    let mut k: u32 = 0;
    while k < dim
        invariant
            k <= dim,
            r@ == fixed_start(k as nat),
        decreases dim - k,
    {
        r.push(UNIT);
        k += 1;
        assert(r@ =~= fixed_start(k as nat));
    }
    r
}

/// A competitor: an identity, a position and a velocity.
#[derive(Debug, Clone)]
pub struct HotellingAgent {
    pub id: u32,
    pub position: Vec<u32>,
    pub velocity: Vec<u32>,
}

impl HotellingAgent {
    /// An agent with id 0 and no coordinates.
    pub fn empty() -> (r: Self)
        ensures
            r.id == 0,
            r.position@.len() == 0,
            r.velocity@.len() == 0,
    {
        HotellingAgent { id: 0, position: Vec::new(), velocity: Vec::new() }
    }

    /// First position and velocity of an agent of kind `agent_type` in `dim`
    /// dimensions. A `Random` agent draws from `entropy`, which it needs.
    pub fn setup_type(dim: u32, agent_type: HotellingAgentType, entropy: &mut Option<StdRng>) -> (r:
        Result<(Vec<u32>, Vec<u32>), SynthesisError>)
        ensures
            agent_type == HotellingAgentType::Simple ==> (r matches Ok((p, v)) && p@ == fixed_start(
                dim as nat,
            ) && v@ == fixed_start(dim as nat)),
            agent_type == HotellingAgentType::Random && (*old(entropy)) is Some ==> (r matches Ok((p, v))
                && drawn(p@, dim as nat) && drawn(v@, dim as nat)),
            agent_type == HotellingAgentType::Random && (*old(entropy)) is None ==> r == Err::<
                (Vec<u32>, Vec<u32>),
                SynthesisError,
            >(SynthesisError::UnexpectedNoneType),
            agent_type == HotellingAgentType::Unknown ==> r == Err::<
                (Vec<u32>, Vec<u32>),
                SynthesisError,
            >(SynthesisError::InvalidAgentType),
            (*final(entropy)) is Some <==> (*old(entropy)) is Some,
            agent_type != HotellingAgentType::Random ==> *final(entropy) == *old(entropy),
    {
        match agent_type {
            HotellingAgentType::Simple => Ok((fixed_coordinates(dim), fixed_coordinates(dim))),
            HotellingAgentType::Random => match entropy {
                Some(rng) => {
                    let p = draw_coordinates(rng, dim);
                    let v = draw_coordinates(rng, dim);
                    Ok((p, v))
                },
                None => Err(SynthesisError::UnexpectedNoneType),
            },
            HotellingAgentType::Unknown => Err(SynthesisError::InvalidAgentType),
        }
    }

    /// A new agent; fails when its strategy cannot set it up.
    pub fn new(id: u32, dim: u32, agent_type: HotellingAgentType, entropy: &mut Option<StdRng>) -> (r:
        Result<Self, ConfigurationError>)
        ensures
            agent_type == HotellingAgentType::Simple ==> (r matches Ok(a) && a.id == id
                && a.position@ == fixed_start(dim as nat) && a.velocity@ == fixed_start(dim as nat)),
            agent_type == HotellingAgentType::Random && (*old(entropy)) is Some ==> (r matches Ok(a)
                && a.id == id && drawn(a.position@, dim as nat) && drawn(a.velocity@, dim as nat)),
            agent_type == HotellingAgentType::Random && (*old(entropy)) is None ==> r == Err::<
                Self,
                ConfigurationError,
            >(ConfigurationError::MissingEntropySource),
            agent_type == HotellingAgentType::Unknown ==> r == Err::<Self, ConfigurationError>(
                ConfigurationError::UnsupportedStrategy,
            ),
            (*final(entropy)) is Some <==> (*old(entropy)) is Some,
            agent_type != HotellingAgentType::Random ==> *final(entropy) == *old(entropy),
    {
        match Self::setup_type(dim, agent_type, entropy) {
            Ok((position, velocity)) => Ok(HotellingAgent { id, position, velocity }),
            Err(SynthesisError::UnexpectedNoneType) => Err(ConfigurationError::MissingEntropySource),
            Err(_) => Err(ConfigurationError::UnsupportedStrategy),
        }
    }

    /// This agent's next position given the population's positions (one row
    /// per agent) and the action space: it holds its ground, moved into the
    /// space where it stands outside it.
    pub fn make_move(&self, agent_states: &Vec<Vec<u32>>, action_space: &ActionSpace) -> (r: Result<
        Vec<u32>,
        SynthesisError,
    >)
        ensures
            self.position@.len() != action_space@.len() ==> r == Err::<Vec<u32>, SynthesisError>(
                SynthesisError::ShapeMismatch,
            ),
            self.position@.len() == action_space@.len() ==> (r matches Ok(p) && p@ == projection(
                self.position@,
                action_space@,
            )),
            action_space.wf() ==> (r matches Ok(p) ==> in_box(p@, action_space@)),
    {
        if self.position.len() != action_space.dim() {
            return Err(SynthesisError::ShapeMismatch);
        }
        Ok(action_space.project(&self.position))
    }
}

} // verus!
