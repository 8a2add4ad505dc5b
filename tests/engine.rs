use hotelling::{
    ConfigurationError, Dimensions, GeometryError, HotellingAgent, HotellingAgentType, RoundError,
    Simulation, UNIT,
};
use rand::rngs::StdRng;
use rand::SeedableRng;

fn line_with(positions: &[u32]) -> Simulation {
    let mut sim =
        Simulation::new(positions.len() as u32, Dimensions::OneD, HotellingAgentType::Simple, &mut None)
            .unwrap();
    for (i, p) in positions.iter().enumerate() {
        sim.agents[i].position = vec![*p];
    }
    sim
}

#[test]
fn initialize_simulations() {
    let sim1 = Simulation::new(10, Dimensions::OneD, HotellingAgentType::Simple, &mut None).unwrap();
    let sim2 = Simulation::new(10, Dimensions::TwoD, HotellingAgentType::Simple, &mut None).unwrap();
    assert_eq!(sim1.round, 0);
    assert_eq!(sim2.round, 0);
    assert_eq!(sim1.dim, Dimensions::OneD);
    assert_eq!(sim2.dim, Dimensions::TwoD);
    assert_eq!(sim1.num_agents, 10);
    assert_eq!(sim2.num_agents, 10);
}

#[test]
fn step_simulation() {
    let mut entropy = Some(StdRng::seed_from_u64(42));
    let mut sim = Simulation::new(10, Dimensions::OneD, HotellingAgentType::Random, &mut entropy).unwrap();
    let result = sim.step().unwrap();
    assert_eq!(result.positions.len(), 10);
}

#[test]
fn random_run_covers_the_segment() {
    let mut entropy = Some(StdRng::seed_from_u64(7));
    let mut sim = Simulation::new(25, Dimensions::OneD, HotellingAgentType::Random, &mut entropy).unwrap();
    let out = sim.step().unwrap();
    let w = out.rewards.unwrap();
    assert_eq!(w.len(), 25);
    assert_eq!(w.iter().sum::<u64>(), 2 * UNIT as u64);
    assert_eq!(sim.round, 1);
    for (i, a) in sim.agents.iter().enumerate() {
        assert_eq!(a.id, i as u32);
        assert!(a.position[0] <= UNIT);
    }
}

#[test]
fn fixed_agents_coincide_on_the_line() {
    let mut sim = Simulation::new(2, Dimensions::OneD, HotellingAgentType::Simple, &mut None).unwrap();
    let before = sim.get_matrix();
    assert_eq!(before, vec![vec![UNIT], vec![UNIT]]);
    let r = sim.step();
    assert_eq!(r.unwrap_err(), RoundError::PartitionFailed(GeometryError::DuplicatePoints));
    assert_eq!(sim.round, 0);
    assert_eq!(sim.get_matrix(), before);
}

#[test]
fn two_agents_split_the_segment() {
    let mut sim = line_with(&[250_000, 750_000]);
    let out = sim.step().unwrap();
    assert_eq!(out.positions, vec![vec![250_000], vec![750_000]]);
    assert_eq!(out.rewards, Some(vec![1_000_000, 1_000_000]));
    assert_eq!(sim.round, 1);
}

#[test]
fn order_is_kept_through_a_round() {
    let mut sim = line_with(&[900_000, 100_000, 400_000]);
    let out = sim.step().unwrap();
    assert_eq!(out.positions, vec![vec![900_000], vec![100_000], vec![400_000]]);
    assert_eq!(out.rewards, Some(vec![700_000, 500_000, 800_000]));
    assert_eq!(sim.get_matrix(), out.positions);
    let ids: Vec<u32> = sim.agents.iter().map(|a| a.id).collect();
    assert_eq!(ids, vec![0, 1, 2]);
}

#[test]
fn positions_outside_the_space_are_brought_back() {
    let mut sim = line_with(&[5 * UNIT, 300_000]);
    let out = sim.step().unwrap();
    assert_eq!(out.positions, vec![vec![UNIT], vec![300_000]]);
    assert_eq!(sim.agents[0].position, vec![UNIT]);
}

#[test]
fn fixed_runs_are_deterministic() {
    for dim in [Dimensions::OneD, Dimensions::TwoD] {
        let mut a = Simulation::new(1, dim, HotellingAgentType::Simple, &mut None).unwrap();
        let mut b = Simulation::new(1, dim, HotellingAgentType::Simple, &mut None).unwrap();
        let ra = a.step().unwrap();
        let rb = b.step().unwrap();
        assert_eq!(ra.positions, rb.positions);
        assert_eq!(ra.rewards, rb.rewards);
    }
    let mut a = Simulation::new(3, Dimensions::OneD, HotellingAgentType::Simple, &mut None).unwrap();
    let mut b = Simulation::new(3, Dimensions::OneD, HotellingAgentType::Simple, &mut None).unwrap();
    assert_eq!(a.step().unwrap_err(), b.step().unwrap_err());
}

#[test]
fn lone_fixed_agent_owns_the_segment() {
    let mut sim = Simulation::new(1, Dimensions::OneD, HotellingAgentType::Simple, &mut None).unwrap();
    let out = sim.step().unwrap();
    assert_eq!(out.positions, vec![vec![UNIT]]);
    assert_eq!(out.rewards, Some(vec![2 * UNIT as u64]));
}

#[test]
fn failed_move_leaves_the_run_unchanged() {
    let mut sim = line_with(&[100, 200, 300]);
    sim.agents[1].position = vec![1, 2];
    sim.agents[2].position = vec![];
    let r = sim.step();
    assert_eq!(r.unwrap_err(), RoundError::AgentMoveFailed { agent_id: 1 });
    assert_eq!(sim.round, 0);
    assert_eq!(sim.get_matrix(), vec![vec![100], vec![1, 2], vec![]]);
}

#[test]
fn empty_population_has_no_partition() {
    let mut sim = Simulation::new(0, Dimensions::OneD, HotellingAgentType::Simple, &mut None).unwrap();
    assert_eq!(sim.step().unwrap_err(), RoundError::PartitionFailed(GeometryError::EmptyPointSet));
    assert_eq!(sim.round, 0);
}

#[test]
fn planar_round_commits_without_measuring() {
    let mut sim = Simulation::new(2, Dimensions::TwoD, HotellingAgentType::Simple, &mut None).unwrap();
    assert_eq!(sim.step().unwrap_err(), RoundError::PartitionFailed(GeometryError::DuplicatePoints));
    sim.agents[0].position = vec![10, 20];
    sim.agents[1].position = vec![10, 2 * UNIT];
    let out = sim.step().unwrap();
    assert_eq!(out.positions, vec![vec![10, 20], vec![10, UNIT]]);
    assert_eq!(out.rewards, None);
    assert_eq!(sim.round, 1);
}

#[test]
fn construction_errors() {
    let r = Simulation::new(3, Dimensions::OneD, HotellingAgentType::Random, &mut None);
    assert_eq!(r.unwrap_err(), ConfigurationError::MissingEntropySource);
    let r = Simulation::new(3, Dimensions::TwoD, HotellingAgentType::Unknown, &mut None);
    assert_eq!(r.unwrap_err(), ConfigurationError::UnsupportedStrategy);
    let sim = Simulation::new(4, Dimensions::TwoD, HotellingAgentType::Simple, &mut None).unwrap();
    assert_eq!(sim.action_space.dim(), 2);
    assert_eq!(sim.agents.len(), 4);
    let empty = HotellingAgent::empty();
    assert_eq!(empty.id, 0);
}
