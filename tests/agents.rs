use hotelling::{ConfigurationError, HotellingAgent, HotellingAgentType, SynthesisError, UNIT};
use hotelling::{ActionSpace, Interval};
use rand::rngs::StdRng;
use rand::SeedableRng;

#[test]
fn create_agents() {
    let agent_types: Vec<HotellingAgentType> = vec![
        HotellingAgentType::Simple,
        HotellingAgentType::Random,
        HotellingAgentType::Unknown,
    ];

    for i in 0..agent_types.len() {
        match agent_types[i] {
            HotellingAgentType::Simple => {
                let agent = HotellingAgent::new(0, 0, HotellingAgentType::Simple, &mut None).unwrap();
                assert_eq!(agent.position, Vec::<u32>::new());
                assert_eq!(agent.velocity, Vec::<u32>::new());
            }
            HotellingAgentType::Random => {
                let agent = HotellingAgent::new(0, 0, HotellingAgentType::Simple, &mut None).unwrap();
                assert_eq!(agent.position, Vec::<u32>::new());
                assert_eq!(agent.velocity, Vec::<u32>::new());
            }
            HotellingAgentType::Unknown => {
                let agent = HotellingAgent::empty();
                assert_eq!(agent.position, vec![0u32; 0]);
                assert_eq!(agent.velocity, vec![0u32; 0]);
            }
        }
    }
}

#[test]
fn new_agent_dim_1() {
    let agent_types: Vec<HotellingAgentType> =
        vec![HotellingAgentType::Simple, HotellingAgentType::Random];

    let dim = 1;
    for i in 0..agent_types.len() {
        match agent_types[i] {
            HotellingAgentType::Simple => {
                let agent = HotellingAgent::new(0, dim, HotellingAgentType::Simple, &mut None).unwrap();
                assert_eq!(agent.position.len(), 1);
                assert_eq!(agent.velocity.len(), 1);
            }
            HotellingAgentType::Random => {
                let agent = HotellingAgent::new(0, dim, HotellingAgentType::Simple, &mut None).unwrap();
                assert_eq!(agent.position.len(), 1);
                assert_eq!(agent.velocity.len(), 1);
            }
            _ => {}
        }
    }
}

#[test]
fn fixed_agent_starts_at_one_unit() {
    let agent = HotellingAgent::new(7, 2, HotellingAgentType::Simple, &mut None).unwrap();
    assert_eq!(agent.id, 7);
    assert_eq!(agent.position, vec![UNIT, UNIT]);
    assert_eq!(agent.velocity, vec![UNIT, UNIT]);
}

#[test]
fn random_agent_without_entropy_is_refused() {
    let r = HotellingAgent::new(0, 1, HotellingAgentType::Random, &mut None);
    assert_eq!(r.unwrap_err(), ConfigurationError::MissingEntropySource);
    let s = HotellingAgent::setup_type(1, HotellingAgentType::Random, &mut None);
    assert_eq!(s.unwrap_err(), SynthesisError::UnexpectedNoneType);
}

#[test]
fn unknown_agent_is_refused() {
    let r = HotellingAgent::new(0, 1, HotellingAgentType::Unknown, &mut None);
    assert_eq!(r.unwrap_err(), ConfigurationError::UnsupportedStrategy);
    let s = HotellingAgent::setup_type(1, HotellingAgentType::Unknown, &mut None);
    assert_eq!(s.unwrap_err(), SynthesisError::InvalidAgentType);
}

#[test]
fn random_agent_draws_below_one_unit() {
    let mut entropy = Some(StdRng::seed_from_u64(11));
    for id in 0..20 {
        let agent = HotellingAgent::new(id, 2, HotellingAgentType::Random, &mut entropy).unwrap();
        assert_eq!(agent.position.len(), 2);
        assert_eq!(agent.velocity.len(), 2);
        for c in agent.position.iter().chain(agent.velocity.iter()) {
            assert!(*c < UNIT);
        }
    }
    assert!(entropy.is_some());
}

#[test]
fn move_projects_into_action_space() {
    let space = ActionSpace::bounded(vec![Interval { lo: 10, hi: 20 }, Interval { lo: 0, hi: 5 }]).unwrap();
    let agent = HotellingAgent { id: 3, position: vec![25, 3], velocity: vec![0, 0] };
    let states = vec![agent.position.clone()];
    assert_eq!(agent.make_move(&states, &space).unwrap(), vec![20, 3]);
    let low = HotellingAgent { id: 4, position: vec![2, 9], velocity: vec![0, 0] };
    assert_eq!(low.make_move(&states, &space).unwrap(), vec![10, 5]);
}

#[test]
fn move_with_wrong_dimension_fails() {
    let space = ActionSpace::bounded(vec![Interval { lo: 0, hi: 5 }]).unwrap();
    let agent = HotellingAgent { id: 3, position: vec![1, 2], velocity: vec![0, 0] };
    assert_eq!(agent.make_move(&vec![], &space).unwrap_err(), SynthesisError::ShapeMismatch);
}

#[test]
fn action_space_checks_bounds() {
    let r = ActionSpace::bounded(vec![Interval { lo: 0, hi: 5 }, Interval { lo: 6, hi: 5 }]);
    assert_eq!(r.unwrap_err(), ConfigurationError::InvalidBounds);
    let space = ActionSpace::bounded(vec![Interval { lo: 0, hi: 5 }, Interval { lo: 5, hi: 5 }]).unwrap();
    assert_eq!(space.dim(), 2);
    assert!(space.contains(&vec![0, 5]));
    assert!(!space.contains(&vec![6, 5]));
    assert!(!space.contains(&vec![1]));
    let cube = ActionSpace::unit_cube(2);
    assert_eq!(cube.intervals, vec![Interval { lo: 0, hi: UNIT }, Interval { lo: 0, hi: UNIT }]);
}
