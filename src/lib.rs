//! A Hotelling spatial-competition engine: agents choose positions inside a
//! bounded action space, the space is split among them by proximity, and each
//! agent is paid the size of its territory.
//!
//! Coordinates are fixed-point: a coordinate `c` stands for `c / UNIT`, so the
//! unit interval is `[0, UNIT]`. Cells and payoffs on the line are measured in
//! half grid units, where every boundary between two cells falls exactly.

pub mod action_space;
pub mod hotelling_agent;
pub mod partition;
pub mod plotter;
pub mod simulation;

pub use action_space::{ActionSpace, ConfigurationError, Interval, UNIT};
pub use hotelling_agent::{HotellingAgent, HotellingAgentType, SynthesisError};
pub use partition::{GeometryError, Territory, all_distinct, partition_line, rewards};
pub use plotter::get_points_for_plot;
pub use simulation::{Dimensions, RoundError, Simulation, StepOutcome, rows_distinct};
