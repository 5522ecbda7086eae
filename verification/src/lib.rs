//! The evolutionary core of a small population simulation.
//!
//! Individuals carry a position and a colour gene. Once per generation the
//! weak are culled, the surviving roots are paired, and each pair has one
//! short-lived offspring by crossover and mutation; with every generation
//! mutation leans harder towards one target gene. Between generations the
//! individuals drift through a cube with reflecting walls.
//!
//! All quantities are fixed-point numbers in millionths (see [`fixed`]), so
//! every rule is exact integer arithmetic and every function states, and
//! proves, what it returns.
//!
//! - [`gene`]: the colour groups, the target gene and the fitness score.
//! - [`mover`]: movement between the walls, and the countdown of offspring.
//! - [`population`]: the individuals and the store that owns them.
//! - [`selection`]: who is removed at the start of a generation cycle.
//! - [`reproduction`]: pairing, crossover and mutation.
//! - [`lifecycle`]: seeding, the tick and the generation cycle.
//! - [`random`]: the uniform draws everything random is made of.

pub mod fixed;
pub mod gene;
pub mod lifecycle;
pub mod mover;
pub mod population;
pub mod random;
pub mod reproduction;
pub mod selection;
