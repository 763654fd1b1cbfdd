//! The integer core of a self/non-self discriminating receptor population:
//! the pseudo-random streams that drive it, the kinetic proofreading cascade
//! of each receptor, the discrete genome that evolution mutates, the fitness
//! tally, the population bookkeeping, the experiment schedule and the
//! workloads that the substrate probes and threats run.
pub mod cascade;
pub mod genome;
pub mod organism;
pub mod probe;
pub mod receptor;
pub mod rng;
pub mod tally;
