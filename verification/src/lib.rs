pub mod actor;
pub mod errors;
pub mod feature;
pub mod population;
pub mod rng;

pub use actor::{Actor, Row, crossover_pair, PENALTY_WEIGHT};
pub use feature::LinReg;
pub use errors::GaError;
pub use population::{FitnessRecord, MutationRate, Population, dataset_within_bounds};
pub use rng::GaRng;
