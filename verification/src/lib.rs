//! A solver library for the Travelling Thief Problem (TTP): a travelling
//! salesman tour coupled with a knapsack, where travel speed drops as more
//! item weight is carried and the objective is collected profit minus a
//! time-proportional renting cost.
//!
//! All real-valued quantities (coordinates, profits, weights, speeds, the
//! renting ratio) are held as fixed-point integers with three decimal
//! places (a raw value of 1000 stands for 1.0), so that every computation
//! is exact, deterministic and fully specified.

pub mod codec;
pub mod greedy_kp;
pub mod hill_climbing;
pub mod instance;
pub mod math;
pub mod nearest_neighbor;
pub mod objective;
pub mod path;
pub mod random_kp;
pub mod solution;
pub mod tabu_search;
pub mod two_opt;

pub use instance::Instance;
pub use instance::Item;
pub use instance::Node;
