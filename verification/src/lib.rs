pub mod allocate;
pub mod civ;
pub mod filter;
pub mod rng;
