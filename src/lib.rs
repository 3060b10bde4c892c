//! A generational evolutionary-simulation engine with interchangeable
//! mutation and checkpoint-storage strategies.
//!
//! - `genome`: genes, genomes, organisms and one-point crossover.
//! - `random`: the explicit random state that callers pass in.
//! - `mutation`: the mutation strategy interface and its default policy.
//! - `storage`: the checkpoint storage interface and an in-memory storage.
//! - `chronos`: snapshot files: their location and their versioned text.
//! - `engine`: selection, crossover, mutation, generations, checkpoints.
//! - `records`: plain records of the services around the engine.
pub mod chronos;
pub mod engine;
pub mod genome;
pub mod mutation;
pub mod random;
pub mod records;
pub mod storage;
