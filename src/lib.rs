//! Execution and state-commitment core of a blockchain virtual machine:
//! capability-addressed global state, the transform algebra, a persistent
//! snapshot store, tracked execution of deploys and sequential block commits.
pub mod address;
pub mod transform;
pub mod store;
pub mod registry;
pub mod engine;
pub mod contracts;
