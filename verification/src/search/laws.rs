pub mod compliance;
pub mod idempotence;
pub mod queue;
pub mod uniqueness;
