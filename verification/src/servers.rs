pub mod error;
pub mod search;
