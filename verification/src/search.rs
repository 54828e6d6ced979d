pub mod engine;
pub mod file;
pub mod index_operation;
pub mod laws;
pub mod model;
pub mod text_index;
