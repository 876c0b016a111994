pub mod evaluator;
pub mod laws;
pub mod operations;
