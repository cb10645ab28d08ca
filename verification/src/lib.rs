#![verifier::loop_isolation(false)]

pub mod text;
pub mod numbers;
pub mod scan;
pub mod detector;
pub mod parser;
pub mod extract;
pub mod state;
pub mod strategy;
pub mod engine;
pub mod transport;

