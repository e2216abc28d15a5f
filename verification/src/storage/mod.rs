pub mod audit;
pub mod batch;
pub mod plans;
