pub mod plotting;
pub mod solvers;
