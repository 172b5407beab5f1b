pub mod container;
pub mod docker;
