pub mod error;
pub mod traits;
pub mod types;
