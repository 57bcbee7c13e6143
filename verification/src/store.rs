//! The store as a whole: reporting its state and setting its byte budget.

pub mod get;
pub mod set;
