//! Priority groups: reporting one or all of them, and deleting a whole
//! group's messages.

pub mod get;
pub mod rm;
