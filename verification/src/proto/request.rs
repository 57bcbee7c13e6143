//! Requests a socket client sends.

use crate::proto::CMD;
use vstd::prelude::*;

verus! {

/// Submit a message under a priority.
pub struct Post {
    pub cmd: CMD,
    pub priority: u32,
    pub msg: String,
}

/// Pull the next pending message.
#[derive(Debug, Clone, Copy, PartialEq, Eq, Structural)]
pub struct Get {
    pub cmd: CMD,
}

/// Pull the next pending message of one priority group.
#[derive(Debug, Clone, Copy, PartialEq, Eq, Structural)]
pub struct GetFrom {
    pub cmd: CMD,
    pub priority: u32,
}

/// Delete the message with this id.
pub struct Delete {
    pub cmd: CMD,
    pub uuid: String,
}

/// Move the message with this id to another priority.
pub struct Put {
    pub cmd: CMD,
    pub uuid: String,
    pub new_priority: u32,
}

} // verus!
