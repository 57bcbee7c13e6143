//! Replies the server sends over the socket.

use crate::proto::CMD;
use vstd::prelude::*;

verus! {

/// A retrieved message's id.
pub struct Get {
    pub cmd: CMD,
    pub uuid: String,
}

/// The id a submission was stored under.
pub struct Post {
    pub cmd: CMD,
    pub uuid: String,
}

/// The id a message was moved under.
pub struct Put {
    pub cmd: CMD,
    pub uuid: String,
}

} // verus!
