//! The socket protocol's message shapes: what a client sends and what the
//! server replies, as plain values. Serializing them is the caller's concern.

pub mod request;
pub mod response;

use vstd::prelude::*;
use vstd::string::StringExecFns;

verus! {

/// The command a socket packet carries.
#[derive(Debug, Clone, Copy, PartialEq, Eq, Structural)]
pub enum CMD {
    Post,
    Get,
    Delete,
}

/// Prefixes a validation message with the `/data/` path it is about.
pub fn prepend_data_str(message: String) -> (r: String)
    ensures
        r@ == "/data/"@ + message@,
{
    let prefix = String::from_str("/data/");
    prefix.concat(message.as_str())
}

/// Marks a validation message as one about a missing (null) value.
pub fn append_null(message: String) -> (r: String)
    ensures
        r@ == message@ + " | null"@,
{
    message.concat(" | null")
}

} // verus!
