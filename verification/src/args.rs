//! Command-line arguments, as plain values. Parsing the command line is the
//! caller's concern.

use vstd::prelude::*;

verus! {

/// Where the configuration file and the database live.
pub struct Args {
    pub config_location: String,
    pub database_location: Option<String>,
}

} // verus!
