//! The command surface of the tool, as plain data.
//!
//! Argument parsing itself is presentation glue and lives outside the
//! library; these types carry what was asked for.

use vstd::prelude::*;

verus! {

/// The commands the tool offers.
#[derive(Clone, Copy, Debug, PartialEq, Eq, Structural)]
pub enum Command {
    /// Show account balances.
    Balances,
    /// Fetch and merge transactions from the trailing window of this
    /// many whole days.
    Update { days: i64 },
}

/// The parsed command line.
#[derive(Clone, Copy, Debug, PartialEq, Eq, Structural)]
pub struct Args {
    pub command: Command,
}

} // verus!
