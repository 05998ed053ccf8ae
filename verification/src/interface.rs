//! Operation-mode selection: the command line's mode flags, reduced to one
//! mode.  Flag parsing itself stays outside; this module only decides which
//! mode a given flag set selects.

use vstd::prelude::*;

verus! {

/// The operation modes the tool distinguishes.
#[derive(Debug, Clone, Copy, PartialEq, Eq, PartialOrd, Ord, Structural)]
pub enum Mode {
    Database,
    Files,
    Query,
    Remove,
    Sync,
    Deptest,
    Upgrade,
}

/// The mode flags, one per mode, as the command line hands them over.
#[derive(Debug, Clone, Copy, PartialEq, Eq, Structural)]
pub struct Args {
    pub database: bool,
    pub files: bool,
    pub query: bool,
    pub remove: bool,
    pub sync: bool,
    pub deptest: bool,
    pub upgrade: bool,
}

/// At least one mode flag is set.
pub open spec fn has_mode(a: Args) -> bool {
    a.database || a.files || a.query || a.remove || a.sync || a.deptest || a.upgrade
}

/// The mode a flag set selects: the first set flag, in the fixed order.
pub open spec fn spec_parse_mode(a: Args) -> Mode {
    if a.database {
        Mode::Database
    } else if a.files {
        Mode::Files
    } else if a.query {
        Mode::Query
    } else if a.remove {
        Mode::Remove
    } else if a.sync {
        Mode::Sync
    } else if a.deptest {
        Mode::Deptest
    } else {
        Mode::Upgrade
    }
}

impl Args {
    /// The selected operation mode.  A flag set with no flag at all selects
    /// nothing, so callers must test for one first.
    pub fn parse_mode(&self) -> (r: Mode)
        requires
            has_mode(*self),
        ensures
            r == spec_parse_mode(*self),
    {
        if self.database {
            Mode::Database
        } else if self.files {
            Mode::Files
        } else if self.query {
            Mode::Query
        } else if self.remove {
            Mode::Remove
        } else if self.sync {
            Mode::Sync
        } else if self.deptest {
            Mode::Deptest
        } else {
            Mode::Upgrade
        }
    }
}

} // verus!
