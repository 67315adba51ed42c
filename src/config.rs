use vstd::prelude::*;

verus! {

/// Settings of a session.
#[derive(Debug, Clone, Copy, PartialEq, Eq)]
pub struct Config {
    /// Whether informational output is left out.
    pub silent: bool,
}

} // verus!
