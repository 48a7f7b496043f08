//! Options of the `rostra` command line that apply to every command.
use vstd::prelude::*;

verus! {

/// Global options that apply across all commands.
pub struct GlobalOpts {
    /// Temporary test flag.
    pub test_delme: bool,
}

} // verus!
