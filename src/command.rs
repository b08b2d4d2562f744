use vstd::prelude::*;

verus! {

/// One atomic input action of an autotype run.
#[derive(Debug, Clone, Copy, PartialEq, Eq, PartialOrd, Hash, Structural)]
pub enum Command {
    /// Press the tab key.
    Tab,
    /// Press the enter key.
    Enter,
    /// Type exactly this character.
    Char(char),
    /// Pause for this many milliseconds; produces no keyboard output.
    Sleep(u64),
    /// Does nothing; stands where a control placeholder could not be read.
    Void,
}

} // verus!
