use vstd::prelude::*;

verus! {

/// The switches the program accepts: how chatty the log should be, and the
/// match count above which the halt action fires.
#[derive(Clone, Copy, Debug, PartialEq, Eq, Structural)]
pub struct Args {
    /// How many times verbosity was raised on the command line.
    pub verbose: u8,
    /// The threshold: strictly more matches than this trigger the halt.
    pub panic_after: usize,
}

impl Default for Args {
    /// Quiet logging, and a halt threshold of 20 matches.
    fn default() -> (a: Args)
        ensures
            a.verbose == 0,
            a.panic_after == 20,
    {
        Args { verbose: 0, panic_after: 20 }
    }
}

} // verus!
