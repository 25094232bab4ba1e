//! How a run presents itself.

use vstd::prelude::*;

verus! {

/// The settings of a run. They say how output is shown and whether the run
/// is measured; what a program computes does not depend on them.
#[derive(Clone, Copy, Debug, PartialEq, Eq)]
pub struct Options {
    /// Hold the output back until the program has finished.
    pub buffer: bool,
    /// Measure the steps of the run.
    pub profile: bool,
}

impl Options {
    /// The settings with the two switches as given.
    pub fn default(buffer: bool, profile: bool) -> (options: Options)
        ensures
            options == (Options { buffer, profile }),
    {
        Options { buffer, profile }
    }
}

} // verus!
