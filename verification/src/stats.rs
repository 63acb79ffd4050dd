//! Running statistics of a run: how many lines matched the pattern and how
//! many did not.  The counters are owned by the extractor, incremented
//! exactly once per line, and read once when the stream is exhausted.

use vstd::prelude::*;

verus! {

/// Two monotonically increasing counters, both zero at the start of a run.
#[derive(Clone, Copy, Debug, PartialEq, Eq, Structural)]
pub struct Stats {
    pub parsed: u64,
    pub failed: u64,
}

impl Stats {
    pub fn new() -> (r: Stats)
        ensures
            r.parsed == 0,
            r.failed == 0,
    {
        Stats { parsed: 0, failed: 0 }
    }

}

impl Default for Stats {
    fn default() -> (r: Stats)
        ensures
            r.parsed == 0,
            r.failed == 0,
    {
        Stats { parsed: 0, failed: 0 }
    }
}

} // verus!
