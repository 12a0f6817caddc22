use vstd::prelude::*;

verus! {

/// Why a run cannot start.
#[derive(Debug, PartialEq, Eq)]
pub enum SetupError {
    /// The command line gave a different number of names and durations.
    CountMismatch { names: usize, times: usize },
    /// A duration is not of the form `[[H:]M:]S` or does not fit in `u32`.
    UnparsableDuration,
    /// The stage at `index` would last no time.
    InvalidDuration { index: usize },
}

} // verus!
