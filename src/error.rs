use vstd::prelude::*;

verus! {

/// What can stop a run. A derivation itself cannot fail: passwords and
/// network names reach it as text that has already been decoded, so a line
/// that is not UTF-8 is refused when it is loaded, as `MalformedLine`.
#[derive(Debug, Clone, Copy, PartialEq, Eq, Structural)]
pub enum PmkError {
    /// An input could not be opened or read.
    SourceUnavailable,
    /// The line at this index (from zero) is not valid UTF-8.
    MalformedLine(usize),
    /// The output could not be created.
    DestinationUnavailable,
    /// Writing the output failed part way.
    WriteFailure,
}

} // verus!
