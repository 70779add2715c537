use vstd::prelude::*;

verus! {

/// The failures the statistics core can report.
#[derive(Debug, Clone, Copy, PartialEq, Eq, Structural)]
pub enum StatsError {
    /// The line at this index (from zero) of a file is not a JSON object with
    /// a string field `text`.
    RecordParse { line: usize },
    /// A token or document total would not fit in 64 bits.
    CountOverflow,
    /// No document was processed, so mean and median are undefined.
    EmptyCorpus,
    /// Documents were processed but the merged sample is empty (every
    /// reservoir had capacity zero), so the median is undefined.
    EmptySample,
}

} // verus!
