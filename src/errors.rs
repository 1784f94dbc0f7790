//! Errors of the codecs and of the record operations.
use crate::types::TimeScale;
use vstd::prelude::*;

verus! {

/// Why a text could not be read.
#[derive(Clone, Debug, PartialEq)]
pub enum ParsingError {
    NonSupportedRevision,
    UnknownOrbitType,
    UnknownDataType,
    MalformedH1,
    MalformedH2,
    /// A `%c` line, as found.
    MalformedDescriptor(Vec<u8>),
    EpochParsing,
    /// The number-of-epochs field, as found.
    NumberEpoch(Vec<u8>),
    WeekCounter,
    WeekSeconds,
    Epoch,
    SamplingPeriod,
    Mjd,
    /// The satellite field, as found.
    SV(Vec<u8>),
    /// The coordinate field, as found.
    Coordinates(Vec<u8>),
    /// The clock field, as found.
    Clock(Vec<u8>),
    InvalidFilename,
    InvalidFileAvailability,
    InvalidCampaignName,
}

/// Why a record could not be written.
#[derive(Clone, Copy, Debug, PartialEq, Eq, Structural)]
pub enum FormattingError {
    /// The output sink refused the bytes.
    OutputError,
}

/// Why two records cannot be merged.
#[derive(Clone, Copy, Debug, PartialEq, Eq, Structural)]
pub enum MergeError {
    DataProviderMismatch,
    TimescaleMismatch,
    ReferenceFrameMismatch,
}

/// No correction from the first timescale to the second applies.
#[derive(Clone, Copy, Debug, PartialEq, Eq, Structural)]
pub enum TimeCorrectionError {
    NoCorrectionAvailable(TimeScale, TimeScale),
}

/// Why a prediction cannot start.
#[derive(Clone, Copy, Debug, PartialEq, Eq, Structural)]
pub enum PredictionError {
    /// The last state of a satellite carries no velocity.
    UndeterminedInitialState,
}

/// Copy of `s[a..b]`.
pub fn slice_to_vec(s: &[u8], a: usize, b: usize) -> (r: Vec<u8>)
    requires
        a <= b <= s.len(),
    ensures
        r@ == s@.subrange(a as int, b as int),
{
    let mut r: Vec<u8> = Vec::new();
    let mut i = a;
    while i < b
        invariant
            a <= i <= b <= s.len(),
            r@ == s@.subrange(a as int, i as int),
        decreases b - i,
    {
        r.push(s[i]);
        i = i + 1;
        assert(r@ =~= s@.subrange(a as int, i as int));
    }
    r
}

} // verus!
