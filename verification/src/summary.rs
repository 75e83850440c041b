//! What is taken from one record: the identifier of the read, its length,
//! the scores of its bases, and its share of the histogram.
//!
//! The mean error probability of a read is the mean of the tabulated error
//! probabilities of its scores, taken in the order of [`ReadSummary::scores`].

use crate::histogram::{has_room, with_line, QualityHistogram};
use crate::phred::{decode_quality, is_quality_line, scores_of, SCORE_COUNT};
use crate::read_id::{get_read_id, read_id_of};
use crate::record::FastqRecord;
use vstd::prelude::*;
use vstd::string::StringExecFns;

verus! {

/// The integer part of the statistics of one read.
#[derive(Debug)]
pub struct ReadSummary {
    /// The identifier from the header line.
    pub read_id: String,
    /// The number of characters of the quality line.
    pub read_length: u64,
    /// The score of each base, in the order of the quality line.
    pub scores: Vec<u8>,
}

/// Why a record has no summary.
#[derive(Clone, Copy, Debug, PartialEq, Eq)]
pub enum ReadError {
    /// A character of the quality line encodes no tabulated score, so there
    /// is no error probability to look up for it. Such a character is neither
    /// skipped nor given a default: the read has no statistics, and an
    /// analysis that meets one cannot go on.
    UnknownScore,
    /// The histogram cannot count the characters of the quality line.
    HistogramFull,
}

/// Takes the summary of one record and counts its quality line in
/// `histogram`.
///
/// A record without a summary leaves the histogram as it was.
pub fn summarize_read(
    histogram: &mut QualityHistogram,
    record: &FastqRecord,
) -> (result: Result<ReadSummary, ReadError>)
    ensures
        match result {
            Ok(summary) => {
                &&& is_quality_line(record.quality@)
                &&& has_room(old(histogram)@, record.quality@)
                &&& summary.read_id@ == read_id_of(record.header@)
                &&& summary.read_length == record.quality@.len()
                &&& summary.scores@ == scores_of(record.quality@)
                &&& forall|i: int|
                    0 <= i < summary.scores@.len() ==> #[trigger] summary.scores@[i] < SCORE_COUNT
                &&& final(histogram)@ == with_line(old(histogram)@, record.quality@)
            },
            Err(ReadError::UnknownScore) => {
                &&& !is_quality_line(record.quality@)
                &&& final(histogram)@ == old(histogram)@
            },
            Err(ReadError::HistogramFull) => {
                &&& is_quality_line(record.quality@)
                &&& !has_room(old(histogram)@, record.quality@)
                &&& final(histogram)@ == old(histogram)@
            },
        },
{
    match decode_quality(record.quality.as_str()) {
        None => Err(ReadError::UnknownScore),
        Some(scores) => {
            if histogram.record(record.quality.as_str()) {
                let read_id = String::from_str(get_read_id(record.header.as_str()));
                let read_length: u64 = scores.len() as u64;
                Ok(ReadSummary { read_id, read_length, scores })
            } else {
                Err(ReadError::HistogramFull)
            }
        },
    }
}

} // verus!
