//! The text of the two output tables.
//!
//! The per-read table has the header [`READ_STATS_HEADER`] and one row for
//! each read. The histogram table has the header [`HISTOGRAM_HEADER`] and one
//! row for each bucket, in ascending order of score, buckets at zero
//! included.

use crate::histogram::{QualityHistogram, BUCKET_COUNT};
use vstd::prelude::*;
use vstd::string::StringExecFns;

verus! {

/// Header row of the per-read table.
pub const READ_STATS_HEADER: &'static str = "read_id,read_length,mean_phred,mean_error_rate";

/// Header row of the histogram table.
pub const HISTOGRAM_HEADER: &'static str = "phred_score,count";

/// What follows the output prefix in the name of the per-read table.
pub const READ_STATS_SUFFIX: &'static str = "_read_stats.csv.gz";

/// What follows the output prefix in the name of the histogram table.
pub const HISTOGRAM_SUFFIX: &'static str = "_phred_hist.csv";

/// The character of the decimal digit `digit`.
pub open spec fn digit_char(digit: nat) -> char {
    ('0' as u8 + digit) as u8 as char
}

/// The decimal notation of `value`, without leading zeros.
pub open spec fn decimal_text(value: nat) -> Seq<char>
    decreases value,
{
    if value < 10 {
        seq![digit_char(value)]
    } else {
        decimal_text(value / 10).push(digit_char(value % 10))
    }
}

/// The row of the per-read table for one read.
pub open spec fn read_stats_row_text(
    read_id: Seq<char>,
    read_length: nat,
    mean_phred: Seq<char>,
    mean_error_rate: Seq<char>,
) -> Seq<char> {
    read_id + seq![','] + decimal_text(read_length) + seq![',', ' '] + mean_phred + seq![',']
        + mean_error_rate
}

/// The row of the histogram table for one bucket.
pub open spec fn histogram_row_text(score: nat, count: nat) -> Seq<char> {
    decimal_text(score) + seq![','] + decimal_text(count)
}

/// The name of the file that holds the per-read table.
pub fn read_stats_file_name(prefix: &str) -> (name: String)
    ensures
        name@ == prefix@ + READ_STATS_SUFFIX@,
{
    let mut name = String::from_str(prefix);
    name.append(READ_STATS_SUFFIX);
    name
}

/// The name of the file that holds the histogram table.
pub fn histogram_file_name(prefix: &str) -> (name: String)
    ensures
        name@ == prefix@ + HISTOGRAM_SUFFIX@,
{
    let mut name = String::from_str(prefix);
    name.append(HISTOGRAM_SUFFIX);
    name
}

/// The text of one decimal digit.
fn digit_text(digit: u64) -> (text: &'static str)
    requires
        digit < 10,
    ensures
        text@ == seq![digit_char(digit as nat)],
{
    proof {
        reveal_strlit("0");
        reveal_strlit("1");
        reveal_strlit("2");
        reveal_strlit("3");
        reveal_strlit("4");
        reveal_strlit("5");
        reveal_strlit("6");
        reveal_strlit("7");
        reveal_strlit("8");
        reveal_strlit("9");
    }
    let text = if digit == 0 {
        "0"
    } else if digit == 1 {
        "1"
    } else if digit == 2 {
        "2"
    } else if digit == 3 {
        "3"
    } else if digit == 4 {
        "4"
    } else if digit == 5 {
        "5"
    } else if digit == 6 {
        "6"
    } else if digit == 7 {
        "7"
    } else if digit == 8 {
        "8"
    } else {
        "9"
    };
    assert(text@ =~= seq![digit_char(digit as nat)]);
    text
}

/// Writes `value` in decimal notation.
pub fn decimal(value: u64) -> (text: String)
    ensures
        text@ == decimal_text(value as nat),
    decreases value,
{
    if value < 10 {
        String::from_str(digit_text(value))
    } else {
        let mut text = decimal(value / 10);
        text.append(digit_text(value % 10));
        text
    }
}

/// Lays out the row of the per-read table for one read.
///
/// The two means arrive as text. The mean quality follows a comma and a
/// space, every other field a comma alone.
pub fn read_stats_row(
    read_id: &str,
    read_length: u64,
    mean_phred: &str,
    mean_error_rate: &str,
) -> (row: String)
    ensures
        row@ == read_stats_row_text(
            read_id@,
            read_length as nat,
            mean_phred@,
            mean_error_rate@,
        ),
{
    proof {
        reveal_strlit(",");
        reveal_strlit(", ");
        assert(","@ =~= seq![',']);
        assert(", "@ =~= seq![',', ' ']);
    }
    let length_text = decimal(read_length);
    let mut row = String::from_str(read_id);
    row.append(",");
    row.append(length_text.as_str());
    row.append(", ");
    row.append(mean_phred);
    row.append(",");
    row.append(mean_error_rate);
    row
}

/// Lays out the row of the histogram table for one bucket.
pub fn histogram_row(score: u64, count: u64) -> (row: String)
    ensures
        row@ == histogram_row_text(score as nat, count as nat),
{
    proof {
        reveal_strlit(",");
        assert(","@ =~= seq![',']);
    }
    let count_text = decimal(count);
    let mut row = decimal(score);
    row.append(",");
    row.append(count_text.as_str());
    row
}

/// Lays out the rows of the histogram table: one for each bucket, in
/// ascending order of score.
pub fn histogram_rows(histogram: &QualityHistogram) -> (rows: Vec<String>)
    ensures
        rows@.len() == BUCKET_COUNT,
        histogram@.len() == BUCKET_COUNT,
        forall|score: int|
            0 <= score < BUCKET_COUNT ==> (#[trigger] rows@[score])@ == histogram_row_text(
                score as nat,
                histogram@[score],
            ),
{
    proof {
        histogram.lemma_bucket_count();
    }
    let mut rows: Vec<String> = Vec::new();
    let mut score: usize = 0;
    while score < BUCKET_COUNT
        invariant
            score <= BUCKET_COUNT,
            histogram@.len() == BUCKET_COUNT,
            rows@.len() == score,
            forall|earlier: int|
                0 <= earlier < score ==> (#[trigger] rows@[earlier])@ == histogram_row_text(
                    earlier as nat,
                    histogram@[earlier],
                ),
        decreases BUCKET_COUNT - score,
    {
        let row = histogram_row(score as u64, histogram.count(score));
        rows.push(row);
        score = score + 1;
    }
    rows
}

} // verus!
