use fastq_quality::histogram::{QualityHistogram, BUCKET_COUNT};
use fastq_quality::record::FastqRecord;
use fastq_quality::summary::{summarize_read, ReadError};

fn record(header: &str, sequence: &str, quality: &str) -> FastqRecord {
    FastqRecord {
        header: header.to_string(),
        sequence: sequence.to_string(),
        quality: quality.to_string(),
    }
}

fn buckets(histogram: &QualityHistogram) -> Vec<u64> {
    (0..BUCKET_COUNT).map(|bucket| histogram.count(bucket)).collect()
}

#[test]
fn summary_holds_identifier_length_and_scores() {
    let mut histogram = QualityHistogram::new();
    let summary = summarize_read(&mut histogram, &record("@r7 lane=3", "ACGTA", "!5I~!")).unwrap();
    assert_eq!(summary.read_id, "r7");
    assert_eq!(summary.read_length, 5);
    assert_eq!(summary.scores, vec![0, 20, 40, 93, 0]);
    assert_eq!(histogram.count(0), 2);
    assert_eq!(histogram.count(20), 1);
    assert_eq!(histogram.count(40), 1);
    assert_eq!(histogram.count(93), 1);
    assert_eq!(histogram.total(), 5);
}

#[test]
fn read_length_follows_the_quality_line_not_the_sequence() {
    let mut histogram = QualityHistogram::new();
    let summary = summarize_read(&mut histogram, &record("@r", "ACGTACGT", "II")).unwrap();
    assert_eq!(summary.read_length, 2);
    assert_eq!(summary.scores.len(), 2);
}

#[test]
fn record_with_an_empty_quality_line_has_length_zero() {
    let mut histogram = QualityHistogram::new();
    let summary = summarize_read(&mut histogram, &record("@r", "", "")).unwrap();
    assert_eq!(summary.read_id, "@r");
    assert_eq!(summary.read_length, 0);
    assert!(summary.scores.is_empty());
    assert_eq!(histogram.total(), 0);
}

#[test]
fn unknown_score_leaves_the_histogram_as_it_was() {
    let mut histogram = QualityHistogram::new();
    assert!(histogram.record("II"));
    let before = buckets(&histogram);
    let result = summarize_read(&mut histogram, &record("@r x", "ACG", "I\u{7f}I"));
    assert_eq!(result.err(), Some(ReadError::UnknownScore));
    assert_eq!(buckets(&histogram), before);
    assert_eq!(histogram.total(), 2);
    let result = summarize_read(&mut histogram, &record("@r x", "ACG", "I I"));
    assert_eq!(result.err(), Some(ReadError::UnknownScore));
    assert_eq!(buckets(&histogram), before);
}

#[test]
fn summaries_of_several_reads_share_one_histogram() {
    let mut histogram = QualityHistogram::new();
    let first = summarize_read(&mut histogram, &record("@a 1", "AC", "!!")).unwrap();
    let second = summarize_read(&mut histogram, &record("@b", "ACG", "!II")).unwrap();
    assert_eq!(first.read_id, "a");
    assert_eq!(second.read_id, "@b");
    assert_eq!(histogram.count(0), 3);
    assert_eq!(histogram.count(40), 2);
    assert_eq!(histogram.total(), first.read_length + second.read_length);
}

#[test]
fn full_histogram_gives_no_summary() {
    let mut counts = [0u64; 100];
    counts[10] = u64::MAX - 1;
    let mut histogram = QualityHistogram::from_counts(counts).unwrap();
    let result = summarize_read(&mut histogram, &record("@r", "AC", "II"));
    assert_eq!(result.err(), Some(ReadError::HistogramFull));
    assert_eq!(buckets(&histogram), counts.to_vec());
    let summary = summarize_read(&mut histogram, &record("@r", "A", "I")).unwrap();
    assert_eq!(summary.read_length, 1);
    assert_eq!(histogram.total(), u64::MAX);
}

#[test]
fn unknown_score_is_reported_before_a_full_histogram() {
    let mut counts = [0u64; 100];
    counts[10] = u64::MAX;
    let mut histogram = QualityHistogram::from_counts(counts).unwrap();
    let result = summarize_read(&mut histogram, &record("@r", "AC", "I\u{7f}"));
    assert_eq!(result.err(), Some(ReadError::UnknownScore));
}

#[test]
fn summary_of_a_read_without_identifier_has_the_fallback_identifier() {
    let mut histogram = QualityHistogram::new();
    let summary = summarize_read(&mut histogram, &record("@ lane=3", "AC", "II")).unwrap();
    assert_eq!(summary.read_id, "NaN");
    assert_eq!(summary.read_length, 2);
}
