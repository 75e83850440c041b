use fastq_quality::histogram::QualityHistogram;
use fastq_quality::phred::SCORE_COUNT;
use fastq_quality::record::RecordReader;
use fastq_quality::report::{histogram_rows, read_stats_row};
use fastq_quality::summary::summarize_read;

fn error_probabilities() -> Vec<f64> {
    (0..SCORE_COUNT).map(|score| 10.0_f64.powf(-(score as f64) / 10.0)).collect()
}

fn mean_error_probability(scores: &[u8]) -> f64 {
    let table = error_probabilities();
    let mut total = 0.0;
    for &score in scores {
        total += table[score as usize];
    }
    total / scores.len() as f64
}

fn mean_phred(mean_error_probability: f64) -> f64 {
    let phred = -10.0 * mean_error_probability.log10();
    if phred == 0.0 {
        0.0
    } else {
        phred
    }
}

fn run(lines: &[&str]) -> (Vec<String>, Vec<String>) {
    let mut reader = RecordReader::new();
    let mut histogram = QualityHistogram::new();
    let mut rows = Vec::new();
    for line in lines {
        if let Some(record) = reader.push_line(line.to_string()) {
            let summary = summarize_read(&mut histogram, &record).unwrap();
            let error = mean_error_probability(&summary.scores);
            rows.push(read_stats_row(
                &summary.read_id,
                summary.read_length,
                &format!("{:.2}", mean_phred(error)),
                &format!("{:1.2e}", error),
            ));
        }
    }
    (rows, histogram_rows(&histogram))
}

#[test]
fn one_read_of_four_bases_at_score_zero() {
    let (rows, histogram) = run(&["@r1 desc", "ACGT", "+", "!!!!"]);
    assert_eq!(rows, vec!["r1,4, 0.00,1.00e0".to_string()]);
    assert_eq!(histogram.len(), 100);
    assert_eq!(histogram[0], "0,4");
    for (score, row) in histogram.iter().enumerate().skip(1) {
        assert_eq!(row, &format!("{},0", score));
    }
}

#[test]
fn partial_trailing_record_does_not_appear_in_the_output() {
    let (rows, histogram) = run(&["@r1 desc", "ACGT", "+", "IIII", "@r2 desc", "ACGT"]);
    assert_eq!(rows, vec!["r1,4, 40.00,1.00e-4".to_string()]);
    assert_eq!(histogram[40], "40,4");
    let counted: u64 = histogram
        .iter()
        .map(|row| row.split(',').nth(1).unwrap().parse::<u64>().unwrap())
        .sum();
    assert_eq!(counted, 4);
}

#[test]
fn two_reads_give_two_rows_and_one_histogram() {
    let (rows, histogram) =
        run(&["@a", "AC", "+", "++", "@b lane 2", "ACG", "+", "5+5"]);
    assert_eq!(rows.len(), 2);
    assert_eq!(rows[0], "@a,2, 10.00,1.00e-1");
    assert!(rows[1].starts_with("b,3, "));
    assert_eq!(histogram[10], "10,3");
    assert_eq!(histogram[20], "20,2");
}
