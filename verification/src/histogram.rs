//! The global histogram of per-base quality scores.
//!
//! Every character of a quality line whose code point lies in the printable
//! range `0x21..=0x7f` is counted in the bucket of its score, `code point - 33`.
//! Characters outside that range are skipped. The histogram always has
//! [`BUCKET_COUNT`] buckets, whatever scores were seen.
//!
//! The printable range is one character wider than the range of the scores
//! with a tabulated error probability: the histogram counts `0x7f`, which
//! [`crate::phred::decode_quality`] does not accept.

use crate::phred::{score_of, PHRED_OFFSET};
use vstd::prelude::*;

verus! {

/// Number of buckets of a histogram.
pub const BUCKET_COUNT: usize = 100;

/// Lowest code point that the histogram counts.
pub const FIRST_COUNTED: u32 = 0x21;

/// Highest code point that the histogram counts.
pub const LAST_COUNTED: u32 = 0x7f;

/// Whether the histogram counts the character `c`.
pub open spec fn is_counted(c: char) -> bool {
    FIRST_COUNTED <= c as u32 <= LAST_COUNTED
}

/// Whether `c` is counted in `bucket`: it is counted, and `bucket` is its
/// score.
pub open spec fn falls_in(c: char, bucket: int) -> bool {
    is_counted(c) && score_of(c) == bucket
}

/// How many characters of `quality` are counted in `bucket`.
pub open spec fn occurrences(quality: Seq<char>, bucket: int) -> nat
    decreases quality.len(),
{
    if quality.len() == 0 {
        0
    } else {
        occurrences(quality.drop_last(), bucket) + if falls_in(quality.last(), bucket) {
            1nat
        } else {
            0nat
        }
    }
}

/// How many characters of `quality` are counted at all.
pub open spec fn counted_len(quality: Seq<char>) -> nat
    decreases quality.len(),
{
    if quality.len() == 0 {
        0
    } else {
        counted_len(quality.drop_last()) + if is_counted(quality.last()) {
            1nat
        } else {
            0nat
        }
    }
}

/// The sum of all buckets.
pub open spec fn bucket_sum(counts: Seq<nat>) -> nat
    decreases counts.len(),
{
    if counts.len() == 0 {
        0
    } else {
        bucket_sum(counts.drop_last()) + counts.last()
    }
}

/// Counters as natural numbers.
pub open spec fn as_nats(counts: Seq<u64>) -> Seq<nat> {
    Seq::new(counts.len(), |bucket: int| counts[bucket] as nat)
}

/// The histogram in which nothing has been counted.
pub open spec fn empty_counts() -> Seq<nat> {
    Seq::new(BUCKET_COUNT as nat, |bucket: int| 0nat)
}

/// The buckets `counts` after one more quality line has been counted.
pub open spec fn with_line(counts: Seq<nat>, quality: Seq<char>) -> Seq<nat> {
    Seq::new(counts.len(), |bucket: int| counts[bucket] + occurrences(quality, bucket))
}

/// Whether the sum of the buckets `counts` still fits in a `u64` after
/// `quality` has been counted.
pub open spec fn has_room(counts: Seq<nat>, quality: Seq<char>) -> bool {
    bucket_sum(counts) + counted_len(quality) <= u64::MAX
}

/// The buckets after the quality lines of `reads` have been counted, in order,
/// starting from the empty histogram.
pub open spec fn counts_of(reads: Seq<Seq<char>>) -> Seq<nat>
    decreases reads.len(),
{
    if reads.len() == 0 {
        empty_counts()
    } else {
        with_line(counts_of(reads.drop_last()), reads.last())
    }
}

/// The number of counted characters in all of `reads`.
pub open spec fn counted_total(reads: Seq<Seq<char>>) -> nat
    decreases reads.len(),
{
    if reads.len() == 0 {
        0
    } else {
        counted_total(reads.drop_last()) + counted_len(reads.last())
    }
}

/// Counters of per-base quality scores, one bucket per score.
pub struct QualityHistogram {
    counts: [u64; 100],
    total: u64,
}

impl View for QualityHistogram {
    type V = Seq<nat>;

    /// The buckets in ascending order of score.
    closed spec fn view(&self) -> Seq<nat> {
        as_nats(self.counts@)
    }
}

impl QualityHistogram {
    /// The running total agrees with the buckets.
    #[verifier::type_invariant]
    spec fn total_matches(self) -> bool {
        self.total as nat == bucket_sum(self@)
    }

    /// A histogram with every bucket at zero.
    pub fn new() -> (histogram: Self)
        ensures
            histogram@ == empty_counts(),
    {
        let counts = [0u64; 100];
        proof {
            assert(as_nats(counts@) =~= empty_counts());
            lemma_bucket_sum_zeros(BUCKET_COUNT as nat);
        }
        QualityHistogram { counts, total: 0 }
    }

    /// A histogram with the given counts, for instance one that was kept
    /// from an earlier run. There is none where the sum of the counts does not
    /// fit in a `u64`.
    pub fn from_counts(counts: [u64; 100]) -> (histogram: Option<Self>)
        ensures
            histogram.is_some() <==> bucket_sum(as_nats(counts@)) <= u64::MAX,
            histogram matches Some(h) ==> h@ == as_nats(counts@),
    {
        let ghost buckets = as_nats(counts@);
        let mut total: u64 = 0;
        let mut bucket: usize = 0;
        proof {
            assert(buckets.take(0) =~= Seq::<nat>::empty());
        }
        while bucket < BUCKET_COUNT
            invariant
                bucket <= BUCKET_COUNT,
                buckets == as_nats(counts@),
                total as nat == bucket_sum(buckets.take(bucket as int)),
            decreases BUCKET_COUNT - bucket,
        {
            proof {
                assert(buckets.take(bucket as int + 1).drop_last() =~= buckets.take(bucket as int));
                lemma_bucket_sum_prefix(buckets, bucket as int + 1);
            }
            match total.checked_add(counts[bucket]) {
                Some(sum) => {
                    total = sum;
                },
                None => {
                    return None;
                },
            }
            bucket = bucket + 1;
        }
        proof {
            assert(buckets.take(BUCKET_COUNT as int) =~= buckets);
        }
        Some(QualityHistogram { counts, total })
    }

    /// Counts the characters of one quality line.
    ///
    /// Returns `false`, and leaves the histogram as it was, when the number of
    /// counted characters would no longer fit in a `u64`.
    pub fn record(&mut self, quality: &str) -> (recorded: bool)
        ensures
            recorded <==> has_room(old(self)@, quality@),
            recorded ==> final(self)@ == with_line(old(self)@, quality@),
            !recorded ==> final(self)@ == old(self)@,
    {
        proof {
            use_type_invariant(&*self);
        }
        let ghost before = self@;
        let mut counts = self.counts;
        let mut total: u64 = self.total;
        proof {
            assert(quality@.take(0) =~= Seq::<char>::empty());
            assert(before =~= with_line(before, quality@.take(0)));
        }
        for c in it: quality.chars()
            invariant
                it.seq() == quality@,
                before == old(self)@,
                before.len() == BUCKET_COUNT,
                *self == *old(self),
                as_nats(counts@) == with_line(before, quality@.take(it.index() as int)),
                total as nat == bucket_sum(as_nats(counts@)),
                total as nat == bucket_sum(before) + counted_len(quality@.take(it.index() as int)),
        {
            let ghost seen = quality@.take(it.index() as int);
            let ghost next = quality@.take(it.index() as int + 1);
            proof {
                assert(next =~= seen.push(c));
                lemma_with_line_push(before, seen, c);
                lemma_counted_len_push(seen, c);
            }
            let code: u32 = c as u32;
            if FIRST_COUNTED <= code && code <= LAST_COUNTED {
                if total == u64::MAX {
                    proof {
                        lemma_counted_len_prefix(quality@, it.index() as int + 1);
                    }
                    return false;
                }
                let bucket: usize = (code - PHRED_OFFSET) as usize;
                proof {
                    lemma_bucket_le_sum(as_nats(counts@), bucket as int);
                    lemma_bucket_sum_increment(as_nats(counts@), bucket as int);
                }
                let ghost earlier = counts@;
                counts[bucket] = counts[bucket] + 1;
                total = total + 1;
                proof {
                    assert(as_nats(counts@) =~= as_nats(earlier).update(
                        bucket as int,
                        as_nats(earlier)[bucket as int] + 1,
                    ));
                }
            }
        }
        proof {
            assert(quality@.take(quality@.len() as int) =~= quality@);
        }
        *self = QualityHistogram { counts, total };
        true
    }

    /// The count in one bucket.
    pub fn count(&self, bucket: usize) -> (count: u64)
        requires
            bucket < BUCKET_COUNT,
        ensures
            count as nat == self@[bucket as int],
    {
        self.counts[bucket]
    }

    /// Every histogram has [`BUCKET_COUNT`] buckets.
    pub proof fn lemma_bucket_count(self)
        ensures
            self@.len() == BUCKET_COUNT,
    {
    }

    /// The number of characters counted so far, over all buckets.
    pub fn total(&self) -> (total: u64)
        ensures
            total as nat == bucket_sum(self@),
    {
        proof {
            use_type_invariant(self);
        }
        self.total
    }
}

/// `counted_len` is the length of what is left of a quality line when the
/// characters outside the printable range are taken out, and `occurrences`
/// the length of what is left when only the characters of one bucket stay.
pub proof fn lemma_counts_are_filter_lengths(quality: Seq<char>, bucket: int)
    ensures
        counted_len(quality) == quality.filter(|c: char| is_counted(c)).len(),
        occurrences(quality, bucket) == quality.filter(|c: char| falls_in(c, bucket)).len(),
    decreases quality.len(),
{
    reveal(Seq::filter);
    if quality.len() > 0 {
        lemma_counts_are_filter_lengths(quality.drop_last(), bucket);
    }
}

/// Counting one quality line raises the sum of the buckets by the number of
/// characters of that line that lie in the printable range.
pub proof fn lemma_with_line_sum(counts: Seq<nat>, quality: Seq<char>)
    requires
        counts.len() == BUCKET_COUNT,
    ensures
        bucket_sum(with_line(counts, quality)) == bucket_sum(counts) + counted_len(quality),
    decreases quality.len(),
{
    if quality.len() == 0 {
        assert(with_line(counts, quality) =~= counts);
    } else {
        let seen = quality.drop_last();
        let c = quality.last();
        assert(quality =~= seen.push(c));
        lemma_with_line_sum(counts, seen);
        lemma_with_line_push(counts, seen, c);
        if is_counted(c) {
            lemma_bucket_sum_increment(with_line(counts, seen), score_of(c));
        }
    }
}

/// After any sequence of reads has been counted, the sum of the buckets is the
/// number of their quality characters that lie in the printable range.
pub proof fn lemma_counts_of_sum(reads: Seq<Seq<char>>)
    ensures
        counts_of(reads).len() == BUCKET_COUNT,
        bucket_sum(counts_of(reads)) == counted_total(reads),
    decreases reads.len(),
{
    if reads.len() == 0 {
        lemma_bucket_sum_zeros(BUCKET_COUNT as nat);
    } else {
        lemma_counts_of_sum(reads.drop_last());
        lemma_with_line_sum(counts_of(reads.drop_last()), reads.last());
    }
}

proof fn lemma_bucket_sum_zeros(len: nat)
    ensures
        bucket_sum(Seq::new(len, |bucket: int| 0nat)) == 0,
    decreases len,
{
    if len > 0 {
        lemma_bucket_sum_zeros((len - 1) as nat);
        assert(Seq::new(len, |bucket: int| 0nat).drop_last() =~= Seq::new(
            (len - 1) as nat,
            |bucket: int| 0nat,
        ));
    }
}

proof fn lemma_bucket_sum_prefix(counts: Seq<nat>, len: int)
    requires
        0 <= len <= counts.len(),
    ensures
        bucket_sum(counts.take(len)) <= bucket_sum(counts),
    decreases counts.len(),
{
    if len < counts.len() {
        lemma_bucket_sum_prefix(counts.drop_last(), len);
        assert(counts.drop_last().take(len) =~= counts.take(len));
    } else {
        assert(counts.take(len) =~= counts);
    }
}

proof fn lemma_bucket_le_sum(counts: Seq<nat>, bucket: int)
    requires
        0 <= bucket < counts.len(),
    ensures
        counts[bucket] <= bucket_sum(counts),
    decreases counts.len(),
{
    if bucket < counts.len() - 1 {
        lemma_bucket_le_sum(counts.drop_last(), bucket);
    }
}

proof fn lemma_bucket_sum_increment(counts: Seq<nat>, bucket: int)
    requires
        0 <= bucket < counts.len(),
    ensures
        bucket_sum(counts.update(bucket, counts[bucket] + 1)) == bucket_sum(counts) + 1,
    decreases counts.len(),
{
    let raised = counts.update(bucket, counts[bucket] + 1);
    if bucket < counts.len() - 1 {
        lemma_bucket_sum_increment(counts.drop_last(), bucket);
        assert(raised.drop_last() =~= counts.drop_last().update(bucket, counts[bucket] + 1));
    } else {
        assert(raised.drop_last() =~= counts.drop_last());
    }
}

proof fn lemma_counted_len_push(quality: Seq<char>, c: char)
    ensures
        counted_len(quality.push(c)) == counted_len(quality) + if is_counted(c) {
            1nat
        } else {
            0nat
        },
{
    assert(quality.push(c).drop_last() =~= quality);
}

proof fn lemma_counted_len_prefix(quality: Seq<char>, len: int)
    requires
        0 <= len <= quality.len(),
    ensures
        counted_len(quality.take(len)) <= counted_len(quality),
    decreases quality.len(),
{
    if len < quality.len() {
        lemma_counted_len_prefix(quality.drop_last(), len);
        assert(quality.drop_last().take(len) =~= quality.take(len));
    } else {
        assert(quality.take(len) =~= quality);
    }
}

proof fn lemma_with_line_push(counts: Seq<nat>, quality: Seq<char>, c: char)
    requires
        counts.len() == BUCKET_COUNT,
    ensures
        is_counted(c) ==> 0 <= score_of(c) < BUCKET_COUNT && with_line(counts, quality.push(c))
            == with_line(counts, quality).update(
            score_of(c),
            with_line(counts, quality)[score_of(c)] + 1,
        ),
        !is_counted(c) ==> with_line(counts, quality.push(c)) == with_line(counts, quality),
{
    assert(quality.push(c).drop_last() =~= quality);
    if is_counted(c) {
        assert(with_line(counts, quality.push(c)) =~= with_line(counts, quality).update(
            score_of(c),
            with_line(counts, quality)[score_of(c)] + 1,
        ));
    } else {
        assert(with_line(counts, quality.push(c)) =~= with_line(counts, quality));
    }
}

} // verus!
