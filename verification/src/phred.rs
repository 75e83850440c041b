//! The Phred+33 encoding of base-call quality scores.
//!
//! A quality character encodes the score `code point - 33`. Error
//! probabilities are tabulated for the scores `0..SCORE_COUNT`, which are
//! the scores of the characters `!` to `~`.

use vstd::prelude::*;

verus! {

/// Code point of the character that encodes the score zero.
pub const PHRED_OFFSET: u32 = 33;

/// Number of scores for which an error probability is tabulated.
pub const SCORE_COUNT: u32 = 94;

/// Whether `c` encodes a score that has a tabulated error probability.
pub open spec fn is_score_char(c: char) -> bool {
    PHRED_OFFSET <= (c as u32) && (c as u32) < PHRED_OFFSET + SCORE_COUNT
}

/// The score that `c` encodes: its code point less the offset.
pub open spec fn score_of(c: char) -> int {
    c as u32 as int - PHRED_OFFSET as int
}

/// Whether every character of `quality` encodes a tabulated score.
pub open spec fn is_quality_line(quality: Seq<char>) -> bool {
    forall|i: int| 0 <= i < quality.len() ==> is_score_char(#[trigger] quality[i])
}

/// The scores of a quality line, one for each character, in order.
pub open spec fn scores_of(quality: Seq<char>) -> Seq<u8> {
    Seq::new(quality.len(), |i: int| score_of(quality[i]) as u8)
}

/// Decodes one quality character, or reports that it encodes no tabulated
/// score.
pub fn phred_score(c: char) -> (score: Option<u8>)
    ensures
        score.is_some() <==> is_score_char(c),
        score matches Some(s) ==> s as int == score_of(c) && s < SCORE_COUNT,
{
    let code: u32 = c as u32;
    if code >= PHRED_OFFSET && code - PHRED_OFFSET < SCORE_COUNT {
        Some((code - PHRED_OFFSET) as u8)
    } else {
        None
    }
}

/// Decodes a quality line into the scores of its characters.
///
/// The result has one score for each character, so its length is the length
/// of the read. A line with a character that encodes no tabulated score has
/// no scores at all: such a character is neither skipped nor given a default,
/// and its code point is not cut down to a byte.
pub fn decode_quality(quality: &str) -> (scores: Option<Vec<u8>>)
    ensures
        scores.is_some() <==> is_quality_line(quality@),
        scores matches Some(decoded) ==> {
            &&& decoded@ == scores_of(quality@)
            &&& decoded@.len() == quality@.len()
            &&& forall|i: int| 0 <= i < decoded@.len() ==> #[trigger] decoded@[i] < SCORE_COUNT
        },
{
    let mut decoded: Vec<u8> = Vec::new();
    for c in it: quality.chars()
        invariant
            it.seq() == quality@,
            is_quality_line(quality@.take(it.index() as int)),
            decoded@ == scores_of(quality@.take(it.index() as int)),
    {
        let ghost seen = quality@.take(it.index() as int);
        match phred_score(c) {
            Some(score) => {
                decoded.push(score);
                proof {
                    let next = quality@.take(it.index() as int + 1);
                    assert(next =~= seen.push(c));
                    assert(decoded@ =~= scores_of(next));
                }
            },
            None => {
                assert(quality@[it.index() as int] == c);
                return None;
            },
        }
    }
    proof {
        assert(quality@.take(quality@.len() as int) =~= quality@);
    }
    Some(decoded)
}

} // verus!
