//! Extraction of the read identifier from a FASTQ header line.
//!
//! A header line starts with a marker character, followed by the identifier,
//! which ends at the first space. Whatever follows that space describes the
//! read and is no part of its identifier. A header with a space and an empty
//! identifier gets the identifier `NaN`. A header without a space is its own
//! identifier, marker included.

use vstd::prelude::*;
use vstd::string::StrSliceExecFns;

verus! {

/// The length of the part of `line` before its first space: all of `line`
/// where it has no space.
pub open spec fn token_len(line: Seq<char>) -> nat
    decreases line.len(),
{
    if line.len() == 0 || line[0] == ' ' {
        0
    } else {
        1 + token_len(line.drop_first())
    }
}

/// The identifier that stands for a header line with nothing between its
/// first character and its first space.
pub open spec fn missing_id() -> Seq<char> {
    seq!['N', 'a', 'N']
}

/// The identifier of the read with the header `line`.
///
/// Where the line has a space, it is what stands between the first character
/// and the first space, or [`missing_id`] where nothing stands between them:
/// the line starts with the space, or the space follows the first character.
/// Where the line has no space, it is the whole line, first character
/// included.
pub open spec fn read_id_of(line: Seq<char>) -> Seq<char> {
    let token = token_len(line) as int;
    if token == line.len() {
        line
    } else if token <= 1 {
        missing_id()
    } else {
        line.subrange(1, token)
    }
}

/// `token_len(line)` is the place of the first space of `line`, or the
/// length of `line` where it has no space.
pub proof fn lemma_token_len(line: Seq<char>)
    ensures
        token_len(line) <= line.len(),
        forall|i: int| 0 <= i < token_len(line) ==> line[i] != ' ',
        token_len(line) < line.len() ==> line[token_len(line) as int] == ' ',
    decreases line.len(),
{
    if !(line.len() == 0 || line[0] == ' ') {
        let rest = line.drop_first();
        lemma_token_len(rest);
        assert forall|i: int| 0 <= i < token_len(line) implies line[i] != ' ' by {
            if i > 0 {
                assert(line[i] == rest[i - 1]);
            }
        }
    }
}

/// A prefix without a space that ends the line or is followed by a space is
/// the part before the first space.
proof fn lemma_token_len_is(line: Seq<char>, len: int)
    requires
        0 <= len <= line.len(),
        forall|i: int| 0 <= i < len ==> line[i] != ' ',
        len < line.len() ==> line[len] == ' ',
    ensures
        token_len(line) == len,
    decreases len,
{
    if len > 0 {
        let rest = line.drop_first();
        assert forall|i: int| 0 <= i < len - 1 implies rest[i] != ' ' by {
            assert(rest[i] == line[i + 1]);
        }
        lemma_token_len_is(rest, len - 1);
    }
}

/// The identifier of a read, taken from its header line.
///
/// The result is never empty for a header with a space: an empty identifier
/// is replaced by `NaN`.
pub fn get_read_id(read_id_line: &str) -> (read_id: &str)
    ensures
        read_id@ == read_id_of(read_id_line@),
        token_len(read_id_line@) < read_id_line@.len() ==> read_id@.len() > 0,
{
    proof {
        lemma_token_len(read_id_line@);
    }
    let length: usize = read_id_line.unicode_len();
    let mut at: usize = 0;
    for c in it: read_id_line.chars()
        invariant
            it.seq() == read_id_line@,
            length == read_id_line@.len(),
            at == it.index(),
            forall|i: int| 0 <= i < at ==> read_id_line@[i] != ' ',
    {
        if c == ' ' {
            proof {
                lemma_token_len_is(read_id_line@, at as int);
            }
            if at <= 1 {
                proof {
                    reveal_strlit("NaN");
                    assert("NaN"@ =~= missing_id());
                }
                return "NaN";
            }
            return read_id_line.substring_char(1, at);
        }
        at = at + 1;
    }
    proof {
        lemma_token_len_is(read_id_line@, at as int);
    }
    read_id_line
}

} // verus!
