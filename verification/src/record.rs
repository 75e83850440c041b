//! Framing of a stream of text lines into four-line FASTQ records.
//!
//! A record is a header line, a sequence line, a separator line and a quality
//! line, in that order. The reader takes one line at a time and hands out a
//! record with every fourth line. Lines of a record that is still incomplete
//! when the input ends are never handed out. Nothing about the content of a
//! line is checked.

use vstd::prelude::*;

verus! {

/// Number of lines that make up one record.
pub const LINES_PER_RECORD: usize = 4;

/// One read of a FASTQ file. The separator line is not kept.
#[derive(Debug)]
pub struct FastqRecord {
    /// The first line: a marker character, the identifier, and what may
    /// follow it after a space.
    pub header: String,
    /// The second line: the bases.
    pub sequence: String,
    /// The fourth line: one Phred+33 character for each base.
    pub quality: String,
}

/// The text of a record.
pub struct RecordText {
    pub header: Seq<char>,
    pub sequence: Seq<char>,
    pub quality: Seq<char>,
}

impl View for FastqRecord {
    type V = RecordText;

    open spec fn view(&self) -> RecordText {
        RecordText { header: self.header@, sequence: self.sequence@, quality: self.quality@ }
    }
}

/// The record whose header is line `start` of `lines`.
pub open spec fn record_at(lines: Seq<Seq<char>>, start: int) -> RecordText {
    RecordText { header: lines[start], sequence: lines[start + 1], quality: lines[start + 3] }
}

/// The records of a whole input: one for each full block of four lines.
pub open spec fn records_of(lines: Seq<Seq<char>>) -> Seq<RecordText> {
    Seq::new(lines.len() / 4, |k: int| record_at(lines, 4 * k))
}

/// The lines at the end of `lines` that do not yet fill a record.
pub open spec fn held_after(lines: Seq<Seq<char>>) -> Seq<Seq<char>> {
    lines.subrange(4 * (lines.len() as int / 4), lines.len() as int)
}

/// What a reader that holds the lines `held` does with the next line: the
/// lines it holds afterwards, and the record it hands out, if any.
pub open spec fn accept_line(held: Seq<Seq<char>>, line: Seq<char>) -> (
    Seq<Seq<char>>,
    Option<RecordText>,
) {
    if held.len() + 1 == LINES_PER_RECORD {
        (Seq::empty(), Some(record_at(held.push(line), 0)))
    } else {
        (held.push(line), None)
    }
}

/// The lines of the record that is being read.
enum Held {
    Nothing,
    Header(String),
    Sequence(String, String),
    Separator(String, String, String),
}

/// Groups the lines of an input into records, one line at a time.
pub struct RecordReader {
    held: Held,
}

impl View for RecordReader {
    type V = Seq<Seq<char>>;

    /// The lines taken since the last record was handed out.
    closed spec fn view(&self) -> Seq<Seq<char>> {
        match self.held {
            Held::Nothing => Seq::empty(),
            Held::Header(header) => seq![header@],
            Held::Sequence(header, sequence) => seq![header@, sequence@],
            Held::Separator(header, sequence, separator) => seq![
                header@,
                sequence@,
                separator@,
            ],
        }
    }
}

impl RecordReader {
    /// A reader at the start of an input.
    pub fn new() -> (reader: Self)
        ensures
            reader@ == Seq::<Seq<char>>::empty(),
    {
        RecordReader { held: Held::Nothing }
    }

    /// Takes the next line of the input, and hands out a record if that line
    /// completes one.
    pub fn push_line(&mut self, line: String) -> (record: Option<FastqRecord>)
        ensures
            old(self)@.len() < LINES_PER_RECORD,
            final(self)@ == accept_line(old(self)@, line@).0,
            match record {
                Some(r) => accept_line(old(self)@, line@).1 == Some(r@),
                None => accept_line(old(self)@, line@).1.is_none(),
            },
    {
        let mut held = Held::Nothing;
        core::mem::swap(&mut held, &mut self.held);
        match held {
            Held::Nothing => {
                self.held = Held::Header(line);
                assert(self@ =~= old(self)@.push(line@));
                None
            },
            Held::Header(header) => {
                self.held = Held::Sequence(header, line);
                assert(self@ =~= old(self)@.push(line@));
                None
            },
            Held::Sequence(header, sequence) => {
                self.held = Held::Separator(header, sequence, line);
                assert(self@ =~= old(self)@.push(line@));
                None
            },
            Held::Separator(header, sequence, _separator) => {
                Some(FastqRecord { header, sequence, quality: line })
            },
        }
    }

    /// The number of lines taken since the last record was handed out.
    pub fn pending_lines(&self) -> (count: usize)
        ensures
            count == self@.len(),
            count < LINES_PER_RECORD,
    {
        match &self.held {
            Held::Nothing => 0,
            Held::Header(_) => 1,
            Held::Sequence(_, _) => 2,
            Held::Separator(_, _, _) => 3,
        }
    }
}

/// A reader that has taken `lines` since the start of the input holds
/// `held_after(lines)`. With the next line it hands out a record exactly when
/// that line is the fourth of a block, and the records handed out so far are
/// always `records_of` the lines taken: as many as there are full blocks.
pub proof fn lemma_accept_line(lines: Seq<Seq<char>>, line: Seq<char>)
    ensures
        accept_line(held_after(lines), line).0 == held_after(lines.push(line)),
        accept_line(held_after(lines), line).1.is_some() <==> (lines.len() + 1) % 4 == 0,
        records_of(lines.push(line)) == match accept_line(held_after(lines), line).1 {
            Some(record) => records_of(lines).push(record),
            None => records_of(lines),
        },
{
    let longer = lines.push(line);
    let held = held_after(lines);
    let blocks = lines.len() as int / 4;
    assert(held.len() == lines.len() % 4);
    if held.len() == 3 {
        assert(longer.len() as int / 4 == blocks + 1);
        assert(held_after(longer) =~= Seq::<Seq<char>>::empty());
        let record = record_at(held.push(line), 0);
        assert(record == record_at(longer, 4 * blocks));
        assert(records_of(longer) =~= records_of(lines).push(record));
    } else {
        assert(longer.len() as int / 4 == blocks);
        assert(held_after(longer) =~= held.push(line));
        assert(records_of(longer) =~= records_of(lines));
    }
}

/// The lines of an incomplete record at the end of an input add nothing to
/// its records.
pub proof fn lemma_partial_record_dropped(lines: Seq<Seq<char>>)
    ensures
        records_of(lines).len() == lines.len() / 4,
        records_of(lines) == records_of(lines.take(4 * (lines.len() as int / 4))),
{
    let full = lines.take(4 * (lines.len() as int / 4));
    assert(full.len() as int / 4 == lines.len() as int / 4);
    assert(records_of(lines) =~= records_of(full));
}

} // verus!
