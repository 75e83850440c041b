//! Per-read quality statistics of FASTQ sequencing data.
//!
//! The library holds the integer and text side of the analysis:
//!
//! - [`record`] groups the lines of an input into four-line records;
//! - [`read_id`] takes the identifier of a read from its header line;
//! - [`phred`] decodes the Phred+33 characters of a quality line into scores;
//! - [`histogram`] counts the quality characters of all reads by score;
//! - [`summary`] does the three for one record;
//! - [`report`] lays out the rows and names of the two output tables.
//!
//! Reading and writing files, compression, and the floating-point means that
//! are computed from the scores of a read are left to the caller.

pub mod histogram;
pub mod phred;
pub mod read_id;
pub mod record;
pub mod report;
pub mod summary;
