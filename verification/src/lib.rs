//! Small verified routines over sorted runs, integer columns, word counts and
//! text lines.

pub mod breaks;
pub mod column;
pub mod downcase;
pub mod numbering;
pub mod patterns;
pub mod stats;
pub mod tokenizer;
pub mod words;
