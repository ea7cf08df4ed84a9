//! What follows from the contracts of the scanner and the formatter, proved
//! for every line.

pub mod formatting;
pub mod lines;
pub mod scanning;
