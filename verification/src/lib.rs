//! Turns a CSV inventory of hosts into the text of a hosts file and of an
//! ethers file.
//!
//! Every string is modelled by its view, a `Seq<char>`; the contracts of the
//! executable functions are stated over the spec functions of each module.

pub mod clock;
pub mod convert;
pub mod csv;
pub mod diagnostic;
pub mod fields;
pub mod pattern;
pub mod text;
