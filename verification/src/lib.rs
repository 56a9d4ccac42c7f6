//! A fixed pseudo-random bit sequence and four classical statistical tests
//! of its randomness: frequency of ones, longest run, poker (chi-square over
//! four-bit groups) and the distribution of run lengths.
//!
//! The contracts speak of the logical sequence of bits, a `Seq<bool>`,
//! whatever the way in which the bits are packed into words.

pub mod bits;
pub mod generator;
pub mod lcg;
pub mod monobit;
pub mod poker;
pub mod run_lengths;
pub mod runs;

pub use generator::RandomBits;
