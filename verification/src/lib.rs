//! A falling-sand cellular-automaton kernel, verified with Verus.
//!
//! The grid is a dense buffer of 32-bit cells, each holding a material
//! index and a few flags. Adjacent materials react with one another; cell
//! movement is not modelled. One 64-bit activity word per 32×32 chunk of
//! cells records which rows and columns of the chunk hold an active cell,
//! and the stepper goes by these words: a chunk whose word is zero is
//! skipped, a chunk with a word is swept within the bounding rectangle of
//! its marked rows and columns, and a row without a mark is skipped.
//!
//! - [`cell`]: the fields of a cell word.
//! - [`chunk`]: the activity word of a chunk, and its active rectangle.
//! - [`grid`]: the two buffers and their addressing.
//! - [`activity`]: the law that every active cell is marked in its chunk.
//! - [`material`]: materials, reactions, and a trial between two
//!   materials.
//! - [`visit`]: the visit of one cell.
//! - [`sweep`]: the sweep of one strip of chunks.
//! - [`simulation`]: the context that owns grid and materials, and the
//!   checked operations of a host on it.
//! - [`phf_range`]: a perfect-hash table from keys to index ranges.
//! - [`data`]: the registry of entity definitions.
//! - [`rng`], [`error`]: the random generator of a strip, and the errors.
//!
//! What is proved rests on a few contracts that are stated of other
//! crates and not proved: those of the `external_body` functions in
//! [`rng`], [`phf_range`] and [`data`].

pub mod activity;
pub mod cell;
pub mod chunk;
pub mod data;
pub mod error;
pub mod grid;
pub mod material;
pub mod phf_range;
pub mod rng;
pub mod simulation;
pub mod sweep;
pub mod visit;
