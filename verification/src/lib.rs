//! Assembles the input document of a dependent proving circuit from the
//! values that earlier pipeline stages left behind: a Merkle root, an
//! inclusion proof, a nullifier hash, a recorded timestamp and the
//! secret/nullifier pair of an upstream input document.
//!
//! The library works on the contents of the input files and gives back the
//! text of the document; reading the files and writing the result is left to
//! the caller. The one thing it reads itself is the system clock.
//!
//! - `text`: whitespace, trimming and searching on character slices.
//! - `lines`: the scalar reader and the sequence reader.
//! - `extract`: the key extractor for the upstream document.
//! - `timestamp`: the timestamp generator.
//! - `document`: the fields of the document, their rendering, and the
//!   assembly of the whole from what was read.
//! - `error`: the ways in which the assembly fails.

pub mod document;
pub mod error;
pub mod extract;
pub mod lines;
pub mod text;
pub mod timestamp;
