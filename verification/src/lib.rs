//! Maps reverse-DNS observation records to `IPv4 integer -> registrable
//! domain` pairs.
//!
//! The crate holds the computational core of the pipeline: a suffix set with
//! exact membership, a right-to-left registrable-domain extractor, a
//! zero-copy record parser for flat four-field JSON lines, a dotted-decimal
//! IPv4 encoder, and the per-line decision function that ties them together.
//! Reading the gzip stream and writing the output files is left to the
//! surrounding program.

pub mod bytes;
pub mod domain;
pub mod ipv4;
pub mod pipeline;
pub mod record;
pub mod suffix;
