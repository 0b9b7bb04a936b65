//! Unicode compatibility normalization and dictionary tables for
//! Simplified/Traditional Chinese conversion.
//!
//! - [`compat_ideographs`]: CJK Compatibility Ideographs to their UnicodeData
//!   decomposition targets.
//! - [`unicode_compat`]: a curated one-character-to-one-character table for
//!   radicals and glyph variants, combinable with the first table.
//! - [`dict_map`]: a phrase table with key-length metadata for segmentation.
//! - [`cli`]: encoding labels, byte order marks, line endings, the
//!   normalization pre-pass, document formats and output names, and the
//!   segmentation output of the command-line tool.
//! - [`text`]: line splitting, trimming and number formatting shared by the
//!   table parsers.
//! - [`fx`] and [`encoding`]: the calls into `rustc_hash`, `encoding_rs` and
//!   `encoding_rs_io`, with the contracts that the rest relies on.

pub mod cli;
pub mod compat_ideographs;
pub mod dict_map;
pub mod encoding;
pub mod fx;
pub mod text;
pub mod unicode_compat;
