//! Byte-level annotation and comparison of JPEG XL bitstreams.
//!
//! The library records which bits of a codestream were read for which field,
//! groups those records into nested segments, names the files that hold each
//! segment, renders annotated hex dumps, summarises VarDCT block statistics and
//! compares the segment structure of two files.

pub mod text;
pub mod model;
pub mod context;
pub mod debug;
pub mod collector;
pub mod bitstream;
pub mod output;
pub mod annotator;
pub mod diff;
pub mod hexdump;
pub mod stats;
pub mod inspect;
pub mod info;
