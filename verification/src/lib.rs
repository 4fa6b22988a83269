//! A library for building and reading word-processing document packages:
//! zip archives holding a fixed set of XML parts (document body, styles,
//! fonts, properties) tied together by a content-type registry and
//! relationship graphs.
//!
//! The package-assembly and parsing logic is verified: each part's XML
//! serializer and parser carry exact contracts, and the round trip
//! write -> extract -> parse is proved to recover the written aggregate.

pub mod error;
pub mod numdec;
pub mod xmltext;
pub mod rels;
pub mod content_type;
pub mod props;
pub mod document;
pub mod styles;
pub mod zipio;
pub mod docx;
pub mod laws;
