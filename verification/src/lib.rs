//! A compact binary codec for blocks of fixed-width index terms.
//!
//! A block is a count header followed by 32-byte records. It can be decoded
//! eagerly into owned terms, or scanned in place: a reader hands out one view
//! per record, each field is read straight from the buffer, and a caller
//! materializes only the records that pass its filter.
//!
//! `term` holds the records, `layout` the format and its laws, `le` the
//! little-endian numbers the format is made of. The three codec modules
//! decode the same format in three ways: `manual_zerocopy` by offset,
//! `manual_zerocopy_v2` through borrowed field views, `manual_zerocopy_v3` by
//! consuming the buffer from the front. Each is proved against the one model,
//! so they agree on every buffer. `generator` makes reproducible data to
//! measure them with.

pub mod generator;
pub mod layout;
pub mod le;
pub mod manual_zerocopy;
pub mod manual_zerocopy_v2;
pub mod manual_zerocopy_v3;
pub mod term;

pub use generator::{generate_test_data, Xorshift64};
pub use term::{Block, FullTerm};
