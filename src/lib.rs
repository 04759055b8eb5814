//! A read-only block-record indexer: a length-prefixed record codec, exact
//! decimal rendering of unbounded atoms, and point queries by height or digest.

pub mod atom;
pub mod balance;
pub mod codec;
pub mod error;
pub mod hex_text;
pub mod index;
pub mod page;

pub use atom::{u64_decimal, Atom};
pub use balance::{parse_count, parse_nockchain_output, total_assets};
pub use codec::{decode_fields, encode_fields, FIELD_COUNT, MAX_FIELD_LEN};
pub use error::IndexerError;
pub use index::{digest_key, height_key};
pub use page::{render_binary, render_block, render_ud, Block, FieldCodec, Page};
