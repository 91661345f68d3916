//! An append-only record store for simple task items, persisted as
//! newline-delimited JSON records.
//!
//! The library holds the verified core: the record model, the JSON line
//! codec (encoding and parsing), and the identifier-assignment policies.
//! Reading and writing the backing file is left to the embedding program,
//! which hands the file's contents in and appends the returned lines.

pub mod codec;
pub mod decode;
pub mod digits;
pub mod record;
pub mod roundtrip;
pub mod store;

pub use codec::encode_line;
pub use decode::{decode_file, decode_item};
pub use record::{Id, Item, Status, StoreError};
pub use store::{FileStore, IdPolicy, Store};
