//! A streaming decoder for the o5m format: map data (nodes, ways, relations)
//! packed into frames of varints, deltas and back-references to a shared table
//! of strings.
//!
//! The decoder does no I/O. It is fed the bytes of the stream in chunks of any
//! size and hands out one record at a time.
//!
//! What the bytes mean is written down apart from the code that reads them:
//! `varint` says what a number in the stream is, `strings` what the string
//! table does, `format` what a frame body holds and `stream` what a stream
//! of frames decodes to. `parse`, `body` and `decoder` hold the code, each
//! function with the meaning of what it reads as its contract. `data` and
//! `tags` are the records, `error` the ways in which decoding fails.

pub mod error;
pub mod varint;
pub mod tags;
pub mod data;
pub mod strings;
pub mod text;
pub mod format;
pub mod parse;
pub mod body;
pub mod stream;
pub mod decoder;

pub use error::Context;
pub use error::DecodeError;
pub use tags::Tags;
pub use data::BBox;
pub use data::Dataset;
pub use data::DatasetType;
pub use data::Element;
pub use data::ElementType;
pub use data::Info;
pub use data::Node;
pub use data::NodeData;
pub use data::Relation;
pub use data::RelationData;
pub use data::RelationMember;
pub use data::Timestamp;
pub use data::Way;
pub use data::WayData;
pub use strings::StringTable;
pub use decoder::decode;
pub use decoder::decode_chunks;
pub use decoder::Decoder;
