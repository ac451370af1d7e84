//! A single-broker subset of the Kafka wire protocol: framing, the flexible
//! primitive codec, request parsing and dispatch, and the cluster-metadata log.
//!
//! - `parser` and `writer` read and write the primitive types; `roundtrip`
//!   holds the laws that tie the two together.
//! - `records` is the format of the cluster-metadata log, `logformat` its
//!   laws, and `metadata` the catalog of topics and partitions that a log
//!   describes.
//! - `header`, `body`, `fetch`, `partitions` and `produce` are the requests
//!   and the responses of the APIs; `incoming` takes a request from its frame
//!   to its response.
//! - `connection` frames the messages of a connection and says what is to be
//!   read or written next on it.
//!
//! Nothing here reads a file or a socket. A caller hands in bytes and gets
//! bytes back.

use vstd::prelude::*;

pub mod apikey;
pub mod basics;
pub mod body;
pub mod connection;
pub mod errors;
pub mod fetch;
pub mod header;
pub mod incoming;
pub mod logformat;
pub mod metadata;
pub mod models;
pub mod parser;
pub mod partitions;
pub mod produce;
pub mod records;
pub mod roundtrip;
pub mod writer;

verus! {

/// The lowest version of ApiVersions that the broker answers.
pub const MIN_SUPPORTED_API_VERSION: i16 = 0;

/// The highest version of ApiVersions that the broker answers.
pub const MAX_SUPPORTED_API_VERSION: i16 = 4;

/// The lowest version of DescribeTopicPartitions that the broker advertises.
pub const MIN_SUPPORTED_DESCRIBE_PARTITION_VER: i16 = 0;

/// The highest version of DescribeTopicPartitions that the broker advertises.
pub const MAX_SUPPORTED_DESCRIBE_PARTITION_VER: i16 = 0;

/// The lowest version of Fetch that the broker advertises.
pub const MIN_SUPPORTED_FETCH_VER: i16 = 0;

/// The highest version of Fetch that the broker advertises.
pub const MAX_SUPPORTED_FETCH_VER: i16 = 16;

/// The lowest version of Produce that the broker advertises.
pub const MIN_SUPPORTED_PRODUCE_VER: i16 = 0;

/// The highest version of Produce that the broker advertises.
pub const MAX_SUPPORTED_PRODUCE_VER: i16 = 11;

} // verus!
