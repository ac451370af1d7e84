//! The API keys that the broker answers, and the versions it advertises.

use vstd::prelude::*;
use vstd::std_specs::convert::FromSpecImpl;
use crate::errors::{Decoded, KafkaErrors};
use crate::parser::{KafkaRead, Reader, read_short, reads_past};
use crate::writer::{KafkaWrite, empty_tag_buffer, write_bytes, write_tag_buffer};

verus! {

/// The number of the Produce API.
pub const PRODUCE_APIKEY: i16 = 0;

/// The number of the Fetch API.
pub const FETCH_APIKEY: i16 = 1;

/// The number of the ApiVersions API.
pub const API_VERSIONS_APIKEY: i16 = 18;

/// The number of the DescribeTopicPartitions API.
pub const DESCRIBE_PARTITIONS_APIKEY: i16 = 75;

/// The highest number of the reserved range of API keys.
pub const MAX_RESERVED_APIKEY: i16 = 75;

/// An API that has a handler.
#[derive(Debug, Copy, Clone, PartialEq, Eq, Structural)]
pub enum ApiKey {
    Produce,
    Fetch,
    ApiVersions,
    DescribeTopicPartitions,
}

impl View for ApiKey {
    type V = ApiKey;

    open spec fn view(&self) -> ApiKey {
        *self
    }
}

impl ApiKey {
    /// The API that a number stands for. A number of the reserved range
    /// `0..=75` that has no handler is unimplemented; any other number is no
    /// API key.
    pub open spec fn classify(value: i16) -> Result<ApiKey, KafkaErrors> {
        if value == PRODUCE_APIKEY {
            Ok(ApiKey::Produce)
        } else if value == FETCH_APIKEY {
            Ok(ApiKey::Fetch)
        } else if value == API_VERSIONS_APIKEY {
            Ok(ApiKey::ApiVersions)
        } else if value == DESCRIBE_PARTITIONS_APIKEY {
            Ok(ApiKey::DescribeTopicPartitions)
        } else if 0 <= value <= MAX_RESERVED_APIKEY {
            Err(KafkaErrors::Unimplemented(value))
        } else {
            Err(KafkaErrors::InvalidApiKey(value))
        }
    }

    /// The number of an API.
    pub open spec fn number(self) -> i16 {
        match self {
            ApiKey::Produce => PRODUCE_APIKEY,
            ApiKey::Fetch => FETCH_APIKEY,
            ApiKey::ApiVersions => API_VERSIONS_APIKEY,
            ApiKey::DescribeTopicPartitions => DESCRIBE_PARTITIONS_APIKEY,
        }
    }

    /// An API key on the wire: a signed 16-bit number that stands for an API.
    pub open spec fn decode(s: Seq<u8>) -> Decoded<ApiKey> {
        match i16::decode(s) {
            Err(e) => Err(e),
            Ok((value, rest)) => match Self::classify(value) {
                Err(e) => Err(e),
                Ok(key) => Ok((key, rest)),
            },
        }
    }

    /// The API that a number stands for.
    pub fn try_from(value: i16) -> (res: Result<Self, KafkaErrors>)
        ensures
            res == Self::classify(value),
    {
        if value == PRODUCE_APIKEY {
            Ok(ApiKey::Produce)
        } else if value == FETCH_APIKEY {
            Ok(ApiKey::Fetch)
        } else if value == API_VERSIONS_APIKEY {
            Ok(ApiKey::ApiVersions)
        } else if value == DESCRIBE_PARTITIONS_APIKEY {
            Ok(ApiKey::DescribeTopicPartitions)
        } else if 0 <= value && value <= MAX_RESERVED_APIKEY {
            Err(KafkaErrors::Unimplemented(value))
        } else {
            Err(KafkaErrors::InvalidApiKey(value))
        }
    }

    /// Where a stream stands after no API key could be read from `s`: behind
    /// the two bytes of the number where they were there, whatever the number
    /// stands for, and at `s` where the input ended too early.
    pub open spec fn behind_failed(s: Seq<u8>) -> Seq<u8> {
        if s.len() >= 2 {
            s.skip(2)
        } else {
            s
        }
    }

    /// Reads an API key. The two bytes of the number are consumed before the
    /// number is looked at, so they are gone also where it stands for no API
    /// that the broker answers.
    pub fn parse(b: &mut Reader) -> (res: Result<Self, KafkaErrors>)
        ensures
            reads_past(res, final(b)@, Self::decode(old(b)@), Self::behind_failed(old(b)@)),
    {
        let value = read_short(b)?;
        Self::try_from(value)
    }
}

impl From<ApiKey> for i16 {
    fn from(ak: ApiKey) -> (n: i16) {
        match ak {
            ApiKey::Produce => PRODUCE_APIKEY,
            ApiKey::Fetch => FETCH_APIKEY,
            ApiKey::ApiVersions => API_VERSIONS_APIKEY,
            ApiKey::DescribeTopicPartitions => DESCRIBE_PARTITIONS_APIKEY,
        }
    }
}

impl FromSpecImpl<ApiKey> for i16 {
    open spec fn obeys_from_spec() -> bool {
        true
    }

    open spec fn from_spec(ak: ApiKey) -> i16 {
        ak.number()
    }
}

/// The error codes that the broker puts on the wire.
#[derive(Debug, Copy, Clone, PartialEq, Eq, Structural)]
pub enum ErrorCodes {
    /// No error: 0.
    NoError,
    /// The topic or the partition is not known: 3.
    UnsupportedTopicOrPartition,
    /// The version of the request is not supported: 35.
    UnsupportedAPIVersion,
    /// The topic UUID is not known: 100.
    UnknownTopicId,
}

impl ErrorCodes {
    /// The number of an error code.
    pub open spec fn number(self) -> i16 {
        match self {
            ErrorCodes::NoError => 0,
            ErrorCodes::UnsupportedTopicOrPartition => 3,
            ErrorCodes::UnsupportedAPIVersion => 35,
            ErrorCodes::UnknownTopicId => 100,
        }
    }
}

impl From<ErrorCodes> for i16 {
    fn from(e: ErrorCodes) -> (n: i16) {
        match e {
            ErrorCodes::NoError => 0,
            ErrorCodes::UnsupportedTopicOrPartition => 3,
            ErrorCodes::UnsupportedAPIVersion => 35,
            ErrorCodes::UnknownTopicId => 100,
        }
    }
}

impl FromSpecImpl<ErrorCodes> for i16 {
    open spec fn obeys_from_spec() -> bool {
        true
    }

    open spec fn from_spec(e: ErrorCodes) -> i16 {
        e.number()
    }
}

/// An API and the range of its versions that the broker advertises.
#[derive(Debug, Copy, Clone, PartialEq, Eq, Structural)]
pub struct SupportedApiKeys {
    pub min: i16,
    pub max: i16,
    pub key: i16,
}

impl View for SupportedApiKeys {
    type V = SupportedApiKeys;

    open spec fn view(&self) -> SupportedApiKeys {
        *self
    }
}

impl KafkaWrite for SupportedApiKeys {
    /// The key, the lowest and the highest version, and an empty tag buffer.
    open spec fn encode(v: SupportedApiKeys) -> Seq<u8> {
        i16::encode(v.key) + i16::encode(v.min) + i16::encode(v.max) + empty_tag_buffer()
    }

    fn write(&self, writer: &mut Vec<u8>) -> (res: Result<(), KafkaErrors>) {
        write_bytes(writer, &self.key)?;
        write_bytes(writer, &self.min)?;
        write_bytes(writer, &self.max)?;
        write_tag_buffer(writer)?;
        assert(writer@ =~= old(writer)@ + Self::encode(self@));
        Ok(())
    }
}

/// What the broker advertises: ApiVersions 0 to 4, DescribeTopicPartitions 0,
/// Fetch 0 to 16 and Produce 0 to 11, in this order.
pub open spec fn advertised() -> Seq<SupportedApiKeys> {
    seq![
        SupportedApiKeys {
            min: crate::MIN_SUPPORTED_API_VERSION,
            max: crate::MAX_SUPPORTED_API_VERSION,
            key: API_VERSIONS_APIKEY,
        },
        SupportedApiKeys {
            min: crate::MIN_SUPPORTED_DESCRIBE_PARTITION_VER,
            max: crate::MAX_SUPPORTED_DESCRIBE_PARTITION_VER,
            key: DESCRIBE_PARTITIONS_APIKEY,
        },
        SupportedApiKeys {
            min: crate::MIN_SUPPORTED_FETCH_VER,
            max: crate::MAX_SUPPORTED_FETCH_VER,
            key: FETCH_APIKEY,
        },
        SupportedApiKeys {
            min: crate::MIN_SUPPORTED_PRODUCE_VER,
            max: crate::MAX_SUPPORTED_PRODUCE_VER,
            key: PRODUCE_APIKEY,
        },
    ]
}

/// The APIs that the broker advertises.
pub fn supported_api_keys() -> (keys: Vec<SupportedApiKeys>)
    ensures
        keys@ == advertised(),
{
    let mut keys: Vec<SupportedApiKeys> = Vec::new();
    keys.push(
        SupportedApiKeys {
            min: crate::MIN_SUPPORTED_API_VERSION,
            max: crate::MAX_SUPPORTED_API_VERSION,
            key: API_VERSIONS_APIKEY,
        },
    );
    keys.push(
        SupportedApiKeys {
            min: crate::MIN_SUPPORTED_DESCRIBE_PARTITION_VER,
            max: crate::MAX_SUPPORTED_DESCRIBE_PARTITION_VER,
            key: DESCRIBE_PARTITIONS_APIKEY,
        },
    );
    keys.push(
        SupportedApiKeys {
            min: crate::MIN_SUPPORTED_FETCH_VER,
            max: crate::MAX_SUPPORTED_FETCH_VER,
            key: FETCH_APIKEY,
        },
    );
    keys.push(
        SupportedApiKeys {
            min: crate::MIN_SUPPORTED_PRODUCE_VER,
            max: crate::MAX_SUPPORTED_PRODUCE_VER,
            key: PRODUCE_APIKEY,
        },
    );
    assert(keys@ =~= advertised());
    keys
}

} // verus!
