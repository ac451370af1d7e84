//! A compact string that may be absent.

use vstd::prelude::*;
use vstd::std_specs::convert::FromSpecImpl;
use crate::errors::{Decoded, KafkaErrors};
use crate::models::opt_view;
use crate::parser::{
    KafkaRead, Reader, decode_compact_bytes, read_nullable_compact_string, reads_as,
};
use crate::writer::{KafkaWrite, nullable_compact_bytes, write_nullable_compact_string};

verus! {

/// A compact string that may be absent.
#[derive(Debug, Clone)]
pub struct CompactNullableString {
    pub val: Option<Vec<u8>>,
}

impl View for CompactNullableString {
    type V = Option<Seq<u8>>;

    open spec fn view(&self) -> Option<Seq<u8>> {
        opt_view(self.val)
    }
}

impl From<Vec<u8>> for CompactNullableString {
    fn from(val: Vec<u8>) -> (s: Self) {
        Self { val: Some(val) }
    }
}

impl FromSpecImpl<Vec<u8>> for CompactNullableString {
    open spec fn obeys_from_spec() -> bool {
        true
    }

    open spec fn from_spec(val: Vec<u8>) -> Self {
        Self { val: Some(val) }
    }
}

impl KafkaRead for CompactNullableString {
    open spec fn decode(s: Seq<u8>) -> Decoded<Option<Seq<u8>>> {
        decode_compact_bytes(s)
    }

    fn read(req: &mut Reader) -> (res: Result<Self, KafkaErrors>) {
        let val = read_nullable_compact_string(req)?;
        Ok(Self { val })
    }
}

impl KafkaWrite for CompactNullableString {
    open spec fn encode(v: Option<Seq<u8>>) -> Seq<u8> {
        nullable_compact_bytes(v)
    }

    fn write(&self, writer: &mut Vec<u8>) -> (res: Result<(), KafkaErrors>) {
        match &self.val {
            Some(bytes) => write_nullable_compact_string(writer, Some(bytes.as_slice())),
            None => write_nullable_compact_string(writer, None),
        }
    }
}

impl CompactNullableString {
    /// The absent string.
    pub fn null() -> (s: Self)
        ensures
            s@ == None::<Seq<u8>>,
    {
        Self { val: None }
    }

    /// Reads a compact string that may be absent.
    pub fn new(req: &mut Reader) -> (res: Result<Self, KafkaErrors>)
        ensures
            reads_as(res, old(req)@, final(req)@, Self::decode(old(req)@)),
    {
        Self::read(req)
    }

    /// Writes the string.
    pub fn serialize(&self, resp: &mut Vec<u8>) -> (res: Result<(), KafkaErrors>)
        ensures
            res is Ok,
            final(resp)@ == old(resp)@ + Self::encode(self@),
    {
        self.write(resp)
    }
}

} // verus!
