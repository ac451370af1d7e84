//! The header that every request begins with.

use vstd::prelude::*;
use vstd::slice::slice_to_vec;
use crate::apikey::ApiKey;
use crate::errors::{Decoded, KafkaErrors};
use crate::models::opt_view;
use crate::parser::{
    KafkaRead, Reader, decode_nullable_string, decode_nullable_string_bytes, decode_tag_buffer,
    read_int, read_short, reads_as, tag_buffer,
};

verus! {

/// The header of a request.
#[derive(Debug, Clone)]
pub struct RequestHeader {
    pub api_key: ApiKey,
    pub api_ver: i16,
    pub correlation_id: i32,
    pub client_id: Option<Vec<u8>>,
}

/// What a `RequestHeader` stands for: the same fields, with sequences in place of
/// vectors.
pub struct RequestHeaderView {
    pub api_key: ApiKey,
    pub api_ver: i16,
    pub correlation_id: i32,
    pub client_id: Option<Seq<u8>>,
}

impl View for RequestHeader {
    type V = RequestHeaderView;

    open spec fn view(&self) -> RequestHeaderView {
        RequestHeaderView {
            api_key: self.api_key,
            api_ver: self.api_ver,
            correlation_id: self.correlation_id,
            client_id: opt_view(self.client_id),
        }
    }
}

impl RequestHeader {
    /// The header on the wire: the API key, the version of the API, the
    /// correlation id, the client id behind a 16-bit length, and a tag
    /// buffer, which is dropped. A key that stands for no API that the
    /// broker answers fails the header before anything else is read.
    pub open spec fn decode(s: Seq<u8>) -> Decoded<RequestHeaderView> {
        match ApiKey::decode(s) {
            Err(e) => Err(e),
            Ok((api_key, s1)) => match i16::decode(s1) {
                Err(e) => Err(e),
                Ok((api_ver, s2)) => match i32::decode(s2) {
                    Err(e) => Err(e),
                    Ok((correlation_id, s3)) => match decode_nullable_string_bytes(s3) {
                        Err(e) => Err(e),
                        Ok((client_id, s4)) => match decode_tag_buffer(s4) {
                            Err(e) => Err(e),
                            Ok((_, s5)) => Ok(
                                (
                                    RequestHeaderView {
                                        api_key,
                                        api_ver,
                                        correlation_id,
                                        client_id,
                                    },
                                    s5,
                                ),
                            ),
                        },
                    },
                },
            },
        }
    }

    /// Reads the header of a request.
    pub fn new(req: &mut Reader) -> (res: Result<Self, KafkaErrors>)
        ensures
            reads_as(res, old(req)@, final(req)@, Self::decode(old(req)@)),
    {
        let mut cur = *req;
        let api_key = ApiKey::parse(&mut cur)?;
        let api_ver = read_short(&mut cur)?;
        let correlation_id = read_int(&mut cur)?;
        let client_id = decode_nullable_string(&mut cur)?;
        tag_buffer(&mut cur)?;
        *req = cur;
        Ok(RequestHeader { api_key, api_ver, correlation_id, client_id })
    }

    /// The correlation id.
    pub fn get_correlation_id(&self) -> (id: i32)
        ensures
            id == self@.correlation_id,
    {
        self.correlation_id
    }

    /// The API that the request is for.
    pub fn get_api_key(&self) -> (key: ApiKey)
        ensures
            key == self@.api_key,
    {
        self.api_key
    }

    /// The number of the API that the request is for.
    pub fn get_api_key_num(&self) -> (n: i16)
        ensures
            n == self@.api_key.number(),
    {
        i16::from(self.api_key)
    }

    /// The version of the API.
    pub fn get_api_ver(&self) -> (ver: i16)
        ensures
            ver == self@.api_ver,
    {
        self.api_ver
    }

    /// The client id, if the request carries one.
    pub fn get_client_id(&self) -> (id: Option<Vec<u8>>)
        ensures
            opt_view(id) == self@.client_id,
    {
        match &self.client_id {
            Some(bytes) => Some(slice_to_vec(bytes.as_slice())),
            None => None,
        }
    }
}

} // verus!
