//! A request from its frame to the response: the request is parsed, the
//! handler of its API builds the response, and the response begins with the
//! correlation id of the request, whatever else becomes of it.

use vstd::prelude::*;
use vstd::slice::slice_subrange;
use crate::apikey::{ApiKey, ErrorCodes, SupportedApiKeys, advertised, supported_api_keys};
use crate::body::{RequestBody, RequestBodyView};
use crate::errors::{Decoded, KafkaErrors};
use crate::fetch::FetchResponse;
use crate::header::{RequestHeader, RequestHeaderView};
use crate::metadata::{Metadata, MetadataView};
use crate::models::{opt_view, views};
use crate::parser::{KafkaRead, Reader, reads_as};
use crate::partitions::PartitionsResponse;
use crate::produce::ProduceResponse;
use crate::roundtrip::lemma_i32_bytes_back;
use crate::writer::{
    KafkaWrite, empty_tag_buffer, encode_array, write_array, write_bytes, write_raw,
    write_tag_buffer,
};

verus! {

/// The lowest version of Fetch whose messages carry tag buffers.
pub const FIRST_FLEXIBLE_FETCH_VER: i16 = 12;

/// The lowest version of Produce whose messages carry tag buffers.
pub const FIRST_FLEXIBLE_PRODUCE_VER: i16 = 9;

/// A request: its header and its body.
#[derive(Debug, Clone)]
pub struct Request {
    pub header: RequestHeader,
    pub body: RequestBody,
}

/// What a `Request` stands for: the same fields, with sequences in place of
/// vectors.
pub struct RequestView {
    pub header: RequestHeaderView,
    pub body: RequestBodyView,
}

impl View for Request {
    type V = RequestView;

    open spec fn view(&self) -> RequestView {
        RequestView { header: self.header@, body: self.body@ }
    }
}

/// Whether the header of the response to a request for the API `key` in the
/// version `ver` ends with a tag buffer. A DescribeTopicPartitions response
/// always has one, a Fetch response from version 12 on, a Produce response
/// from version 9 on. An ApiVersions response never has one: the client
/// reads it before it knows which versions the broker speaks.
pub open spec fn has_tagged_header(key: ApiKey, ver: i16) -> bool {
    match key {
        ApiKey::ApiVersions => false,
        ApiKey::DescribeTopicPartitions => true,
        ApiKey::Fetch => ver >= FIRST_FLEXIBLE_FETCH_VER,
        ApiKey::Produce => ver >= FIRST_FLEXIBLE_PRODUCE_VER,
    }
}

/// The header of the response to a request with the header `h`: the
/// correlation id, and a tag buffer where the API has one.
pub open spec fn response_header(h: RequestHeaderView) -> Seq<u8> {
    if has_tagged_header(h.api_key, h.api_ver) {
        i32::encode(h.correlation_id) + empty_tag_buffer()
    } else {
        i32::encode(h.correlation_id)
    }
}

/// The error code of an ApiVersions response: none for a version that the
/// broker answers, else "unsupported version".
pub open spec fn api_versions_error(ver: i16) -> ErrorCodes {
    if crate::MIN_SUPPORTED_API_VERSION <= ver <= crate::MAX_SUPPORTED_API_VERSION {
        ErrorCodes::NoError
    } else {
        ErrorCodes::UnsupportedAPIVersion
    }
}

/// The body of the response to an ApiVersions request of the version `ver`:
/// the error code, what the broker advertises as a compact array, no
/// throttling, and an empty tag buffer.
pub open spec fn api_versions_body(ver: i16) -> Seq<u8> {
    i16::encode(api_versions_error(ver).number()) + encode_array::<SupportedApiKeys>(advertised())
        + i32::encode(0) + empty_tag_buffer()
}

/// Whether the header of the response to `header` ends with a tag buffer.
pub fn is_flexible(header: &RequestHeader) -> (flexible: bool)
    ensures
        flexible == has_tagged_header(header@.api_key, header@.api_ver),
{
    match header.get_api_key() {
        ApiKey::ApiVersions => false,
        ApiKey::DescribeTopicPartitions => true,
        ApiKey::Fetch => header.get_api_ver() >= FIRST_FLEXIBLE_FETCH_VER,
        ApiKey::Produce => header.get_api_ver() >= FIRST_FLEXIBLE_PRODUCE_VER,
    }
}

/// Writes the header of the response to `header`.
pub fn write_response_header(response: &mut Vec<u8>, header: &RequestHeader)
    ensures
        final(response)@ == old(response)@ + response_header(header@),
{
    let _ = write_bytes(response, &header.get_correlation_id());
    if is_flexible(header) {
        let _ = write_tag_buffer(response);
        assert(response@ =~= old(response)@ + response_header(header@));
    }
}

/// Writes the body of the response to an ApiVersions request of the version
/// `api_ver`.
pub fn write_api_versions(response: &mut Vec<u8>, api_ver: i16)
    ensures
        final(response)@ == old(response)@ + api_versions_body(api_ver),
{
    let ec = if api_ver < crate::MIN_SUPPORTED_API_VERSION || api_ver
        > crate::MAX_SUPPORTED_API_VERSION {
        i16::from(ErrorCodes::UnsupportedAPIVersion)
    } else {
        i16::from(ErrorCodes::NoError)
    };
    let _ = write_bytes(response, &ec);
    let keys = supported_api_keys();
    assert(views(keys@) =~= advertised());
    let _ = write_array(response, keys.as_slice());
    let _ = write_bytes(response, &0i32);
    let _ = write_tag_buffer(response);
    assert(response@ =~= old(response)@ + api_versions_body(api_ver));
}

impl Request {
    /// A request on the wire: the header, and the body of the API that the
    /// header names.
    pub open spec fn decode(s: Seq<u8>) -> Decoded<RequestView> {
        match RequestHeader::decode(s) {
            Err(e) => Err(e),
            Ok((header, s1)) => match RequestBody::decode(s1, header.api_key) {
                Err(e) => Err(e),
                Ok((body, s2)) => Ok((RequestView { header, body }, s2)),
            },
        }
    }

    /// What the handler of the API writes behind the header of the response.
    pub open spec fn response_body(v: RequestView, md: MetadataView) -> Seq<u8> {
        match v.body {
            RequestBodyView::ApiVersions => api_versions_body(v.header.api_ver),
            RequestBodyView::DescribePartitions(p) => PartitionsResponse::encode(
                PartitionsResponse::respond(p, md),
            ),
            RequestBodyView::Fetch(f) => FetchResponse::encode(FetchResponse::respond(f)),
            RequestBodyView::Produce(p) => ProduceResponse::encode(ProduceResponse::respond(p)),
        }
    }

    /// The response to a request, from a catalog: the header of the
    /// response, and what the handler of the API writes.
    pub open spec fn response(v: RequestView, md: MetadataView) -> Seq<u8> {
        response_header(v.header) + Self::response_body(v, md)
    }

    /// Reads a request.
    pub fn new(req: &mut Reader) -> (res: Result<Self, KafkaErrors>)
        ensures
            reads_as(res, old(req)@, final(req)@, Self::decode(old(req)@)),
    {
        let mut cur = *req;
        let header = RequestHeader::new(&mut cur)?;
        let body = RequestBody::new(&mut cur, &header)?;
        *req = cur;
        Ok(Self { header, body })
    }

    /// Writes the response to the request.
    pub fn process(&self, response: &mut Vec<u8>, metadata: &Metadata) -> (res: Result<
        (),
        KafkaErrors,
    >)
        ensures
            res is Ok,
            final(response)@ == old(response)@ + Self::response(self@, metadata@),
    {
        write_response_header(response, &self.header);
        match &self.body {
            RequestBody::Fetch(fetcher) => {
                let fetch_resp = FetchResponse::new(fetcher);
                fetch_resp.serialize(response)?;
            },
            RequestBody::ApiVersions => {
                write_api_versions(response, self.header.get_api_ver());
            },
            RequestBody::DescribePartitions(p) => {
                let pr = PartitionsResponse::new(p, metadata);
                pr.serialize(response)?;
            },
            RequestBody::Produce(prod) => {
                let prod_resp = ProduceResponse::new(prod);
                prod_resp.serialize(response)?;
            },
        }
        assert(response@ =~= old(response)@ + Self::response(self@, metadata@));
        Ok(())
    }
}

/// What the broker makes of the frame of one request: the response to send,
/// and the error that cut the request short, if there was one.
#[derive(Debug, Clone)]
pub struct Reply {
    pub response: Vec<u8>,
    pub error: Option<KafkaErrors>,
}

/// What a `Reply` stands for: the same fields, with sequences in place of
/// vectors.
pub struct ReplyView {
    pub response: Seq<u8>,
    pub error: Option<KafkaErrors>,
}

impl View for Reply {
    type V = ReplyView;

    open spec fn view(&self) -> ReplyView {
        ReplyView { response: self.response@, error: self.error }
    }
}

/// The bytes of a frame that hold the correlation id: the fifth to the
/// eighth.
pub open spec fn correlation_bytes(frame: Seq<u8>) -> Seq<u8> {
    frame.subrange(4, 8)
}

/// What the broker makes of a frame. A frame too short to hold a
/// correlation id gets no response. A frame whose header does not parse
/// gets its correlation id back and nothing else. A frame whose body does
/// not parse gets the header of a response. Any other frame gets the
/// response of the handler of its API.
pub open spec fn reply(frame: Seq<u8>, md: MetadataView) -> Option<ReplyView> {
    if frame.len() < 8 {
        None
    } else {
        match RequestHeader::decode(frame) {
            Err(e) => Some(ReplyView { response: correlation_bytes(frame), error: Some(e) }),
            Ok((header, s1)) => match RequestBody::decode(s1, header.api_key) {
                Err(e) => Some(ReplyView { response: response_header(header), error: Some(e) }),
                Ok((body, _)) => Some(
                    ReplyView {
                        response: Request::response(RequestView { header, body }, md),
                        error: None,
                    },
                ),
            },
        }
    }
}

/// Every response begins with the four bytes of the correlation id of its
/// request, as they stood in the request, whether the request was parsed and
/// handled or not.
pub proof fn lemma_correlation_id_preserved(frame: Seq<u8>, md: MetadataView)
    ensures
        reply(frame, md) matches Some(r) ==> r.response.len() >= 4 && r.response.take(4)
            == correlation_bytes(frame),
{
    if frame.len() >= 8 {
        match RequestHeader::decode(frame) {
            Err(e) => {
                assert(correlation_bytes(frame).take(4) =~= correlation_bytes(frame));
            },
            Ok((header, s1)) => {
                let behind_key = frame.skip(2);
                let behind_version = behind_key.skip(2);
                lemma_i32_bytes_back(behind_version);
                assert(behind_version.take(4) =~= correlation_bytes(frame));
                let id = i32::encode(header.correlation_id);
                assert(id == correlation_bytes(frame));
                assert(response_header(header).take(4) =~= id);
                match RequestBody::decode(s1, header.api_key) {
                    Err(e) => {},
                    Ok((body, _)) => {
                        let v = RequestView { header, body };
                        assert(Request::response(v, md).take(4) =~= id);
                    },
                }
            },
        }
    }
}

/// Answers the frame of one request.
pub fn dispatch(frame: &[u8], metadata: &Metadata) -> (res: Option<Reply>)
    ensures
        opt_view(res) == reply(frame@, metadata@),
{
    if frame.len() < 8 {
        return None;
    }
    let mut reader = Reader::new(frame);
    let mut response: Vec<u8> = Vec::new();
    match RequestHeader::new(&mut reader) {
        Err(e) => {
            write_raw(&mut response, slice_subrange(frame, 4, 8));
            assert(response@ =~= correlation_bytes(frame@));
            Some(Reply { response, error: Some(e) })
        },
        Ok(header) => match RequestBody::new(&mut reader, &header) {
            Err(e) => {
                write_response_header(&mut response, &header);
                assert(response@ =~= response_header(header@));
                Some(Reply { response, error: Some(e) })
            },
            Ok(body) => {
                let request = Request { header, body };
                let _ = request.process(&mut response, metadata);
                assert(response@ =~= Request::response(request@, metadata@));
                Some(Reply { response, error: None })
            },
        },
    }
}

} // verus!
