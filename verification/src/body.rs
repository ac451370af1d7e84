//! The body of a request, one kind for each API.

use vstd::prelude::*;
use crate::apikey::ApiKey;
use crate::errors::{Decoded, KafkaErrors};
use crate::fetch::{FetchRequest, FetchRequestView};
use crate::header::RequestHeader;
use crate::parser::{Reader, reads_as};
use crate::partitions::{PartitionsRequest, PartitionsRequestView};
use crate::produce::{ProduceRequest, ProduceRequestView};

verus! {

/// The body of a request.
#[derive(Debug, Clone)]
pub enum RequestBody {
    /// The body of an ApiVersions request, of which nothing is kept.
    ApiVersions,
    DescribePartitions(PartitionsRequest),
    Fetch(FetchRequest),
    Produce(ProduceRequest),
}

/// What a `RequestBody` stands for: the same variants, with sequences in place of
/// vectors.
pub enum RequestBodyView {
    ApiVersions,
    DescribePartitions(PartitionsRequestView),
    Fetch(FetchRequestView),
    Produce(ProduceRequestView),
}

impl View for RequestBody {
    type V = RequestBodyView;

    open spec fn view(&self) -> RequestBodyView {
        match self {
            RequestBody::ApiVersions => RequestBodyView::ApiVersions,
            RequestBody::DescribePartitions(r) => RequestBodyView::DescribePartitions(r@),
            RequestBody::Fetch(r) => RequestBodyView::Fetch(r@),
            RequestBody::Produce(r) => RequestBodyView::Produce(r@),
        }
    }
}

impl RequestBody {
    /// The body of a request for the API `key`. The body of an ApiVersions
    /// request is not read at all.
    pub open spec fn decode(s: Seq<u8>, key: ApiKey) -> Decoded<RequestBodyView> {
        match key {
            ApiKey::ApiVersions => Ok((RequestBodyView::ApiVersions, s)),
            ApiKey::DescribeTopicPartitions => match PartitionsRequest::decode(s) {
                Err(e) => Err(e),
                Ok((r, rest)) => Ok((RequestBodyView::DescribePartitions(r), rest)),
            },
            ApiKey::Fetch => match FetchRequest::decode(s) {
                Err(e) => Err(e),
                Ok((r, rest)) => Ok((RequestBodyView::Fetch(r), rest)),
            },
            ApiKey::Produce => match ProduceRequest::decode(s) {
                Err(e) => Err(e),
                Ok((r, rest)) => Ok((RequestBodyView::Produce(r), rest)),
            },
        }
    }

    /// Reads the body of the request that begins with the header `t`.
    pub fn new(req: &mut Reader, t: &RequestHeader) -> (res: Result<Self, KafkaErrors>)
        ensures
            reads_as(res, old(req)@, final(req)@, Self::decode(old(req)@, t@.api_key)),
    {
        match t.get_api_key() {
            ApiKey::Fetch => Ok(RequestBody::Fetch(FetchRequest::new(req)?)),
            ApiKey::ApiVersions => Ok(RequestBody::ApiVersions),
            ApiKey::DescribeTopicPartitions => Ok(
                RequestBody::DescribePartitions(PartitionsRequest::new(req)?),
            ),
            ApiKey::Produce => Ok(RequestBody::Produce(ProduceRequest::new(req)?)),
        }
    }
}

} // verus!
