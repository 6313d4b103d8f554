use vstd::prelude::*;
use vstd::string::StringExecFns;

verus! {

/// The two content types this module ever serves.
#[derive(Clone, Copy, PartialEq, Eq, Structural, Debug)]
pub enum ContentKind {
    Json,
    HtmlUtf8,
}

impl ContentKind {
    /// The exact header value each kind stands for.
    pub fn header_value(&self) -> (r: String)
        ensures
            *self == ContentKind::Json ==> r@ == "application/json"@,
            *self == ContentKind::HtmlUtf8 ==> r@ == "text/html; charset=utf-8"@,
    {
        match self {
            ContentKind::Json => String::from_str("application/json"),
            ContentKind::HtmlUtf8 => String::from_str("text/html; charset=utf-8"),
        }
    }
}

/// What an HTTP response from this module looks like, as far as its logic
/// decides it: a status code, an optional content type, and a body. The
/// hosting server turns this into a wire response unchanged.
pub struct ResponseModel {
    pub status: u16,
    pub content_type: Option<ContentKind>,
    pub body: String,
}

/// Why a submitted work item produced no payload: the pool could not
/// deliver it or complete it (a worker failed, the queue was unreachable),
/// or the worker could not serialize the engine's result.
#[derive(Clone, Copy, PartialEq, Eq, Structural, Debug)]
pub enum DispatchFailure {
    Submission,
    Serialization,
}

/// How the query handler answers, given the outcome the pool handed back
/// for one work item: a payload — engine-level errors are already embedded
/// inside it — travels as 200 `application/json` with the payload as body;
/// any failure becomes 500 with an empty body and no content type.
pub open spec fn is_graphql_response(outcome: Result<String, DispatchFailure>, r: ResponseModel) -> bool {
    &&& outcome matches Ok(payload) ==> {
        &&& r.status == 200
        &&& r.content_type == Some(ContentKind::Json)
        &&& r.body == payload
    }
    &&& outcome is Err ==> {
        &&& r.status == 500
        &&& r.content_type is None
        &&& r.body@ == Seq::<char>::empty()
    }
}

/// The query handler's whole decision for one work item's outcome.
pub fn graphql_response(outcome: Result<String, DispatchFailure>) -> (r: ResponseModel)
    ensures
        is_graphql_response(outcome, r),
{
    match outcome {
        Ok(payload) => ResponseModel {
            status: 200,
            content_type: Some(ContentKind::Json),
            body: payload,
        },
        Err(_) => ResponseModel { status: 500, content_type: None, body: String::new() },
    }
}

/// A query-level error is never a transport error: whatever payload the
/// engine serialized — error objects included — travels back as HTTP 200,
/// byte for byte.
pub proof fn lemma_engine_errors_travel_as_200(payload: String, r: ResponseModel)
    requires
        is_graphql_response(Ok(payload), r),
    ensures
        r.status == 200,
        r.body == payload,
{
}

/// Responding is deterministic and stateless: equal payloads from two
/// submissions of the same query yield responses of identical status,
/// content type and body — nothing is cached, nothing leaks from one
/// response into the other.
pub proof fn lemma_response_independent(
    payload1: String,
    payload2: String,
    r1: ResponseModel,
    r2: ResponseModel,
)
    requires
        payload1 == payload2,
        is_graphql_response(Ok(payload1), r1),
        is_graphql_response(Ok(payload2), r2),
    ensures
        r1.status == r2.status,
        r1.content_type == r2.content_type,
        r1.body == r2.body,
{
}

} // verus!
