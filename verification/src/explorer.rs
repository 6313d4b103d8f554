use vstd::prelude::*;
use crate::response::{ContentKind, ResponseModel};

verus! {

/// `sub` occurs verbatim somewhere inside `s`.
pub open spec fn contains_substr(s: Seq<char>, sub: Seq<char>) -> bool {
    exists|k: int| 0 <= k && k + sub.len() <= s.len() && #[trigger] s.subrange(k, k + sub.len()) == sub
}

/// The explorer page the GraphQL engine generates for a given query
/// endpoint URL.
pub uninterp spec fn graphiql_page_of(url: Seq<char>) -> Seq<char>;

/// Relies on juniper::http::graphiql::graphiql_source: the page is a fixed
/// HTML template with the endpoint URL spliced in once by `format!` and
/// `str::replace` (the template holds the replace marker exactly once), so
/// it depends on the URL alone and contains the URL verbatim.
#[verifier::external_body]
fn graphiql_page(url: &str) -> (r: String)
    ensures
        r@ == graphiql_page_of(url@),
        contains_substr(r@, url@),
{
    juniper::http::graphiql::graphiql_source(url, None)
}

/// The explorer handler's whole decision. It consults nothing about the
/// request — method, headers and body included — so every request gets
/// HTTP 200, `text/html; charset=utf-8`, and the explorer page configured
/// to send its queries to `/graphql`.
pub fn graphiql_response() -> (r: ResponseModel)
    ensures
        r.status == 200,
        r.content_type == Some(ContentKind::HtmlUtf8),
        r.body@ == graphiql_page_of("/graphql"@),
        contains_substr(r.body@, "/graphql"@),
{
    let page = graphiql_page("/graphql");
    ResponseModel { status: 200, content_type: Some(ContentKind::HtmlUtf8), body: page }
}

} // verus!
