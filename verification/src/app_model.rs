use vstd::prelude::*;
use vstd::string::StringExecFns;
use crate::pool::{Pool, WorkItem, submit_step};
use crate::response::ResponseModel;
use crate::explorer::graphiql_response;

verus! {

/// How many workers the builder gives the pool.
pub const POOL_WORKERS: usize = 4;

/// Which handler a request path reaches.
#[derive(Clone, Copy, PartialEq, Eq, Structural, Debug)]
pub enum RouteKind {
    Query,
    Explorer,
    NoRoute,
}

/// The application the builder wires up: the worker pool and the two
/// registered routes. The hosting server holds one of these for its whole
/// lifetime and only submits work through it.
pub struct AppModel {
    pub pool: Pool,
    pub query_path: String,
    pub explorer_path: String,
}

impl AppModel {
    /// A built application: a well-formed pool behind the two fixed routes.
    pub open spec fn wf(self) -> bool {
        &&& self.pool.wf()
        &&& self.query_path@ == "/graphql"@
        &&& self.explorer_path@ == "/graphiql"@
    }

    /// Route dispatch, decided by the path alone: the request method,
    /// headers and body play no part.
    pub fn route_for(&self, path: &String) -> (r: RouteKind)
        ensures
            path@ == self.query_path@ ==> r == RouteKind::Query,
            path@ != self.query_path@ && path@ == self.explorer_path@ ==> r
                == RouteKind::Explorer,
            path@ != self.query_path@ && path@ != self.explorer_path@ ==> r == RouteKind::NoRoute,
    {
        if *path == self.query_path {
            RouteKind::Query
        } else if *path == self.explorer_path {
            RouteKind::Explorer
        } else {
            RouteKind::NoRoute
        }
    }

    /// The query handler's submission half: enqueue one parsed request on
    /// the pool and hand back the ticket the caller awaits. Exactly one
    /// submission per request; the routes stay as built.
    pub fn accept_query(&mut self, item: WorkItem) -> (t: u64)
        requires
            old(self).wf(),
            old(self).pool.next_ticket < u64::MAX,
        ensures
            final(self).wf(),
            submit_step(old(self).pool, final(self).pool, item, t),
            final(self).query_path == old(self).query_path,
            final(self).explorer_path == old(self).explorer_path,
    {
        self.pool.submit(item)
    }

    /// The explorer handler: every request on the explorer route gets the
    /// static explorer page; the application state is not touched.
    pub fn serve_explorer(&self) -> (r: ResponseModel)
        ensures
            r.status == 200,
            r.content_type == Some(crate::response::ContentKind::HtmlUtf8),
            r.body@ == crate::explorer::graphiql_page_of("/graphql"@),
            crate::explorer::contains_substr(r.body@, "/graphql"@),
    {
        graphiql_response()
    }
}

/// The application builder: construct the fixed-size worker pool — each
/// worker builds its own schema and context from the caller's factories at
/// startup, outside this model — and register the query route and the
/// explorer route against it.
pub fn build_app() -> (m: AppModel)
    ensures
        m.wf(),
        m.pool.running@.len() == POOL_WORKERS,
        forall|w: int| 0 <= w < POOL_WORKERS ==> m.pool.running@[w] is None,
        m.pool.queue@.len() == 0,
        m.pool.next_ticket == 0,
        m.query_path@ == "/graphql"@,
        m.explorer_path@ == "/graphiql"@,
{
    AppModel {
        pool: Pool::new(POOL_WORKERS),
        query_path: String::from_str("/graphql"),
        explorer_path: String::from_str("/graphiql"),
    }
}

} // verus!
