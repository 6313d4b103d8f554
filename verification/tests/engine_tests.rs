use graphql_pool::app_model::build_app;
use graphql_pool::pool::{Pool, WorkItem};
use graphql_pool::response::{graphql_response, ContentKind, DispatchFailure};

use juniper::http::GraphQLRequest;
use juniper::tests::fixtures::starwars::schema::{Database, Query};
use juniper::{EmptyMutation, EmptySubscription, RootNode};

type Schema = RootNode<Query, EmptyMutation<Database>, EmptySubscription<Database>>;

fn schema() -> Schema {
    RootNode::new(Query, EmptyMutation::new(), EmptySubscription::new())
}

/// What one worker does with an assigned item: execute it against the
/// worker's private schema and context, then serialize the engine's result.
fn execute_item(schema: &Schema, ctx: &Database, item: &WorkItem) -> Result<String, DispatchFailure> {
    let request = GraphQLRequest::new(item.query.clone(), item.operation_name.clone(), None);
    let engine_result = request.execute_sync(schema, ctx);
    serde_json::to_string(&engine_result).map_err(|_| DispatchFailure::Serialization)
}

fn work_item(query: &str) -> WorkItem {
    WorkItem { query: query.to_string(), operation_name: None, variables: None }
}

#[test]
fn known_query_round_trip() {
    let schema = schema();
    let ctx = Database::new();
    let mut pool = Pool::new(4);
    let _ticket = pool.submit(work_item("{ human(id: \"1000\") { name } }"));
    let pending = pool.assign(0).expect("one pending item");
    let outcome = execute_item(&schema, &ctx, &pending.item);
    pool.complete(0);
    let response = graphql_response(outcome);
    assert_eq!(response.status, 200);
    assert_eq!(response.content_type, Some(ContentKind::Json));
    assert_eq!(response.body, "{\"data\":{\"human\":{\"name\":\"Luke Skywalker\"}}}");
}

#[test]
fn invalid_query_is_200_with_embedded_errors() {
    let schema = schema();
    let ctx = Database::new();
    let outcome = execute_item(&schema, &ctx, &work_item("{ human"));
    let payload = outcome.expect("a query-level error still serializes");
    assert!(payload.contains("errors"));
    let response = graphql_response(Ok(payload));
    assert_eq!(response.status, 200);
    assert_eq!(response.content_type, Some(ContentKind::Json));
    assert!(response.body.contains("errors"));
}

#[test]
fn unknown_field_is_200_with_embedded_errors() {
    let schema = schema();
    let ctx = Database::new();
    let outcome = execute_item(&schema, &ctx, &work_item("{ nosuchfield }"));
    let payload = outcome.expect("a validation error still serializes");
    assert!(payload.contains("errors"));
    let response = graphql_response(Ok(payload));
    assert_eq!(response.status, 200);
}

#[test]
fn same_query_twice_gives_two_identical_independent_responses() {
    let schema = schema();
    let ctx = Database::new();
    let mut app = build_app();
    let t1 = app.accept_query(work_item("{ human(id: \"1000\") { name } }"));
    let t2 = app.accept_query(work_item("{ human(id: \"1000\") { name } }"));
    assert_ne!(t1, t2);
    let first = app.pool.assign(0).expect("first copy");
    let second = app.pool.assign(1).expect("second copy");
    let r1 = graphql_response(execute_item(&schema, &ctx, &first.item));
    let r2 = graphql_response(execute_item(&schema, &ctx, &second.item));
    app.pool.complete(0);
    app.pool.complete(1);
    assert_eq!(r1.status, 200);
    assert_eq!(r2.status, 200);
    assert_eq!(r1.body, r2.body);
    assert_eq!(r1.body, "{\"data\":{\"human\":{\"name\":\"Luke Skywalker\"}}}");
}

#[test]
fn queries_on_one_worker_run_in_submission_order() {
    let schema = schema();
    let ctx = Database::new();
    let mut pool = Pool::new(1);
    let t_a = pool.submit(work_item("{ human(id: \"1000\") { name } }"));
    let t_b = pool.submit(work_item("{ human(id: \"1001\") { name } }"));
    // The single worker must finish A before it can begin B.
    let a = pool.assign(0).expect("A first");
    assert_eq!(a.ticket, t_a);
    let ra = graphql_response(execute_item(&schema, &ctx, &a.item));
    assert_eq!(pool.complete(0), t_a);
    let b = pool.assign(0).expect("then B");
    assert_eq!(b.ticket, t_b);
    let rb = graphql_response(execute_item(&schema, &ctx, &b.item));
    assert_eq!(pool.complete(0), t_b);
    assert_eq!(ra.body, "{\"data\":{\"human\":{\"name\":\"Luke Skywalker\"}}}");
    assert_eq!(rb.body, "{\"data\":{\"human\":{\"name\":\"Darth Vader\"}}}");
}
