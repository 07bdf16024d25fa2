//! The response layer: turning a query outcome into an HTTP response, and the
//! end-to-end pipeline over the store model. A successful listing becomes a
//! status-200 JSON body; a query failure becomes an opaque server error whose
//! body carries none of the underlying detail; an unmatched request becomes
//! the standard not-found response.

use vstd::prelude::*;
use crate::json::{render_categories_body, render_reviews_body, spec_categories_body,
    spec_reviews_body};
use crate::model::{list_categories, list_reviews, spec_list_reviews, spec_names, Review, Store};
use crate::routes::{dispatch, spec_dispatch, Method, Route, RouteView};

verus! {

/// Success status.
pub const STATUS_OK: u16 = 200;

/// Standard not-found status.
pub const STATUS_NOT_FOUND: u16 = 404;

/// Opaque server-error status.
pub const STATUS_SERVER_ERROR: u16 = 500;

/// An HTTP response as this service produces it: a status, a body, and
/// whether the permissive cross-origin policy is attached.
pub struct Response {
    pub status: u16,
    pub body: Vec<u8>,
    pub allow_any_origin: bool,
}

/// The mathematical shape of a [`Response`].
pub struct ResponseView {
    pub status: u16,
    pub body: Seq<u8>,
    pub allow_any_origin: bool,
}

impl View for Response {
    type V = ResponseView;

    open spec fn view(&self) -> ResponseView {
        ResponseView { status: self.status, body: self.body@, allow_any_origin: self.allow_any_origin }
    }
}

/// A failure during query execution or row mapping: connectivity loss, a
/// malformed query, or a row that does not fit the expected shape. The detail
/// is for operator diagnosis only; it never reaches a response body.
pub struct QueryError {
    pub detail: Vec<u8>,
}

/// The opaque server-error response: status 500, an empty body whatever the
/// failure was, so no internal detail can leak to the client.
pub fn server_error_response(_err: &QueryError) -> (r: Response)
    ensures
        r@.status == STATUS_SERVER_ERROR,
        r@.body == Seq::<u8>::empty(),
        r@.allow_any_origin,
{
    Response { status: STATUS_SERVER_ERROR, body: Vec::new(), allow_any_origin: true }
}

/// The standard not-found response.
pub fn not_found_response() -> (r: Response)
    ensures
        r@.status == STATUS_NOT_FOUND,
        r@.body == Seq::<u8>::empty(),
        !r@.allow_any_origin,
{
    Response { status: STATUS_NOT_FOUND, body: Vec::new(), allow_any_origin: false }
}

/// The response to `GET /categories` once the store has answered: on success
/// a 200 with the names as a JSON array of strings, on failure the opaque
/// server error with an empty body.
pub fn respond_categories(result: Result<Vec<Vec<u8>>, QueryError>) -> (r: Response)
    ensures
        match result {
            Ok(names) => r@.status == STATUS_OK && r@.body == spec_categories_body(
                names.deep_view(),
            ) && r@.allow_any_origin,
            Err(_) => r@.status == STATUS_SERVER_ERROR && r@.body == Seq::<u8>::empty()
                && r@.allow_any_origin,
        },
{
    match result {
        Ok(names) => {
            let body = render_categories_body(&names);
            Response { status: STATUS_OK, body, allow_any_origin: true }
        },
        Err(e) => server_error_response(&e),
    }
}

/// The response to `GET /categories/{category}/{leaderboard}` once the store
/// has answered: on success a 200 with the reviews as a JSON array of
/// objects, on failure the opaque server error with an empty body.
pub fn respond_reviews(result: Result<Vec<Review>, QueryError>) -> (r: Response)
    ensures
        match result {
            Ok(reviews) => r@.status == STATUS_OK && r@.body == spec_reviews_body(reviews@)
                && r@.allow_any_origin,
            Err(_) => r@.status == STATUS_SERVER_ERROR && r@.body == Seq::<u8>::empty()
                && r@.allow_any_origin,
        },
{
    match result {
        Ok(reviews) => {
            let body = render_reviews_body(&reviews);
            Response { status: STATUS_OK, body, allow_any_origin: true }
        },
        Err(e) => server_error_response(&e),
    }
}

/// What the whole pipeline answers for one request against a reachable
/// store: route matching, query, JSON rendering.
pub open spec fn spec_handle(store: Store, method: Method, path: Seq<u8>) -> ResponseView {
    match spec_dispatch(method, path) {
        RouteView::Categories => ResponseView {
            status: STATUS_OK,
            body: spec_categories_body(spec_names(store.categories@)),
            allow_any_origin: true,
        },
        RouteView::Reviews(category, leaderboard) => ResponseView {
            status: STATUS_OK,
            body: spec_reviews_body(spec_list_reviews(store, category, leaderboard)),
            allow_any_origin: true,
        },
        RouteView::NotFound => ResponseView {
            status: STATUS_NOT_FOUND,
            body: Seq::empty(),
            allow_any_origin: false,
        },
    }
}

/// Serves one request against the store model: matches the path, runs the
/// selected query, and renders the JSON body. A request for an unknown
/// (category, leaderboard) pair still succeeds, with an empty array.
pub fn handle(store: &Store, method: Method, path: &Vec<u8>) -> (r: Response)
    ensures
        r@ == spec_handle(*store, method, path@),
{
    let route = dispatch(method, path);
    match route {
        Route::Categories => {
            let names = list_categories(store);
            respond_categories(Ok(names))
        },
        Route::Reviews(category, leaderboard) => {
            let reviews = list_reviews(store, &category, &leaderboard);
            respond_reviews(Ok(reviews))
        },
        Route::NotFound => not_found_response(),
    }
}

/// Idempotence: with no intervening change to the store, two answers to the
/// same request are equal — in particular their bodies are byte-identical.
pub proof fn lemma_handle_idempotent(
    store: Store,
    method: Method,
    path: Seq<u8>,
    r1: ResponseView,
    r2: ResponseView,
)
    requires
        r1 == spec_handle(store, method, path),
        r2 == spec_handle(store, method, path),
    ensures
        r1 == r2,
        r1.body == r2.body,
{
}

/// A request for a pair whose category or leaderboard name is unknown to the
/// store still succeeds: status 200 with the empty JSON array — never a
/// not-found and never an error.
pub proof fn lemma_unknown_pair_still_ok(
    store: Store,
    path: Seq<u8>,
    category: Seq<u8>,
    leaderboard: Seq<u8>,
)
    requires
        spec_dispatch(Method::Get, path) == RouteView::Reviews(category, leaderboard),
        crate::model::spec_resolve(store.categories@, category) is None
            || crate::model::spec_resolve(store.leaderboards@, leaderboard) is None,
    ensures
        spec_handle(store, Method::Get, path).status == STATUS_OK,
        spec_handle(store, Method::Get, path).body == seq![91u8, 93u8],
{
    crate::model::lemma_unknown_name_empty(store, category, leaderboard);
    assert(spec_reviews_body(Seq::<Review>::empty()) =~= seq![91u8, 93u8]);
}

/// Independence: the answer to a request is a function of the store and that
/// request's own method and path alone, so concurrent requests for distinct
/// (category, leaderboard) pairs cannot leak data into one another — each
/// body is the rendering of its own pair's reviews, whatever the other
/// request asked for.
pub proof fn lemma_requests_independent(
    store: Store,
    path1: Seq<u8>,
    path2: Seq<u8>,
    category1: Seq<u8>,
    leaderboard1: Seq<u8>,
    category2: Seq<u8>,
    leaderboard2: Seq<u8>,
)
    requires
        spec_dispatch(Method::Get, path1) == RouteView::Reviews(category1, leaderboard1),
        spec_dispatch(Method::Get, path2) == RouteView::Reviews(category2, leaderboard2),
    ensures
        spec_handle(store, Method::Get, path1).body == spec_reviews_body(
            spec_list_reviews(store, category1, leaderboard1),
        ),
        spec_handle(store, Method::Get, path2).body == spec_reviews_body(
            spec_list_reviews(store, category2, leaderboard2),
        ),
{
}

} // verus!
