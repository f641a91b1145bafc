//! Routing of requests that reach the local socket gateway.
use vstd::prelude::*;
use crate::text::same_text;

verus! {

/// What the gateway does with a request.
#[derive(Clone, Copy, Debug, PartialEq, Eq, Structural)]
pub enum Route {
    /// Fetching content: answered with a fixed preview.
    Fetch,
    /// Storing content: the body is streamed into the content-addressed store.
    Store,
    /// Any other method.
    NotFound,
}

/// The route for a request method: `GET` fetches, `POST` stores, anything
/// else is not found.
pub open spec fn route_spec(method: Seq<char>) -> Route {
    if method == "GET"@ {
        Route::Fetch
    } else if method == "POST"@ {
        Route::Store
    } else {
        Route::NotFound
    }
}

/// Picks the route for a request method.
pub fn route(method: &str) -> (r: Route)
    ensures
        r == route_spec(method@),
{
    if same_text(method, "GET") {
        Route::Fetch
    } else if same_text(method, "POST") {
        Route::Store
    } else {
        Route::NotFound
    }
}

} // verus!
