//! The admin surface: which of its three pages a request asks for.

use vstd::prelude::*;
use crate::text::str_equal;

verus! {

/// What the admin endpoint answers.
#[derive(Clone, Copy, Debug, PartialEq, Eq, Structural)]
pub enum AdminRoute {
    /// The index page, with links to the other two.
    Index,
    /// The health check.
    Health,
    /// Every metric of the registry, in the text exposition format.
    Metrics,
    /// Anything else: 404.
    NotFound,
}

/// The page that a request for `path` with `method` asks for: `GET /`,
/// `GET /health` and `GET /metrics` are served, nothing else is.
pub open spec fn route_of(method: Seq<char>, path: Seq<char>) -> AdminRoute {
    if method != "GET"@ {
        AdminRoute::NotFound
    } else if path == "/"@ {
        AdminRoute::Index
    } else if path == "/health"@ {
        AdminRoute::Health
    } else if path == "/metrics"@ {
        AdminRoute::Metrics
    } else {
        AdminRoute::NotFound
    }
}

/// Routes a request by its method and the path of its URL.
pub fn route(method: &str, path: &str) -> (r: AdminRoute)
    ensures
        r == route_of(method@, path@),
{
    if !str_equal(method, "GET") {
        AdminRoute::NotFound
    } else if str_equal(path, "/") {
        AdminRoute::Index
    } else if str_equal(path, "/health") {
        AdminRoute::Health
    } else if str_equal(path, "/metrics") {
        AdminRoute::Metrics
    } else {
        AdminRoute::NotFound
    }
}

/// The body of the health check.
pub fn health_body() -> (body: &'static str)
    ensures
        body@ == "OK"@,
{
    "OK"
}

/// The body of the index page.
pub fn index_body() -> (body: &'static str)
    ensures
        body@ == "<a href='/metrics'>metrics</a>\n<br>\n<a href='/health'>health</a>\n"@,
{
    "<a href='/metrics'>metrics</a>\n<br>\n<a href='/health'>health</a>\n"
}

} // verus!
