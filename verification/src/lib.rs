//! A read-only query service over a two-level hierarchy of stored rankings:
//! categories, and within each (category, leaderboard) pair a list of scored
//! participant reviews.
//!
//! The verified core covers the request pipeline: matching a request path
//! against the two route patterns, resolving names against the store and
//! selecting the matching reviews in ascending participant order, rendering
//! the result as JSON bytes, and translating query failures into an opaque
//! server-error response.

pub mod json;
pub mod model;
pub mod routes;
pub mod service;

use vstd::prelude::*;

verus! {

} // verus!
