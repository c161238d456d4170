//! Typed payload wrappers for extracted request data. The transport
//! integration (deserialization, rejections) lives in the surrounding
//! program; the library holds the value shapes the handlers work with.

use vstd::prelude::*;

verus! {

/// A JSON request or response body.
pub struct Json<T>(pub T);

/// A form-encoded request body.
pub struct Form<T>(pub T);

/// Decoded query-string parameters.
pub struct Query<T>(pub T);

/// Query parameters that passed validation.
#[derive(Debug, Clone, Copy)]
pub struct ValidatedQuery<T>(pub T);

/// A form body that passed validation.
#[derive(Debug, Clone, Copy)]
pub struct ValidatedForm<T>(pub T);

/// A JSON body that passed validation.
#[derive(Debug, Clone, Copy)]
pub struct ValidatedJson<T>(pub T);

/// Decoded path parameters.
pub struct Path<T>(pub T);

} // verus!
