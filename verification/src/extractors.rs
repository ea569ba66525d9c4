//! Transparent wrappers for the values that per-channel request extraction
//! hands to a handler. Extraction itself is the host framework's work; these
//! types only carry the extracted value, and a failed extraction reaches the
//! handler as a `Fail` envelope built by `Brest::fail_status`.

use vstd::prelude::*;

verus! {

/// The value a JSON-body adapter extracted. The adapter is a transparent
/// pass-through: on the happy path the extracted value travels unchanged,
/// and an extraction failure becomes a `Fail` envelope built by
/// `Brest::fail_status` from the host framework's message and status.
pub struct Json<T>(pub T);

impl<T> Json<T> {
    /// The extracted value.
    pub fn into_inner(self) -> (r: T)
        ensures
            r == self.0,
    {
        self.0
    }

    /// A borrow of the extracted value.
    pub fn get(&self) -> (r: &T)
        ensures
            *r == self.0,
    {
        &self.0
    }
}

/// The value a request-extension adapter extracted: a request-scoped context
/// value the host framework carried.
pub struct Extension<T>(pub T);

impl<T> Extension<T> {
    /// The extracted value.
    pub fn into_inner(self) -> (r: T)
        ensures
            r == self.0,
    {
        self.0
    }

    /// A borrow of the extracted value.
    pub fn get(&self) -> (r: &T)
        ensures
            *r == self.0,
    {
        &self.0
    }
}

/// The value a form-body adapter extracted.
pub struct Form<T>(pub T);

impl<T> Form<T> {
    /// The extracted value.
    pub fn into_inner(self) -> (r: T)
        ensures
            r == self.0,
    {
        self.0
    }

    /// A borrow of the extracted value.
    pub fn get(&self) -> (r: &T)
        ensures
            *r == self.0,
    {
        &self.0
    }
}

/// The value a path-parameter adapter extracted.
pub struct Path<T>(pub T);

impl<T> Path<T> {
    /// The extracted value.
    pub fn into_inner(self) -> (r: T)
        ensures
            r == self.0,
    {
        self.0
    }

    /// A borrow of the extracted value.
    pub fn get(&self) -> (r: &T)
        ensures
            *r == self.0,
    {
        &self.0
    }
}

/// The value a query-string adapter extracted.
pub struct Query<T>(pub T);

impl<T> Query<T> {
    /// The extracted value.
    pub fn into_inner(self) -> (r: T)
        ensures
            r == self.0,
    {
        self.0
    }

    /// A borrow of the extracted value.
    pub fn get(&self) -> (r: &T)
        ensures
            *r == self.0,
    {
        &self.0
    }
}

} // verus!
