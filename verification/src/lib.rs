//! A route-specification compiler: a declarative table of routes (an ordered
//! list of variants, each with a path pattern, a route kind and typed fields)
//! is validated against structural rules and interpreted in two inverse
//! directions: a serializer from a typed route value to a canonical URL, and
//! a parser from a URL string back to a typed route value, including nested
//! sub-routers.

use vstd::prelude::*;

pub mod accessor;
pub mod builder;
pub mod combine;
pub mod laws;
pub mod model;
pub mod naming;
pub mod param;
pub mod parse;
pub mod routes;
pub mod segment;
pub mod state;
pub mod strutil;
pub mod tree;
pub mod validate;
pub mod value;

verus! {

/// A value that can render itself as a URL path string.
pub trait ToPath {
    fn to_path(&self) -> String;
}

/// A value that can be consumed to produce a URL path string.
pub trait IntoPath {
    fn into_path(self) -> String;
}

impl IntoPath for String {
    /// A string already is a path.
    fn into_path(self) -> (r: String)
        ensures
            r == self,
    {
        self
    }
}

/// The route-compiler contract every generated route enum supports: a
/// parser from URL strings and a designated fallback value. A nested
/// route type must support it too, so that nesting composes.
pub trait Routable: Sized {
    /// Parse a URL string into a route value, or say why none matches.
    fn try_from_path(s: &str) -> Result<Self, String>;

    /// The value navigation resolves to when no route matches.
    fn fallback_route() -> Self;
}

/// Setting a query-bound signal from anything that renders as a path.
pub trait QuerySignalSetterExt<T> {
    fn set_path<P: IntoPath>(&self, pathlike: P);
}

/// Reading and steering the current location as plain path strings.
pub trait LocationExt {
    fn current_path(&self) -> String;

    fn set_path<P: IntoPath>(&self, pathlike: P);
}

} // verus!
