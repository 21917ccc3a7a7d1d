//! The per-parameter accessor decision: every parameter of a route view
//! is filled either from the ambient path parameters or from the query,
//! and a path parameter is handed over as a bare value, as the raw
//! parse result, or behind a redirect taken on parse failure.

use vstd::prelude::*;
use vstd::string::StringExecFns;
use crate::strutil::push_char;

verus! {

/// The arguments of a path-parameter annotation.
#[derive(Debug, Clone)]
pub struct PathAttributeArgs {
    /// Hand the raw parse result to the view instead of unwrapping it.
    pub result: bool,
    /// Navigate here instead of rendering when the parameter fails to
    /// parse.
    pub redirect: Option<String>,
}

impl Default for PathAttributeArgs {
    /// An annotation without arguments: unwrap in place, no redirect.
    fn default() -> (r: PathAttributeArgs)
        ensures
            !r.result,
            r.redirect is None,
    {
        PathAttributeArgs { result: false, redirect: None }
    }
}

/// How one view parameter is filled at runtime.
#[derive(Debug)]
pub enum AccessorKind {
    /// The raw parse result of the ambient path parameters.
    ParamsResult,
    /// The parsed path parameters, a failed parse redirecting there.
    ParamsRedirect { redirect: String },
    /// The parsed path parameters, a failed parse rendering an error view.
    ParamsInline,
    /// The parsed ambient query.
    Query,
}

/// What accessor a parameter gets. A raw-result marker wins over a
/// redirect; a parameter carrying neither a path nor a query annotation
/// is rejected, as is one of the unsupported raw-result wrapper type.
pub open spec fn spec_classify_accessor(
    path_param: Option<PathAttributeArgs>,
    has_query: bool,
    is_memo_result: bool,
) -> Result<AccessorKind, Seq<char>> {
    if is_memo_result {
        Err("Detecting and constructing MemoResult not implemented."@)
    } else {
        match path_param {
            Some(a) => if a.result {
                Ok(AccessorKind::ParamsResult)
            } else {
                match a.redirect {
                    Some(url) => Ok(AccessorKind::ParamsRedirect { redirect: url }),
                    None => Ok(AccessorKind::ParamsInline),
                }
            },
            None => if has_query {
                Ok(AccessorKind::Query)
            } else {
                Err("Parameter must have either `#[path_param]` or `#[query]`."@)
            },
        }
    }
}

/// Decide how one view parameter is filled, from its annotations.
pub fn classify_accessor(
    path_param: Option<PathAttributeArgs>,
    has_query: bool,
    is_memo_result: bool,
) -> (r: Result<AccessorKind, String>)
    ensures
        match r {
            Ok(k) => spec_classify_accessor(path_param, has_query, is_memo_result) == Ok::<
                AccessorKind,
                Seq<char>,
            >(k),
            Err(e) => spec_classify_accessor(path_param, has_query, is_memo_result) == Err::<
                AccessorKind,
                Seq<char>,
            >(e@),
        },
{
    if is_memo_result {
        let mut e = String::new();
        e.append("Detecting and constructing MemoResult not implemented.");
        return Err(e);
    }
    match path_param {
        Some(a) => {
            if a.result {
                Ok(AccessorKind::ParamsResult)
            } else {
                match a.redirect {
                    Some(url) => Ok(AccessorKind::ParamsRedirect { redirect: url }),
                    None => Ok(AccessorKind::ParamsInline),
                }
            }
        },
        None => {
            if has_query {
                Ok(AccessorKind::Query)
            } else {
                let mut e = String::new();
                e.append("Parameter must have either `#[path_param]` or `#[query]`.");
                Err(e)
            }
        },
    }
}

/// The segments of a variant path joined by underscores, from `i` on.
pub open spec fn joined_underscore(parts: Seq<Seq<char>>, i: int) -> Seq<char>
    decreases parts.len() - i,
{
    if i < 0 || i >= parts.len() {
        Seq::<char>::empty()
    } else {
        (if i > 0 {
            seq!['_']
        } else {
            Seq::<char>::empty()
        }) + parts[i] + joined_underscore(parts, i + 1)
    }
}

/// Join the segments of a variant path (`AppRouter::Foo`) with
/// underscores, the shape used to name the generated accessor function.
pub fn variant_path_to_string(parts: &Vec<String>) -> (r: String)
    ensures
        r@ == joined_underscore(parts@.map_values(|p: String| p@), 0),
{
    let ghost pv = parts@.map_values(|p: String| p@);
    let mut r = String::new();
    let mut i: usize = 0;
    while i < parts.len()
        invariant
            i <= parts@.len(),
            pv == parts@.map_values(|p: String| p@),
            r@ + joined_underscore(pv, i as int) == joined_underscore(pv, 0),
        decreases parts@.len() - i,
    {
        proof {
            assert(pv[i as int] == parts@[i as int]@);
        }
        if i > 0 {
            push_char(&mut r, '_');
        }
        r.append(parts[i].as_str());
        i = i + 1;
        proof {
            assert(r@ + joined_underscore(pv, i as int) =~= joined_underscore(pv, 0));
        }
    }
    proof {
        assert(joined_underscore(pv, parts@.len() as int) =~= Seq::<char>::empty());
        assert(r@ =~= joined_underscore(pv, 0));
    }
    r
}

} // verus!
