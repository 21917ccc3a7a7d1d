//! The normalized route model: per-variant attribute inputs, the
//! classified route kind, field metadata, and the route table an enum
//! denotes. One table describes one enum; a nesting variant embeds the
//! table of its nested route type.

use vstd::prelude::*;

verus! {

/// Arguments of a plain route annotation.
#[derive(Debug, Clone)]
pub struct RouteAttrs {
    pub path: Option<String>,
}

/// Arguments of a nesting route annotation.
#[derive(Debug, Clone)]
pub struct ParentRouteAttrs {
    pub path: Option<String>,
    pub ssr: Option<String>,
}

/// Arguments of a guarded route annotation.
#[derive(Debug, Clone)]
pub struct ProtectedRouteAttrs {
    pub path: Option<String>,
    pub condition: Option<String>,
    pub redirect_path: Option<String>,
    pub fallback: Option<String>,
}

/// Arguments of a guarded nesting route annotation.
#[derive(Debug, Clone)]
pub struct ProtectedParentRouteAttrs {
    pub path: Option<String>,
    pub condition: Option<String>,
    pub redirect_path: Option<String>,
    pub fallback: Option<String>,
    pub ssr: Option<String>,
}

/// Arguments of the fallback marker.
#[derive(Debug, Clone, Default)]
pub struct FallbackAttrs {
    pub replace: Option<bool>,
    pub resolve: Option<bool>,
}

/// How the assembled routes are rendered: picked automatically, as a flat
/// list, or as a nested tree.
#[derive(Debug, Clone, Copy, PartialEq, Eq, Structural)]
pub enum RoutingMode {
    Auto,
    Flat,
    Nested,
}

/// The semantic category of a field value. The model carries one
/// unsigned category, with the full range of a decimal `u64`: a field
/// of a narrower width shares that range here, and its own bound is the
/// host type's concern.
#[derive(Debug, Clone, Copy, PartialEq, Eq, Structural)]
pub enum ValueTy {
    /// An unsigned integer, rendered and parsed in decimal.
    UInt,
    /// Free text, rendered and parsed as itself.
    Text,
}

/// One declared field of a route variant.
#[derive(Debug, Clone)]
pub struct FieldSpec {
    pub name: String,
    pub ty: ValueTy,
    /// Whether the field's type is an `Option`: such a field may be
    /// absent, and a field not used by the path must be of this shape.
    pub optional: bool,
}

/// The expressions carried by a guarded route.
#[derive(Debug, Clone)]
pub struct GuardSpec {
    /// Evaluates to an optional boolean: allow, deny, or still loading.
    pub condition: String,
    /// Where to redirect when the condition denies.
    pub redirect: String,
    /// The view shown while the condition is indeterminate.
    pub fallback_view: String,
}

/// The classification of one variant: leaf route, nesting route, guarded
/// leaf, guarded nesting route, or no route at all.
#[derive(Debug)]
pub enum RouteKind {
    Leaf { path: String },
    Parent { path: String, ssr: Option<String>, table: Box<RouteTable> },
    Protected { path: String, guard: GuardSpec },
    ProtectedParent { path: String, guard: GuardSpec, ssr: Option<String>, table: Box<RouteTable> },
    /// A variant with no direct route; it is excluded from the router
    /// tree on purpose, so that pure-state variants can exist.
    Unrouted,
}

/// One variant of a route enum, classified and normalized.
#[derive(Debug)]
pub struct VariantSpec {
    pub name: String,
    pub kind: RouteKind,
    pub fields: Vec<FieldSpec>,
    pub is_fallback: bool,
}

/// Enum-level configuration of a route table.
#[derive(Debug, Clone)]
pub struct TableConfig {
    pub transition: bool,
    pub view_prefix: String,
    pub view_suffix: String,
    pub state_suffix: Option<String>,
}

/// The route table denoted by one annotated enum: its configuration and
/// its variants in declaration order.
#[derive(Debug)]
pub struct RouteTable {
    pub config: TableConfig,
    pub variants: Vec<VariantSpec>,
}

impl RouteKind {
    /// The path pattern of the kind, if it has one.
    pub open spec fn path_view(self) -> Option<Seq<char>> {
        match self {
            RouteKind::Leaf { path } => Some(path@),
            RouteKind::Parent { path, .. } => Some(path@),
            RouteKind::Protected { path, .. } => Some(path@),
            RouteKind::ProtectedParent { path, .. } => Some(path@),
            RouteKind::Unrouted => None,
        }
    }

    /// Whether the kind delegates a path suffix to a nested table.
    pub open spec fn is_nesting(self) -> bool {
        self is Parent || self is ProtectedParent
    }

    /// The nested table of a nesting kind.
    pub open spec fn nested_table(self) -> RouteTable
        recommends
            self.is_nesting(),
    {
        match self {
            RouteKind::Parent { table, .. } => *table,
            RouteKind::ProtectedParent { table, .. } => *table,
            RouteKind::Leaf { .. } => arbitrary(),
            RouteKind::Protected { .. } => arbitrary(),
            RouteKind::Unrouted => arbitrary(),
        }
    }
}

/// Everything the classifier reads about one enum variant: which
/// route-kind annotations are present with their arguments, whether the
/// fallback marker is present, the named fields, and — for a variant whose
/// sole payload is a nested route type — that type's own table.
pub struct VariantInput {
    pub name: String,
    pub route: Option<RouteAttrs>,
    pub parent_route: Option<ParentRouteAttrs>,
    pub protected_route: Option<ProtectedRouteAttrs>,
    pub protected_parent_route: Option<ProtectedParentRouteAttrs>,
    pub fallback: Option<FallbackAttrs>,
    pub fields: Vec<FieldSpec>,
    pub nested: Option<Box<RouteTable>>,
}

/// A structural violation, reported at the variant it concerns.
#[derive(Debug)]
pub enum Diagnostic {
    /// More than one route-kind annotation on one variant.
    MultipleRouteAttrs { variant: String },
    /// A guarded kind without its condition, redirect or fallback expression.
    MissingGuardExpr { variant: String },
    /// A nesting kind on a variant that carries no nested route payload.
    NestedPayloadMissing { variant: String },
    /// A nesting kind on a variant that also declares named fields.
    NestedPayloadExtraFields { variant: String },
    /// A path parameter with no field of the same name.
    UnmatchedParam { variant: String, name: String },
    /// An optional path parameter bound to a field that is not optional.
    OptionalParamRequiredField { variant: String, name: String },
    /// A field that no path segment consumes and that is not optional.
    UnusedRequiredField { variant: String, name: String },
    /// An optional segment followed by a required one, which the
    /// positional matcher cannot consume unambiguously.
    OptionalBeforeRequired { variant: String },
    /// No variant carries the fallback marker.
    NoFallback,
    /// A second variant carries the fallback marker.
    MultipleFallbacks { variant: String },
}

/// How many route-kind annotations the variant carries.
pub open spec fn attr_count(v: VariantInput) -> int {
    (if v.route is Some {
        1int
    } else {
        0int
    }) + (if v.parent_route is Some {
        1int
    } else {
        0int
    }) + (if v.protected_route is Some {
        1int
    } else {
        0int
    }) + (if v.protected_parent_route is Some {
        1int
    } else {
        0int
    })
}

/// Whether an optional path argument is present and non-empty.
pub open spec fn concrete_path(p: Option<String>) -> bool {
    match p {
        Some(s) => s@.len() > 0,
        None => false,
    }
}

/// What classification returns for one variant: exactly one route kind,
/// or a diagnostic. An annotation whose path is absent or empty makes the
/// variant `Unrouted`; more than one annotation is an error; a nesting
/// annotation needs the nested payload table and no further fields.
pub open spec fn spec_classify(v: VariantInput) -> Result<VariantSpec, Diagnostic> {
    if attr_count(v) > 1 {
        Err(Diagnostic::MultipleRouteAttrs { variant: v.name })
    } else if v.route is Some {
        let a = v.route->Some_0;
        if !concrete_path(a.path) {
            Ok(VariantSpec {
                name: v.name,
                kind: RouteKind::Unrouted,
                fields: v.fields,
                is_fallback: v.fallback is Some,
            })
        } else {
            Ok(VariantSpec {
                name: v.name,
                kind: RouteKind::Leaf { path: a.path->Some_0 },
                fields: v.fields,
                is_fallback: v.fallback is Some,
            })
        }
    } else if v.parent_route is Some {
        let a = v.parent_route->Some_0;
        if !concrete_path(a.path) {
            Ok(VariantSpec {
                name: v.name,
                kind: RouteKind::Unrouted,
                fields: v.fields,
                is_fallback: v.fallback is Some,
            })
        } else if v.nested is None {
            Err(Diagnostic::NestedPayloadMissing { variant: v.name })
        } else if v.fields@.len() > 0 {
            Err(Diagnostic::NestedPayloadExtraFields { variant: v.name })
        } else {
            Ok(VariantSpec {
                name: v.name,
                kind: RouteKind::Parent {
                    path: a.path->Some_0,
                    ssr: a.ssr,
                    table: v.nested->Some_0,
                },
                fields: v.fields,
                is_fallback: v.fallback is Some,
            })
        }
    } else if v.protected_route is Some {
        let a = v.protected_route->Some_0;
        if !concrete_path(a.path) {
            Ok(VariantSpec {
                name: v.name,
                kind: RouteKind::Unrouted,
                fields: v.fields,
                is_fallback: v.fallback is Some,
            })
        } else if a.condition is None || a.redirect_path is None || a.fallback is None {
            Err(Diagnostic::MissingGuardExpr { variant: v.name })
        } else {
            Ok(VariantSpec {
                name: v.name,
                kind: RouteKind::Protected {
                    path: a.path->Some_0,
                    guard: GuardSpec {
                        condition: a.condition->Some_0,
                        redirect: a.redirect_path->Some_0,
                        fallback_view: a.fallback->Some_0,
                    },
                },
                fields: v.fields,
                is_fallback: v.fallback is Some,
            })
        }
    } else if v.protected_parent_route is Some {
        let a = v.protected_parent_route->Some_0;
        if !concrete_path(a.path) {
            Ok(VariantSpec {
                name: v.name,
                kind: RouteKind::Unrouted,
                fields: v.fields,
                is_fallback: v.fallback is Some,
            })
        } else if a.condition is None || a.redirect_path is None || a.fallback is None {
            Err(Diagnostic::MissingGuardExpr { variant: v.name })
        } else if v.nested is None {
            Err(Diagnostic::NestedPayloadMissing { variant: v.name })
        } else if v.fields@.len() > 0 {
            Err(Diagnostic::NestedPayloadExtraFields { variant: v.name })
        } else {
            Ok(VariantSpec {
                name: v.name,
                kind: RouteKind::ProtectedParent {
                    path: a.path->Some_0,
                    guard: GuardSpec {
                        condition: a.condition->Some_0,
                        redirect: a.redirect_path->Some_0,
                        fallback_view: a.fallback->Some_0,
                    },
                    ssr: a.ssr,
                    table: v.nested->Some_0,
                },
                fields: v.fields,
                is_fallback: v.fallback is Some,
            })
        }
    } else {
        Ok(VariantSpec {
            name: v.name,
            kind: RouteKind::Unrouted,
            fields: v.fields,
            is_fallback: v.fallback is Some,
        })
    }
}

/// Classify one variant into exactly one route kind, normalizing its
/// attributes into a `VariantSpec`.
pub fn classify_variant(v: VariantInput) -> (r: Result<VariantSpec, Diagnostic>)
    ensures
        r == spec_classify(v),
{
    let VariantInput { name, route, parent_route, protected_route, protected_parent_route, fallback, fields, nested } = v;
    let is_fallback = fallback.is_some();
    let count: u32 = (if route.is_some() {
        1
    } else {
        0
    }) + (if parent_route.is_some() {
        1
    } else {
        0
    }) + (if protected_route.is_some() {
        1
    } else {
        0
    }) + (if protected_parent_route.is_some() {
        1
    } else {
        0
    });
    if count > 1 {
        return Err(Diagnostic::MultipleRouteAttrs { variant: name });
    }
    if let Some(a) = route {
        let path_ok = match &a.path {
            Some(p) => p.as_str().unicode_len() > 0,
            None => false,
        };
        if !path_ok {
            return Ok(VariantSpec { name, kind: RouteKind::Unrouted, fields, is_fallback });
        }
        let path = a.path.unwrap();
        return Ok(VariantSpec { name, kind: RouteKind::Leaf { path }, fields, is_fallback });
    }
    if let Some(a) = parent_route {
        let path_ok = match &a.path {
            Some(p) => p.as_str().unicode_len() > 0,
            None => false,
        };
        if !path_ok {
            return Ok(VariantSpec { name, kind: RouteKind::Unrouted, fields, is_fallback });
        }
        if nested.is_none() {
            return Err(Diagnostic::NestedPayloadMissing { variant: name });
        }
        if fields.len() > 0 {
            return Err(Diagnostic::NestedPayloadExtraFields { variant: name });
        }
        let path = a.path.unwrap();
        let table = nested.unwrap();
        return Ok(VariantSpec {
            name,
            kind: RouteKind::Parent { path, ssr: a.ssr, table },
            fields,
            is_fallback,
        });
    }
    if let Some(a) = protected_route {
        let path_ok = match &a.path {
            Some(p) => p.as_str().unicode_len() > 0,
            None => false,
        };
        if !path_ok {
            return Ok(VariantSpec { name, kind: RouteKind::Unrouted, fields, is_fallback });
        }
        if a.condition.is_none() || a.redirect_path.is_none() || a.fallback.is_none() {
            return Err(Diagnostic::MissingGuardExpr { variant: name });
        }
        let path = a.path.unwrap();
        let guard = GuardSpec {
            condition: a.condition.unwrap(),
            redirect: a.redirect_path.unwrap(),
            fallback_view: a.fallback.unwrap(),
        };
        return Ok(VariantSpec {
            name,
            kind: RouteKind::Protected { path, guard },
            fields,
            is_fallback,
        });
    }
    if let Some(a) = protected_parent_route {
        let path_ok = match &a.path {
            Some(p) => p.as_str().unicode_len() > 0,
            None => false,
        };
        if !path_ok {
            return Ok(VariantSpec { name, kind: RouteKind::Unrouted, fields, is_fallback });
        }
        if a.condition.is_none() || a.redirect_path.is_none() || a.fallback.is_none() {
            return Err(Diagnostic::MissingGuardExpr { variant: name });
        }
        if nested.is_none() {
            return Err(Diagnostic::NestedPayloadMissing { variant: name });
        }
        if fields.len() > 0 {
            return Err(Diagnostic::NestedPayloadExtraFields { variant: name });
        }
        let path = a.path.unwrap();
        let table = nested.unwrap();
        let guard = GuardSpec {
            condition: a.condition.unwrap(),
            redirect: a.redirect_path.unwrap(),
            fallback_view: a.fallback.unwrap(),
        };
        return Ok(VariantSpec {
            name,
            kind: RouteKind::ProtectedParent { path, guard, ssr: a.ssr, table },
            fields,
            is_fallback,
        });
    }
    Ok(VariantSpec { name, kind: RouteKind::Unrouted, fields, is_fallback })
}

} // verus!
