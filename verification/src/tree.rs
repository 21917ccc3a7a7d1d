//! Tree assembly: the validated route table is turned into the nested
//! router declaration — one declaration node per routed variant, tagged
//! by its kind, children threaded into nesting nodes, declaration order
//! kept, and the designated fallback view wired at the root.

use vstd::prelude::*;
use crate::model::{RouteKind, RouteTable, TableConfig};
use crate::naming::{build_variant_view_name, spec_view_name};
use crate::parse::{fallback_idx, find_fallback};
use crate::validate::table_valid;

verus! {

/// How one declaration node behaves, by its route kind.
#[derive(Debug)]
pub enum DeclKind {
    /// A plain route.
    Leaf,
    /// A nesting route with the nested table's declarations as children.
    Nested { ssr: Option<String>, children: Vec<RouteDecl> },
    /// A guarded route.
    Guarded { condition: String, redirect: String, fallback_view: String },
    /// A guarded nesting route.
    GuardedNested {
        condition: String,
        redirect: String,
        fallback_view: String,
        ssr: Option<String>,
        children: Vec<RouteDecl>,
    },
}

/// One declaration in the router tree: a path, the view it renders, and
/// its kind-specific behaviour.
#[derive(Debug)]
pub struct RouteDecl {
    pub path: String,
    pub view: String,
    pub kind: DeclKind,
}

/// The assembled router: the transition flag, the root declarations in
/// variant order, and the fallback view's name.
#[derive(Debug)]
pub struct RouterModel {
    pub transition: bool,
    pub fallback_view: String,
    pub children: Vec<RouteDecl>,
}

/// The mathematical shape of a declaration node.
pub enum DeclKindView {
    Leaf,
    Nested { ssr: Option<Seq<char>>, children: Seq<DeclView> },
    Guarded { condition: Seq<char>, redirect: Seq<char>, fallback_view: Seq<char> },
    GuardedNested {
        condition: Seq<char>,
        redirect: Seq<char>,
        fallback_view: Seq<char>,
        ssr: Option<Seq<char>>,
        children: Seq<DeclView>,
    },
}

pub struct DeclView {
    pub path: Seq<char>,
    pub view: Seq<char>,
    pub kind: DeclKindView,
}

pub open spec fn opt_string_view(s: Option<String>) -> Option<Seq<char>> {
    match s {
        Some(x) => Some(x@),
        None => None,
    }
}

/// The view of one declaration, children included.
pub open spec fn decl_view(d: RouteDecl) -> DeclView
    decreases d, 0int,
{
    DeclView {
        path: d.path@,
        view: d.view@,
        kind: match d.kind {
            DeclKind::Leaf => DeclKindView::Leaf,
            DeclKind::Nested { ssr, children } => DeclKindView::Nested {
                ssr: opt_string_view(ssr),
                children: decl_views_from(children@, 0),
            },
            DeclKind::Guarded { condition, redirect, fallback_view } => DeclKindView::Guarded {
                condition: condition@,
                redirect: redirect@,
                fallback_view: fallback_view@,
            },
            DeclKind::GuardedNested { condition, redirect, fallback_view, ssr, children } => DeclKindView::GuardedNested {
                condition: condition@,
                redirect: redirect@,
                fallback_view: fallback_view@,
                ssr: opt_string_view(ssr),
                children: decl_views_from(children@, 0),
            },
        },
    }
}

/// The views of the declarations from position `i` on.
pub open spec fn decl_views_from(ds: Seq<RouteDecl>, i: int) -> Seq<DeclView>
    decreases ds, ds.len() - i,
{
    if i < 0 || i >= ds.len() {
        Seq::<DeclView>::empty()
    } else {
        seq![decl_view(ds[i])] + decl_views_from(ds, i + 1)
    }
}

pub open spec fn decl_views(ds: Seq<RouteDecl>) -> Seq<DeclView> {
    decl_views_from(ds, 0)
}

proof fn lemma_decl_views_push_at(ds: Seq<RouteDecl>, d: RouteDecl, i: int)
    requires
        0 <= i <= ds.len(),
    ensures
        decl_views_from(ds.push(d), i) =~= decl_views_from(ds, i) + seq![decl_view(d)],
    decreases ds.len() - i,
{
    if i == ds.len() {
        assert(ds.push(d)[i] == d);
        assert(decl_views_from(ds.push(d), i + 1) =~= Seq::<DeclView>::empty());
        assert(decl_views_from(ds, i) =~= Seq::<DeclView>::empty());
    } else {
        assert(ds.push(d)[i] == ds[i]);
        lemma_decl_views_push_at(ds, d, i + 1);
    }
}

/// Appending a declaration appends its view.
pub proof fn lemma_decl_views_push(ds: Seq<RouteDecl>, d: RouteDecl)
    ensures
        decl_views(ds.push(d)) =~= decl_views(ds) + seq![decl_view(d)],
{
    lemma_decl_views_push_at(ds, d, 0);
}

/// The view name a table's configuration derives for a variant name.
pub open spec fn table_view_name(cfg: TableConfig, name: Seq<char>) -> Seq<char> {
    spec_view_name(cfg.view_prefix@, name, cfg.view_suffix@)
}

/// The declarations a table denotes, from variant `i` on: unrouted
/// variants contribute nothing, every other variant one node in
/// declaration order, nesting variants carrying their nested table's
/// declarations as children.
pub open spec fn spec_assemble_from(t: RouteTable, i: int) -> Seq<DeclView>
    decreases t, t.variants@.len() - i,
{
    if i < 0 || i >= t.variants@.len() {
        Seq::<DeclView>::empty()
    } else {
        let v = t.variants@[i];
        let here = match v.kind {
            RouteKind::Unrouted => Seq::<DeclView>::empty(),
            RouteKind::Leaf { path } => seq![
                DeclView {
                    path: path@,
                    view: table_view_name(t.config, v.name@),
                    kind: DeclKindView::Leaf,
                },
            ],
            RouteKind::Parent { path, ssr, table } => seq![
                DeclView {
                    path: path@,
                    view: table_view_name(t.config, v.name@),
                    kind: DeclKindView::Nested {
                        ssr: opt_string_view(ssr),
                        children: spec_assemble_from(*table, 0),
                    },
                },
            ],
            RouteKind::Protected { path, guard } => seq![
                DeclView {
                    path: path@,
                    view: table_view_name(t.config, v.name@),
                    kind: DeclKindView::Guarded {
                        condition: guard.condition@,
                        redirect: guard.redirect@,
                        fallback_view: guard.fallback_view@,
                    },
                },
            ],
            RouteKind::ProtectedParent { path, guard, ssr, table } => seq![
                DeclView {
                    path: path@,
                    view: table_view_name(t.config, v.name@),
                    kind: DeclKindView::GuardedNested {
                        condition: guard.condition@,
                        redirect: guard.redirect@,
                        fallback_view: guard.fallback_view@,
                        ssr: opt_string_view(ssr),
                        children: spec_assemble_from(*table, 0),
                    },
                },
            ],
        };
        here + spec_assemble_from(t, i + 1)
    }
}

/// The fallback view of a table: derived from the fallback variant.
pub open spec fn spec_fallback_view(t: RouteTable) -> Seq<char> {
    table_view_name(t.config, t.variants@[fallback_idx(t)].name@)
}

/// Clone an optional string.
fn clone_opt_string(s: &Option<String>) -> (r: Option<String>)
    ensures
        r == *s,
{
    match s {
        Some(x) => Some(x.clone()),
        None => None,
    }
}

/// Assemble the declarations of one table, in declaration order.
fn assemble_children(t: &RouteTable) -> (r: Vec<RouteDecl>)
    ensures
        decl_views(r@) == spec_assemble_from(*t, 0),
    decreases *t,
{
    let mut r: Vec<RouteDecl> = Vec::new();
    let mut i: usize = 0;
    proof {
        assert(decl_views(r@) =~= Seq::<DeclView>::empty());
    }
    while i < t.variants.len()
        invariant
            i <= t.variants@.len(),
            decl_views(r@) + spec_assemble_from(*t, i as int) == spec_assemble_from(*t, 0),
        decreases t.variants@.len() - i,
    {
        let v = &t.variants[i];
        let view = build_variant_view_name(
            t.config.view_prefix.as_str(),
            v.name.as_str(),
            t.config.view_suffix.as_str(),
        );
        let made: Option<RouteDecl> = match &v.kind {
            RouteKind::Unrouted => None,
            RouteKind::Leaf { path } => Some(
                RouteDecl { path: path.clone(), view, kind: DeclKind::Leaf },
            ),
            RouteKind::Parent { path, ssr, table } => {
                let children = assemble_children(table);
                Some(
                    RouteDecl {
                        path: path.clone(),
                        view,
                        kind: DeclKind::Nested { ssr: clone_opt_string(ssr), children },
                    },
                )
            },
            RouteKind::Protected { path, guard } => Some(
                RouteDecl {
                    path: path.clone(),
                    view,
                    kind: DeclKind::Guarded {
                        condition: guard.condition.clone(),
                        redirect: guard.redirect.clone(),
                        fallback_view: guard.fallback_view.clone(),
                    },
                },
            ),
            RouteKind::ProtectedParent { path, guard, ssr, table } => {
                let children = assemble_children(table);
                Some(
                    RouteDecl {
                        path: path.clone(),
                        view,
                        kind: DeclKind::GuardedNested {
                            condition: guard.condition.clone(),
                            redirect: guard.redirect.clone(),
                            fallback_view: guard.fallback_view.clone(),
                            ssr: clone_opt_string(ssr),
                            children,
                        },
                    },
                )
            },
        };
        let ghost before = r@;
        match made {
            Some(d) => {
                let ghost dg = d;
                r.push(d);
                proof {
                    lemma_decl_views_push(before, dg);
                }
            },
            None => {},
        }
        i = i + 1;
        proof {
            assert(decl_views(r@) + spec_assemble_from(*t, i as int) =~~= spec_assemble_from(
                *t,
                0,
            ));
        }
    }
    proof {
        assert(spec_assemble_from(*t, t.variants@.len() as int) =~~= Seq::<DeclView>::empty());
        assert(decl_views(r@) =~~= spec_assemble_from(*t, 0));
    }
    r
}

/// Assemble a validated table into its router model: the declarations in
/// variant order, the transition flag carried over, and the fallback
/// variant's view wired as the router's fallback.
pub fn assemble(t: &RouteTable) -> (r: RouterModel)
    requires
        table_valid(*t),
    ensures
        decl_views(r.children@) == spec_assemble_from(*t, 0),
        r.fallback_view@ == spec_fallback_view(*t),
        r.transition == t.config.transition,
{
    let children = assemble_children(t);
    let fi = find_fallback(t);
    let fallback_view = build_variant_view_name(
        t.config.view_prefix.as_str(),
        t.variants[fi].name.as_str(),
        t.config.view_suffix.as_str(),
    );
    RouterModel { transition: t.config.transition, fallback_view, children }
}

} // verus!
