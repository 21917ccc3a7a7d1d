//! The structural validator: every path parameter must match a declared
//! field, optional path parameters must bind optional fields, fields the
//! path does not consume must be optional, an optional segment may not
//! precede a required one, and exactly one variant across the enum is the
//! fallback. Validation fails closed: any violation withholds the whole
//! router.

use vstd::prelude::*;
use vstd::assert_by_contradiction;
use crate::model::{Diagnostic, FieldSpec, RouteKind, RouteTable, VariantSpec};
use crate::segment::{spec_parse_segments, parse_segments, seg_views, SegView, Segment};

verus! {

/// The mathematical shape of a diagnostic.
pub enum DiagView {
    MultipleRouteAttrs { variant: Seq<char> },
    MissingGuardExpr { variant: Seq<char> },
    NestedPayloadMissing { variant: Seq<char> },
    NestedPayloadExtraFields { variant: Seq<char> },
    UnmatchedParam { variant: Seq<char>, name: Seq<char> },
    OptionalParamRequiredField { variant: Seq<char>, name: Seq<char> },
    UnusedRequiredField { variant: Seq<char>, name: Seq<char> },
    OptionalBeforeRequired { variant: Seq<char> },
    NoFallback,
    MultipleFallbacks { variant: Seq<char> },
}

impl View for Diagnostic {
    type V = DiagView;

    open spec fn view(&self) -> DiagView {
        match self {
            Diagnostic::MultipleRouteAttrs { variant } => DiagView::MultipleRouteAttrs {
                variant: variant@,
            },
            Diagnostic::MissingGuardExpr { variant } => DiagView::MissingGuardExpr {
                variant: variant@,
            },
            Diagnostic::NestedPayloadMissing { variant } => DiagView::NestedPayloadMissing {
                variant: variant@,
            },
            Diagnostic::NestedPayloadExtraFields { variant } => DiagView::NestedPayloadExtraFields {
                variant: variant@,
            },
            Diagnostic::UnmatchedParam { variant, name } => DiagView::UnmatchedParam {
                variant: variant@,
                name: name@,
            },
            Diagnostic::OptionalParamRequiredField { variant, name } => DiagView::OptionalParamRequiredField {
                variant: variant@,
                name: name@,
            },
            Diagnostic::UnusedRequiredField { variant, name } => DiagView::UnusedRequiredField {
                variant: variant@,
                name: name@,
            },
            Diagnostic::OptionalBeforeRequired { variant } => DiagView::OptionalBeforeRequired {
                variant: variant@,
            },
            Diagnostic::NoFallback => DiagView::NoFallback,
            Diagnostic::MultipleFallbacks { variant } => DiagView::MultipleFallbacks {
                variant: variant@,
            },
        }
    }
}

/// The views of a vector of diagnostics.
pub open spec fn diag_views(ds: Seq<Diagnostic>) -> Seq<DiagView> {
    ds.map_values(|d: Diagnostic| d@)
}

impl SegView {
    /// Whether this segment binds a parameter of the given name.
    pub open spec fn binds(self, name: Seq<char>) -> bool {
        match self {
            SegView::Static(_) => false,
            SegView::Param(n) => n == name,
            SegView::OptionalParam(n) => n == name,
        }
    }
}

/// The index of the first field with the given name, or the field count
/// if there is none.
pub open spec fn field_idx(fields: Seq<FieldSpec>, name: Seq<char>) -> int
    decreases fields.len(),
{
    if fields.len() == 0 {
        0
    } else if fields.first().name@ == name {
        0
    } else {
        1 + field_idx(fields.drop_first(), name)
    }
}

pub open spec fn has_field(fields: Seq<FieldSpec>, name: Seq<char>) -> bool {
    field_idx(fields, name) < fields.len()
}

pub proof fn lemma_field_idx_props(fields: Seq<FieldSpec>, name: Seq<char>)
    ensures
        0 <= field_idx(fields, name) <= fields.len(),
        forall|j: int| 0 <= j < field_idx(fields, name) ==> (#[trigger] fields[j]).name@ != name,
        has_field(fields, name) ==> fields[field_idx(fields, name)].name@ == name,
    decreases fields.len(),
{
    if fields.len() != 0 && fields.first().name@ != name {
        lemma_field_idx_props(fields.drop_first(), name);
        assert(forall|j: int| 1 <= j < field_idx(fields, name) ==> fields[j] == fields.drop_first()[j
            - 1]);
    }
}

pub proof fn lemma_field_idx_unique(fields: Seq<FieldSpec>, name: Seq<char>, k: int)
    requires
        0 <= k <= fields.len(),
        forall|j: int| 0 <= j < k ==> (#[trigger] fields[j]).name@ != name,
        k < fields.len() ==> fields[k].name@ == name,
    ensures
        field_idx(fields, name) == k,
    decreases fields.len(),
{
    if fields.len() != 0 {
        if k == 0 {
        } else {
            assert(fields[0].name@ != name);
            assert(forall|j: int| 0 <= j < k - 1 ==> (#[trigger] fields.drop_first()[j]) == fields[j
                + 1]);
            assert(k - 1 < fields.drop_first().len() ==> fields.drop_first()[k - 1] == fields[k]);
            lemma_field_idx_unique(fields.drop_first(), name, k - 1);
        }
    }
}

/// Find the first field with the given name.
pub fn find_field<'a>(fields: &'a Vec<FieldSpec>, name: &String) -> (r: Option<&'a FieldSpec>)
    ensures
        match r {
            Some(f) => has_field(fields@, name@) && *f == fields@[field_idx(fields@, name@)],
            None => !has_field(fields@, name@),
        },
{
    let mut i: usize = 0;
    while i < fields.len()
        invariant
            i <= fields@.len(),
            forall|j: int| 0 <= j < i ==> (#[trigger] fields@[j]).name@ != name@,
        decreases fields@.len() - i,
    {
        if fields[i].name == *name {
            proof {
                lemma_field_idx_unique(fields@, name@, i as int);
            }
            return Some(&fields[i]);
        }
        i = i + 1;
    }
    proof {
        lemma_field_idx_unique(fields@, name@, fields@.len() as int);
    }
    None
}

/// Find the position of the first field with the given name.
pub fn find_field_pos(fields: &Vec<FieldSpec>, name: &String) -> (r: Option<usize>)
    ensures
        match r {
            Some(j) => has_field(fields@, name@) && j as int == field_idx(fields@, name@),
            None => !has_field(fields@, name@),
        },
{
    let mut i: usize = 0;
    while i < fields.len()
        invariant
            i <= fields@.len(),
            forall|j: int| 0 <= j < i ==> (#[trigger] fields@[j]).name@ != name@,
        decreases fields@.len() - i,
    {
        if fields[i].name == *name {
            proof {
                lemma_field_idx_unique(fields@, name@, i as int);
            }
            return Some(i);
        }
        i = i + 1;
    }
    proof {
        lemma_field_idx_unique(fields@, name@, fields@.len() as int);
    }
    None
}

/// Whether any parameter segment binds the given name.
pub open spec fn used_in_path(segs: Seq<SegView>, name: Seq<char>) -> bool {
    exists|k: int| 0 <= k < segs.len() && (#[trigger] segs[k]).binds(name)
}

/// Whether any parameter segment of `segs` binds `name`.
pub fn segs_use_name(segs: &Vec<Segment>, name: &String) -> (r: bool)
    ensures
        r == used_in_path(seg_views(segs@), name@),
{
    let mut i: usize = 0;
    while i < segs.len()
        invariant
            i <= segs@.len(),
            forall|j: int| 0 <= j < i ==> !(#[trigger] seg_views(segs@)[j]).binds(name@),
        decreases segs@.len() - i,
    {
        let hit = match &segs[i] {
            Segment::Static(_) => false,
            Segment::Param(n) => *n == *name,
            Segment::OptionalParam(n) => *n == *name,
        };
        if hit {
            proof {
                assert(seg_views(segs@)[i as int].binds(name@));
            }
            return true;
        }
        proof {
            assert(!seg_views(segs@)[i as int].binds(name@));
        }
        i = i + 1;
    }
    false
}

/// The diagnostics of the parameter segments from position `i` on: every
/// parameter must name a field, and an optional parameter's field must be
/// optional.
pub open spec fn seg_diags(
    vname: Seq<char>,
    segs: Seq<SegView>,
    fields: Seq<FieldSpec>,
    i: int,
) -> Seq<DiagView>
    decreases segs.len() - i,
{
    if i < 0 || i >= segs.len() {
        Seq::<DiagView>::empty()
    } else {
        let here = match segs[i] {
            SegView::Static(_) => Seq::<DiagView>::empty(),
            SegView::Param(n) => if has_field(fields, n) {
                Seq::<DiagView>::empty()
            } else {
                seq![DiagView::UnmatchedParam { variant: vname, name: n }]
            },
            SegView::OptionalParam(n) => if !has_field(fields, n) {
                seq![DiagView::UnmatchedParam { variant: vname, name: n }]
            } else if !fields[field_idx(fields, n)].optional {
                seq![DiagView::OptionalParamRequiredField { variant: vname, name: n }]
            } else {
                Seq::<DiagView>::empty()
            },
        };
        here + seg_diags(vname, segs, fields, i + 1)
    }
}

/// The diagnostics of the declared fields from position `i` on: a field
/// that no path segment consumes must be optional, since it can only be a
/// query parameter.
pub open spec fn unused_diags(
    vname: Seq<char>,
    fields: Seq<FieldSpec>,
    segs: Seq<SegView>,
    i: int,
) -> Seq<DiagView>
    decreases fields.len() - i,
{
    if i < 0 || i >= fields.len() {
        Seq::<DiagView>::empty()
    } else {
        let here = if !used_in_path(segs, fields[i].name@) && !fields[i].optional {
            seq![DiagView::UnusedRequiredField { variant: vname, name: fields[i].name@ }]
        } else {
            Seq::<DiagView>::empty()
        };
        here + unused_diags(vname, fields, segs, i + 1)
    }
}

/// Whether an optional segment stands before a required one.
pub open spec fn opt_before_required(segs: Seq<SegView>) -> bool {
    exists|i: int, j: int|
        0 <= i < j < segs.len() && (#[trigger] segs[i]) is OptionalParam && !((#[trigger] segs[j])
            is OptionalParam)
}

/// The segment list of a variant's path, empty for an unrouted variant.
pub open spec fn segs_of_kind(k: RouteKind) -> Seq<SegView> {
    match k.path_view() {
        Some(p) => spec_parse_segments(p),
        None => Seq::<SegView>::empty(),
    }
}

/// The diagnostics of one classified variant, in reading order. A
/// nesting variant's sole field is its nested payload, so it may declare
/// no named fields of its own.
pub open spec fn variant_own_diags(v: VariantSpec) -> Seq<DiagView> {
    match v.kind.path_view() {
        None => Seq::<DiagView>::empty(),
        Some(p) => {
            let segs = spec_parse_segments(p);
            (if v.kind.is_nesting() && v.fields@.len() > 0 {
                seq![DiagView::NestedPayloadExtraFields { variant: v.name@ }]
            } else {
                Seq::<DiagView>::empty()
            }) + seg_diags(v.name@, segs, v.fields@, 0) + (if opt_before_required(segs) {
                seq![DiagView::OptionalBeforeRequired { variant: v.name@ }]
            } else {
                Seq::<DiagView>::empty()
            }) + unused_diags(v.name@, v.fields@, segs, 0)
        },
    }
}

/// The fallback-marker diagnostics of the variants from `i` on, `seen`
/// telling whether an earlier variant already carries the marker: each
/// further marker is an error, and so is reaching the end with none.
pub open spec fn fallback_diags(vs: Seq<VariantSpec>, i: int, seen: bool) -> Seq<DiagView>
    decreases vs.len() - i,
{
    if i < 0 || i >= vs.len() {
        if seen {
            Seq::<DiagView>::empty()
        } else {
            seq![DiagView::NoFallback]
        }
    } else if vs[i].is_fallback {
        if seen {
            seq![DiagView::MultipleFallbacks { variant: vs[i].name@ }] + fallback_diags(
                vs,
                i + 1,
                true,
            )
        } else {
            fallback_diags(vs, i + 1, true)
        }
    } else {
        fallback_diags(vs, i + 1, seen)
    }
}

/// All diagnostics of a route table: each variant's own, the diagnostics
/// of its nested table right after it, and the fallback-marker check last.
pub open spec fn table_diags(t: RouteTable) -> Seq<DiagView>
    decreases t, t.variants@.len() + 1int,
{
    diags_from(t, 0) + fallback_diags(t.variants@, 0, false)
}

/// The diagnostics of the variants of `t` from position `i` on.
pub open spec fn diags_from(t: RouteTable, i: int) -> Seq<DiagView>
    decreases t, t.variants@.len() - i,
{
    if 0 <= i < t.variants@.len() {
        let v = t.variants@[i];
        variant_own_diags(v) + (if v.kind.is_nesting() {
            table_diags(v.kind.nested_table())
        } else {
            Seq::<DiagView>::empty()
        }) + diags_from(t, i + 1)
    } else {
        Seq::<DiagView>::empty()
    }
}

/// A table on which validation finds nothing to report, nested tables
/// included. Only such a table is ever interpreted.
pub open spec fn table_valid(t: RouteTable) -> bool {
    table_diags(t).len() == 0
}

/// No two fields of one variant share a name, as fields of one Rust
/// variant cannot.
pub open spec fn distinct_fields(fields: Seq<FieldSpec>) -> bool {
    forall|j: int, k: int|
        0 <= j < k < fields.len() ==> (#[trigger] fields[j]).name@ != (#[trigger] fields[k]).name@
}

/// Structural sanity of a table as built from a Rust enum: every
/// variant's field names are distinct, nested tables included.
pub open spec fn table_wf(t: RouteTable) -> bool
    decreases t, t.variants@.len() + 1int,
{
    tables_wf_from(t, 0)
}

pub open spec fn tables_wf_from(t: RouteTable, i: int) -> bool
    decreases t, t.variants@.len() - i,
{
    if 0 <= i < t.variants@.len() {
        let v = t.variants@[i];
        distinct_fields(v.fields@) && (if v.kind.is_nesting() {
            table_wf(v.kind.nested_table())
        } else {
            true
        }) && tables_wf_from(t, i + 1)
    } else {
        true
    }
}

/// A structurally sane table is sane at every variant.
pub proof fn lemma_table_wf_all(t: RouteTable, i: int)
    requires
        0 <= i,
        tables_wf_from(t, i),
    ensures
        forall|j: int|
            i <= j < t.variants@.len() ==> distinct_fields((#[trigger] t.variants@[j]).fields@),
        forall|j: int|
            i <= j < t.variants@.len() && (#[trigger] t.variants@[j]).kind.is_nesting()
                ==> table_wf(t.variants@[j].kind.nested_table()),
    decreases t.variants@.len() - i,
{
    if i < t.variants@.len() {
        lemma_table_wf_all(t, i + 1);
    }
}

/// With distinct names, each field is found at its own position.
pub proof fn lemma_field_idx_self(fields: Seq<FieldSpec>, j: int)
    requires
        distinct_fields(fields),
        0 <= j < fields.len(),
    ensures
        field_idx(fields, fields[j].name@) == j,
        has_field(fields, fields[j].name@),
{
    lemma_field_idx_unique(fields, fields[j].name@, j);
}

/// What one segment demands of the fields, as the per-segment rule.
pub open spec fn seg_rule_ok(fields: Seq<FieldSpec>, s: SegView) -> bool {
    match s {
        SegView::Static(_) => true,
        SegView::Param(n) => has_field(fields, n),
        SegView::OptionalParam(n) => has_field(fields, n) && fields[field_idx(
            fields,
            n,
        )].optional,
    }
}

/// An empty segment-diagnostic list means every segment obeys its rule.
pub proof fn lemma_seg_diags_empty(
    vname: Seq<char>,
    segs: Seq<SegView>,
    fields: Seq<FieldSpec>,
    i: int,
)
    requires
        0 <= i,
        seg_diags(vname, segs, fields, i).len() == 0,
    ensures
        forall|k: int| i <= k < segs.len() ==> seg_rule_ok(fields, #[trigger] segs[k]),
    decreases segs.len() - i,
{
    if i < segs.len() {
        lemma_seg_diags_empty(vname, segs, fields, i + 1);
    }
}

/// An empty unused-field-diagnostic list means every field the path does
/// not consume is optional.
pub proof fn lemma_unused_diags_empty(
    vname: Seq<char>,
    fields: Seq<FieldSpec>,
    segs: Seq<SegView>,
    i: int,
)
    requires
        0 <= i,
        unused_diags(vname, fields, segs, i).len() == 0,
    ensures
        forall|k: int|
            i <= k < fields.len() ==> used_in_path(segs, (#[trigger] fields[k]).name@)
                || fields[k].optional,
    decreases fields.len() - i,
{
    if i < fields.len() {
        lemma_unused_diags_empty(vname, fields, segs, i + 1);
    }
}

/// A clean variant obeys all three per-variant rules.
pub proof fn lemma_variant_rules(v: VariantSpec)
    requires
        variant_own_diags(v).len() == 0,
        v.kind.path_view() is Some,
    ensures
        forall|k: int|
            0 <= k < spec_parse_segments(v.kind.path_view()->Some_0).len() ==> seg_rule_ok(
                v.fields@,
                #[trigger] spec_parse_segments(v.kind.path_view()->Some_0)[k],
            ),
        !opt_before_required(spec_parse_segments(v.kind.path_view()->Some_0)),
        forall|k: int|
            0 <= k < v.fields@.len() ==> used_in_path(
                spec_parse_segments(v.kind.path_view()->Some_0),
                (#[trigger] v.fields@[k]).name@,
            ) || v.fields@[k].optional,
        v.kind.is_nesting() ==> v.fields@.len() == 0,
{
    let segs = spec_parse_segments(v.kind.path_view()->Some_0);
    lemma_seg_diags_empty(v.name@, segs, v.fields@, 0);
    lemma_unused_diags_empty(v.name@, v.fields@, segs, 0);
}

/// A clean table is clean at every variant, nested tables included.
pub proof fn lemma_diags_from_empty(t: RouteTable, i: int)
    requires
        0 <= i,
        diags_from(t, i).len() == 0,
    ensures
        forall|j: int|
            i <= j < t.variants@.len() ==> variant_own_diags(#[trigger] t.variants@[j]).len() == 0,
        forall|j: int|
            i <= j < t.variants@.len() && (#[trigger] t.variants@[j]).kind.is_nesting()
                ==> table_diags(t.variants@[j].kind.nested_table()).len() == 0,
    decreases t.variants@.len() - i,
{
    if i < t.variants@.len() {
        lemma_diags_from_empty(t, i + 1);
    }
}

/// After the marker was seen, a clean list carries no further marker.
pub proof fn lemma_fallback_none_after(vs: Seq<VariantSpec>, i: int)
    requires
        0 <= i,
        fallback_diags(vs, i, true).len() == 0,
    ensures
        forall|j: int| i <= j < vs.len() ==> !(#[trigger] vs[j]).is_fallback,
    decreases vs.len() - i,
{
    if i < vs.len() {
        lemma_fallback_none_after(vs, i + 1);
    }
}

/// A clean fallback check means exactly one variant carries the marker.
pub proof fn lemma_fallback_unique(vs: Seq<VariantSpec>, i: int)
    requires
        0 <= i,
        fallback_diags(vs, i, false).len() == 0,
    ensures
        exists|j: int| i <= j < vs.len() && (#[trigger] vs[j]).is_fallback,
        forall|j: int, k: int|
            i <= j < k < vs.len() && (#[trigger] vs[j]).is_fallback ==> !(#[trigger] vs[k]).is_fallback,
    decreases vs.len() - i,
{
    if i < vs.len() {
        if vs[i].is_fallback {
            lemma_fallback_none_after(vs, i + 1);
        } else {
            lemma_fallback_unique(vs, i + 1);
        }
    }
}

/// The path pattern of a variant's kind, if it has one.
fn kind_path<'a>(k: &'a RouteKind) -> (r: Option<&'a String>)
    ensures
        match r {
            Some(p) => k.path_view() == Some(p@),
            None => k.path_view() is None,
        },
{
    match k {
        RouteKind::Leaf { path } => Some(path),
        RouteKind::Parent { path, .. } => Some(path),
        RouteKind::Protected { path, .. } => Some(path),
        RouteKind::ProtectedParent { path, .. } => Some(path),
        RouteKind::Unrouted => None,
    }
}

/// Scan for an optional segment that stands before a required one.
fn scan_opt_before_required(segs: &Vec<Segment>) -> (r: bool)
    ensures
        r == opt_before_required(seg_views(segs@)),
{
    let ghost sv = seg_views(segs@);
    let mut seen = false;
    let ghost mut wopt: int = 0;
    let mut i: usize = 0;
    while i < segs.len()
        invariant
            i <= segs@.len(),
            sv == seg_views(segs@),
            sv.len() == segs@.len(),
            seen ==> 0 <= wopt < i && sv[wopt] is OptionalParam,
            forall|a: int, b: int|
                0 <= a < b < i ==> !((#[trigger] sv[a]) is OptionalParam && !((#[trigger] sv[b])
                    is OptionalParam)),
            !seen ==> forall|a: int| 0 <= a < i ==> !((#[trigger] sv[a]) is OptionalParam),
        decreases segs@.len() - i,
    {
        proof {
            assert(sv[i as int] == segs@[i as int]@);
        }
        let is_opt = match &segs[i] {
            Segment::OptionalParam(_) => true,
            Segment::Static(_) => false,
            Segment::Param(_) => false,
        };
        if is_opt {
            seen = true;
            proof {
                wopt = i as int;
            }
        } else {
            if seen {
                proof {
                    assert(sv[wopt] is OptionalParam && !(sv[i as int] is OptionalParam));
                }
                return true;
            }
        }
        i = i + 1;
    }
    proof {
        assert_by_contradiction!(!opt_before_required(sv), {
            let (a, b) = choose|a: int, b: int|
                0 <= a < b < sv.len() && (#[trigger] sv[a]) is OptionalParam && !((#[trigger] sv[b])
                    is OptionalParam);
            assert(!(sv[a] is OptionalParam && !(sv[b] is OptionalParam)));
        });
    }
    false
}

/// Collect the diagnostics of one classified variant.
pub fn validate_variant(v: &VariantSpec) -> (ds: Vec<Diagnostic>)
    ensures
        diag_views(ds@) == variant_own_diags(*v),
{
    let mut ds: Vec<Diagnostic> = Vec::new();
    let path = match kind_path(&v.kind) {
        Some(p) => p,
        None => {
            proof {
                assert(diag_views(ds@) =~= variant_own_diags(*v));
            }
            return ds;
        },
    };
    let nesting = match &v.kind {
        RouteKind::Parent { .. } => true,
        RouteKind::ProtectedParent { .. } => true,
        RouteKind::Leaf { .. } => false,
        RouteKind::Protected { .. } => false,
        RouteKind::Unrouted => false,
    };
    if nesting && v.fields.len() > 0 {
        ds.push(Diagnostic::NestedPayloadExtraFields { variant: v.name.clone() });
    }
    let ghost lead = diag_views(ds@);
    let segs = parse_segments(path.as_str());
    let ghost sv = seg_views(segs@);
    let ghost vname = v.name@;
    let ghost fs = v.fields@;
    let mut i: usize = 0;
    while i < segs.len()
        invariant
            i <= segs@.len(),
            sv == seg_views(segs@),
            sv.len() == segs@.len(),
            sv == spec_parse_segments(v.kind.path_view()->Some_0),
            fs == v.fields@,
            vname == v.name@,
            diag_views(ds@) + seg_diags(vname, sv, fs, i as int) == lead + seg_diags(
                vname,
                sv,
                fs,
                0,
            ),
        decreases segs@.len() - i,
    {
        proof {
            assert(sv[i as int] == segs@[i as int]@);
        }
        match &segs[i] {
            Segment::Static(_) => {},
            Segment::Param(n) => {
                if find_field(&v.fields, n).is_none() {
                    ds.push(Diagnostic::UnmatchedParam { variant: v.name.clone(), name: n.clone() });
                }
            },
            Segment::OptionalParam(n) => {
                match find_field(&v.fields, n) {
                    None => {
                        ds.push(
                            Diagnostic::UnmatchedParam { variant: v.name.clone(), name: n.clone() },
                        );
                    },
                    Some(f) => {
                        if !f.optional {
                            ds.push(
                                Diagnostic::OptionalParamRequiredField {
                                    variant: v.name.clone(),
                                    name: n.clone(),
                                },
                            );
                        }
                    },
                }
            },
        }
        i = i + 1;
        proof {
            assert(diag_views(ds@) + seg_diags(vname, sv, fs, i as int) =~= lead + seg_diags(
                vname,
                sv,
                fs,
                0,
            ));
        }
    }
    proof {
        assert(seg_diags(vname, sv, fs, segs@.len() as int) =~= Seq::<DiagView>::empty());
        assert(diag_views(ds@) =~= lead + seg_diags(vname, sv, fs, 0));
    }
    if scan_opt_before_required(&segs) {
        ds.push(Diagnostic::OptionalBeforeRequired { variant: v.name.clone() });
    }
    let ghost mid = diag_views(ds@);
    let mut i: usize = 0;
    while i < v.fields.len()
        invariant
            i <= v.fields@.len(),
            sv == seg_views(segs@),
            sv == spec_parse_segments(v.kind.path_view()->Some_0),
            fs == v.fields@,
            vname == v.name@,
            mid == lead + seg_diags(vname, sv, fs, 0) + (if opt_before_required(sv) {
                seq![DiagView::OptionalBeforeRequired { variant: vname }]
            } else {
                Seq::<DiagView>::empty()
            }),
            diag_views(ds@) + unused_diags(vname, fs, sv, i as int) == mid + unused_diags(
                vname,
                fs,
                sv,
                0,
            ),
        decreases v.fields@.len() - i,
    {
        let used = segs_use_name(&segs, &v.fields[i].name);
        if !used && !v.fields[i].optional {
            ds.push(
                Diagnostic::UnusedRequiredField {
                    variant: v.name.clone(),
                    name: v.fields[i].name.clone(),
                },
            );
        }
        i = i + 1;
        proof {
            assert(diag_views(ds@) + unused_diags(vname, fs, sv, i as int) =~= mid + unused_diags(
                vname,
                fs,
                sv,
                0,
            ));
        }
    }
    proof {
        assert(unused_diags(vname, fs, sv, v.fields@.len() as int) =~= Seq::<DiagView>::empty());
        assert(diag_views(ds@) =~= mid + unused_diags(vname, fs, sv, 0));
        assert(diag_views(ds@) =~= variant_own_diags(*v));
    }
    ds
}

/// Collect all diagnostics of a table, nested tables included.
pub fn collect_table_diags(t: &RouteTable) -> (ds: Vec<Diagnostic>)
    ensures
        diag_views(ds@) == table_diags(*t),
    decreases *t,
{
    let mut ds: Vec<Diagnostic> = Vec::new();
    let mut i: usize = 0;
    proof {
        assert(diag_views(ds@) =~= Seq::<DiagView>::empty());
    }
    while i < t.variants.len()
        invariant
            i <= t.variants@.len(),
            diag_views(ds@) + diags_from(*t, i as int) == diags_from(*t, 0),
        decreases t.variants@.len() - i,
    {
        let v = &t.variants[i];
        let mut own = validate_variant(v);
        let ghost own_v = diag_views(own@);
        ds.append(&mut own);
        match &v.kind {
            RouteKind::Parent { table, .. } => {
                let mut nested = collect_table_diags(table);
                ds.append(&mut nested);
            },
            RouteKind::ProtectedParent { table, .. } => {
                let mut nested = collect_table_diags(table);
                ds.append(&mut nested);
            },
            RouteKind::Leaf { .. } => {},
            RouteKind::Protected { .. } => {},
            RouteKind::Unrouted => {},
        }
        i = i + 1;
        proof {
            assert(diag_views(ds@) + diags_from(*t, i as int) =~= diags_from(*t, 0));
        }
    }
    proof {
        assert(diags_from(*t, t.variants@.len() as int) =~= Seq::<DiagView>::empty());
    }
    let mut seen = false;
    let mut i: usize = 0;
    let ghost mid = diag_views(ds@);
    while i < t.variants.len()
        invariant
            i <= t.variants@.len(),
            mid == diags_from(*t, 0),
            diag_views(ds@) + fallback_diags(t.variants@, i as int, seen) == mid + fallback_diags(
                t.variants@,
                0,
                false,
            ),
        decreases t.variants@.len() - i,
    {
        if t.variants[i].is_fallback {
            if seen {
                ds.push(Diagnostic::MultipleFallbacks { variant: t.variants[i].name.clone() });
            }
            seen = true;
        }
        i = i + 1;
        proof {
            assert(diag_views(ds@) + fallback_diags(t.variants@, i as int, seen) =~= mid
                + fallback_diags(t.variants@, 0, false));
        }
    }
    if !seen {
        ds.push(Diagnostic::NoFallback);
    }
    proof {
        assert(diag_views(ds@) =~= table_diags(*t));
    }
    ds
}

/// Validate a route table against the structural rules, nested tables
/// included; either nothing is wrong, or every diagnostic is reported and
/// no router may be built.
pub fn validate(t: &RouteTable) -> (r: Result<(), Vec<Diagnostic>>)
    ensures
        match r {
            Ok(_) => table_valid(*t),
            Err(ds) => diag_views(ds@) == table_diags(*t) && ds@.len() > 0,
        },
{
    let ds = collect_table_diags(t);
    if ds.len() == 0 {
        Ok(())
    } else {
        Err(ds)
    }
}

} // verus!
