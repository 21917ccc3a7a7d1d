//! The path parser: given a URL string, find the first variant whose
//! static segments and arity match, extract parameter values by position,
//! fill leftover optional fields from the query string, and recurse into
//! nested tables for nesting variants. A matched static prefix commits:
//! a required parameter that fails to parse, or a committed nested parse
//! that fails, aborts the whole parse instead of falling through.

use vstd::prelude::*;
use vstd::string::StringExecFns;
use vstd::string::StrSliceExecFns;
use crate::model::{FieldSpec, RouteKind, RouteTable, ValueTy, VariantSpec};
use crate::segment::{parse_segments, seg_views, spec_parse_segments, SegView, Segment};
use crate::strutil::{
    chars_range, chars_eq, chars_to_string, find_first, first_idx, join_slash, keep_nonempty,
    lemma_first_idx_props, lookup_pairs, lookup_query, pair_views, parse_u64, path_frags,
    query_pairs, spec_parse_u64, split_all, split_query, str_to_chars, views,
};
use crate::validate::{field_idx, find_field};
use crate::value::{slot_views, val_view, FieldValue, FieldValV, RouteValue, RouteValView};

verus! {

/// A parse failure.
#[derive(Debug)]
pub enum RouteError {
    /// A committed required parameter did not parse as its field's type.
    ParamParse { param: String },
    /// A committed nested subtree failed to parse; the string is the
    /// whole original input.
    Nested { input: String },
    /// No variant matched; the string is the whole original input.
    NoMatch { input: String },
}

/// The mathematical shape of a parse failure.
pub enum ErrView {
    ParamParse { param: Seq<char> },
    Nested { input: Seq<char> },
    NoMatch { input: Seq<char> },
}

impl View for RouteError {
    type V = ErrView;

    open spec fn view(&self) -> ErrView {
        match self {
            RouteError::ParamParse { param } => ErrView::ParamParse { param: param@ },
            RouteError::Nested { input } => ErrView::Nested { input: input@ },
            RouteError::NoMatch { input } => ErrView::NoMatch { input: input@ },
        }
    }
}

/// The message a parse failure renders to.
pub open spec fn err_message(e: ErrView) -> Seq<char> {
    match e {
        ErrView::ParamParse { param } => "Failed to parse "@ + param + " as expected type"@,
        ErrView::Nested { input } => "Failed to parse nested route at path: "@ + input,
        ErrView::NoMatch { input } => "No route matches path: "@ + input,
    }
}

impl RouteError {
    /// Render the error as the message it stands for.
    pub fn message(&self) -> (r: String)
        ensures
            r@ == err_message(self@),
    {
        match self {
            RouteError::ParamParse { param } => {
                let mut s = String::new();
                s.append("Failed to parse ");
                s.append(param.as_str());
                s.append(" as expected type");
                s
            },
            RouteError::Nested { input } => {
                let mut s = String::new();
                s.append("Failed to parse nested route at path: ");
                s.append(input.as_str());
                s
            },
            RouteError::NoMatch { input } => {
                let mut s = String::new();
                s.append("No route matches path: ");
                s.append(input.as_str());
                s
            },
        }
    }
}

/// How many segments of the pattern are required: static text and
/// required parameters count, optional parameters do not.
pub open spec fn req_count(segs: Seq<SegView>) -> int
    decreases segs.len(),
{
    if segs.len() == 0 {
        0
    } else {
        req_count(segs.drop_last()) + if segs.last() is OptionalParam {
            0int
        } else {
            1int
        }
    }
}

/// Whether a path with `n` fragments fits the pattern's arity: a nesting
/// pattern only bounds it from below, a pattern without optional segments
/// must be hit exactly, and optional segments widen the upper bound by
/// one slot each.
pub open spec fn arity_ok(segs: Seq<SegView>, n: int, nesting: bool) -> bool {
    if nesting {
        n >= req_count(segs)
    } else if req_count(segs) == segs.len() {
        n == req_count(segs)
    } else {
        req_count(segs) <= n <= segs.len()
    }
}

/// Whether every static segment of the pattern equals the path fragment
/// at its own position, exactly and case-sensitively.
pub open spec fn statics_ok(segs: Seq<SegView>, ps: Seq<Seq<char>>) -> bool {
    forall|k: int|
        0 <= k < segs.len() && (#[trigger] segs[k]) is Static ==> k < ps.len() && ps[k]
            == segs[k].text()
}

/// The segment pattern of a variant, empty when it has no path.
pub open spec fn variant_segs(vs: VariantSpec) -> Seq<SegView> {
    match vs.kind.path_view() {
        Some(p) => spec_parse_segments(p),
        None => Seq::<SegView>::empty(),
    }
}

/// Whether a variant matches the path fragments: it has a path at all,
/// the arity fits, and every static segment agrees.
pub open spec fn variant_matches(vs: VariantSpec, ps: Seq<Seq<char>>) -> bool {
    &&& vs.kind.path_view() is Some
    &&& arity_ok(variant_segs(vs), ps.len() as int, vs.kind.is_nesting())
    &&& statics_ok(variant_segs(vs), ps)
}

/// The path fragment at position `k`, or empty text past the end.
pub open spec fn frag_at(ps: Seq<Seq<char>>, k: int) -> Seq<char> {
    if 0 <= k < ps.len() {
        ps[k]
    } else {
        Seq::<char>::empty()
    }
}

/// The last segment position that binds `name`, or the pattern length
/// when none does. The last binding wins because, of two generated
/// bindings for one field, the later shadows the earlier.
pub open spec fn seg_binding(segs: Seq<SegView>, name: Seq<char>) -> int
    decreases segs.len(),
{
    if segs.len() == 0 {
        0
    } else if segs.last().binds(name) {
        segs.len() - 1
    } else {
        let r = seg_binding(segs.drop_last(), name);
        if r < segs.len() - 1 {
            r
        } else {
            segs.len() as int
        }
    }
}

/// Parse one raw fragment as a value of the given category: integers in
/// decimal, text as itself.
pub open spec fn parse_by_ty(ty: ValueTy, raw: Seq<char>) -> Option<FieldValV> {
    match ty {
        ValueTy::UInt => match spec_parse_u64(raw) {
            Some(n) => Some(FieldValV::UInt(n)),
            None => None,
        },
        ValueTy::Text => Some(FieldValV::Text(raw)),
    }
}

/// The name of the first committed required parameter, in segment order,
/// whose fragment does not parse as its field's type — the fatal case.
pub open spec fn fatal_param(
    segs: Seq<SegView>,
    fields: Seq<FieldSpec>,
    ps: Seq<Seq<char>>,
    i: int,
) -> Option<Seq<char>>
    decreases segs.len() - i,
{
    if i < 0 || i >= segs.len() {
        None
    } else {
        match segs[i] {
            SegView::Param(n) => {
                let j = field_idx(fields, n);
                if j < fields.len() && parse_by_ty(fields[j].ty, frag_at(ps, i)) is None {
                    Some(n)
                } else {
                    fatal_param(segs, fields, ps, i + 1)
                }
            },
            SegView::Static(_) => fatal_param(segs, fields, ps, i + 1),
            SegView::OptionalParam(_) => fatal_param(segs, fields, ps, i + 1),
        }
    }
}

/// The slot of one field: from its positional fragment when a segment
/// binds it (leniently for an optional segment), the last binding
/// winning, else leniently from the query pairs. Absence and lenient
/// parse failure both yield `None`.
pub open spec fn slot_of(
    f: FieldSpec,
    segs: Seq<SegView>,
    ps: Seq<Seq<char>>,
    qs: Seq<(Seq<char>, Seq<char>)>,
) -> Option<FieldValV> {
    let k = seg_binding(segs, f.name@);
    if k < segs.len() {
        if segs[k] is Param {
            parse_by_ty(f.ty, frag_at(ps, k))
        } else if k < ps.len() {
            parse_by_ty(f.ty, ps[k])
        } else {
            None
        }
    } else {
        match lookup_pairs(qs, f.name@) {
            Some(raw) => parse_by_ty(f.ty, raw),
            None => None,
        }
    }
}

/// The slots of all fields, in declaration order.
pub open spec fn slots_of(
    fields: Seq<FieldSpec>,
    segs: Seq<SegView>,
    ps: Seq<Seq<char>>,
    qs: Seq<(Seq<char>, Seq<char>)>,
) -> Seq<Option<FieldValV>> {
    Seq::new(fields.len(), |j: int| slot_of(fields[j], segs, ps, qs))
}

/// The path fragments of a URL: everything before the first `?`, split
/// on `/`, empty fragments dropped.
pub open spec fn url_frags(input: Seq<char>) -> Seq<Seq<char>> {
    path_frags(input.take(first_idx(input, '?')))
}

/// The query pairs of a URL: everything after the first `?`, or none.
pub open spec fn url_query(input: Seq<char>) -> Seq<(Seq<char>, Seq<char>)> {
    let q = first_idx(input, '?');
    if q < input.len() {
        query_pairs(input.skip(q + 1))
    } else {
        query_pairs(Seq::<char>::empty())
    }
}

/// The suffix of the path handed to a nested table: the fragments beyond
/// the pattern, re-joined behind a leading slash, the root path standing
/// in when nothing is left.
pub open spec fn remaining_input(segs: Seq<SegView>, ps: Seq<Seq<char>>) -> Seq<char> {
    let rest = if ps.len() >= segs.len() {
        ps.skip(segs.len() as int)
    } else {
        Seq::<Seq<char>>::empty()
    };
    if rest.len() > 0 {
        join_slash(rest)
    } else {
        seq!['/']
    }
}

/// What parsing returns: variants are tried in declaration order and the
/// first match wins; an arity or static mismatch falls through to the
/// next variant, while a matched variant commits — its required
/// parameters must parse and its nested suffix must parse, or the whole
/// parse fails. When no variant matches, the input itself is reported.
pub open spec fn spec_parse_route(t: RouteTable, input: Seq<char>) -> Result<RouteValView, ErrView>
    decreases t, t.variants@.len() + 1int,
{
    parse_from(t, input, url_frags(input), url_query(input), 0)
}

/// Try the variants of `t` from position `i` on.
pub open spec fn parse_from(
    t: RouteTable,
    input: Seq<char>,
    ps: Seq<Seq<char>>,
    qs: Seq<(Seq<char>, Seq<char>)>,
    i: int,
) -> Result<RouteValView, ErrView>
    decreases t, t.variants@.len() - i,
{
    if i < 0 || i >= t.variants@.len() {
        Err(ErrView::NoMatch { input })
    } else {
        let vs = t.variants@[i];
        if !variant_matches(vs, ps) {
            parse_from(t, input, ps, qs, i + 1)
        } else {
            let segs = variant_segs(vs);
            if vs.kind.is_nesting() {
                match spec_parse_route(vs.kind.nested_table(), remaining_input(segs, ps)) {
                    Ok(nv) => Ok(
                        RouteValView {
                            variant: i,
                            slots: slots_of(vs.fields@, segs, ps, qs),
                            nested: Some(Box::new(nv)),
                        },
                    ),
                    Err(_) => Err(ErrView::Nested { input }),
                }
            } else {
                match fatal_param(segs, vs.fields@, ps, 0) {
                    Some(n) => Err(ErrView::ParamParse { param: n }),
                    None => Ok(
                        RouteValView {
                            variant: i,
                            slots: slots_of(vs.fields@, segs, ps, qs),
                            nested: None,
                        },
                    ),
                }
            }
        }
    }
}

pub proof fn lemma_seg_binding_props(segs: Seq<SegView>, name: Seq<char>)
    ensures
        0 <= seg_binding(segs, name) <= segs.len(),
        seg_binding(segs, name) < segs.len() ==> segs[seg_binding(segs, name)].binds(name),
        forall|j: int|
            seg_binding(segs, name) < j < segs.len() ==> !(#[trigger] segs[j]).binds(name),
        (seg_binding(segs, name) < segs.len()) == crate::validate::used_in_path(segs, name),
    decreases segs.len(),
{
    if segs.len() != 0 && !segs.last().binds(name) {
        lemma_seg_binding_props(segs.drop_last(), name);
        assert(forall|j: int| 0 <= j < segs.len() - 1 ==> segs[j] == segs.drop_last()[j]);
        if crate::validate::used_in_path(segs, name) {
            let k = choose|k: int| 0 <= k < segs.len() && (#[trigger] segs[k]).binds(name);
            assert(k < segs.len() - 1);
            assert(segs.drop_last()[k].binds(name));
        }
        if crate::validate::used_in_path(segs.drop_last(), name) {
            let k = choose|k: int|
                0 <= k < segs.drop_last().len() && (#[trigger] segs.drop_last()[k]).binds(name);
            assert(segs[k].binds(name));
        }
    }
}

pub proof fn lemma_seg_binding_unique(segs: Seq<SegView>, name: Seq<char>, k: int)
    requires
        0 <= k <= segs.len(),
        forall|j: int| k < j < segs.len() ==> !(#[trigger] segs[j]).binds(name),
        k < segs.len() ==> segs[k].binds(name),
        k == segs.len() ==> forall|j: int|
            0 <= j < segs.len() ==> !(#[trigger] segs[j]).binds(name),
    ensures
        seg_binding(segs, name) == k,
    decreases segs.len(),
{
    if segs.len() != 0 {
        assert(forall|j: int| 0 <= j < segs.len() - 1 ==> segs.drop_last()[j] == segs[j]);
        if k == segs.len() - 1 {
            assert(segs.last().binds(name));
        } else if k == segs.len() {
            assert(!segs.last().binds(name));
            lemma_seg_binding_unique(segs.drop_last(), name, k - 1);
        } else {
            assert(!segs.last().binds(name));
            lemma_seg_binding_unique(segs.drop_last(), name, k);
        }
    }
}

/// When no required parameter is fatal, every required parameter's
/// fragment parses as its field's type.
pub proof fn lemma_fatal_none(
    segs: Seq<SegView>,
    fields: Seq<FieldSpec>,
    ps: Seq<Seq<char>>,
    i: int,
)
    requires
        0 <= i,
        fatal_param(segs, fields, ps, i) is None,
    ensures
        forall|k: int|
            i <= k < segs.len() && (#[trigger] segs[k]) is Param && field_idx(
                fields,
                segs[k]->Param_0,
            ) < fields.len() ==> parse_by_ty(
                fields[field_idx(fields, segs[k]->Param_0)].ty,
                frag_at(ps, k),
            ) is Some,
    decreases segs.len() - i,
{
    if i < segs.len() {
        lemma_fatal_none(segs, fields, ps, i + 1);
    }
}

/// Every slot of a committed match fits its field: required parameters
/// parsed, optional parameters and query fields degrade to `None` only on
/// optional fields.
pub proof fn lemma_slots_wf(vs: VariantSpec, ps: Seq<Seq<char>>, qs: Seq<(Seq<char>, Seq<char>)>)
    requires
        crate::validate::distinct_fields(vs.fields@),
        vs.kind.path_view() is Some,
        crate::validate::variant_own_diags(vs).len() == 0,
        !vs.kind.is_nesting() ==> fatal_param(variant_segs(vs), vs.fields@, ps, 0) is None,
    ensures
        forall|j: int|
            0 <= j < vs.fields@.len() ==> crate::value::slot_wf(
                vs.fields@[j],
                #[trigger] slots_of(vs.fields@, variant_segs(vs), ps, qs)[j],
            ),
{
    let segs = variant_segs(vs);
    let fields = vs.fields@;
    crate::validate::lemma_variant_rules(vs);
    assert forall|j: int| 0 <= j < fields.len() implies crate::value::slot_wf(
        fields[j],
        #[trigger] slots_of(fields, segs, ps, qs)[j],
    ) by {
        let f = fields[j];
        let slot = slot_of(f, segs, ps, qs);
        assert(slots_of(fields, segs, ps, qs)[j] == slot);
        crate::validate::lemma_field_idx_self(fields, j);
        lemma_seg_binding_props(segs, f.name@);
        let k = seg_binding(segs, f.name@);
        if k < segs.len() {
            assert(segs[k].binds(f.name@));
            if segs[k] is Param {
                assert(segs[k]->Param_0 == f.name@);
                lemma_fatal_none(segs, fields, ps, 0);
                assert(parse_by_ty(f.ty, frag_at(ps, k)) is Some);
            } else {
                assert(segs[k] is OptionalParam);
                assert(crate::validate::seg_rule_ok(fields, segs[k]));
                assert(f.optional);
            }
        } else {
            assert(!crate::validate::used_in_path(segs, f.name@));
            assert(f.optional);
        }
        match slot {
            Some(x) => {
                assert(x.has_ty(f.ty));
            },
            None => {},
        }
    }
}

/// The first fallback-marked variant of the table.
pub open spec fn fallback_idx_from(vs: Seq<VariantSpec>, i: int) -> int
    decreases vs.len() - i,
{
    if i < 0 || i >= vs.len() {
        vs.len() as int
    } else if vs[i].is_fallback {
        i
    } else {
        fallback_idx_from(vs, i + 1)
    }
}

pub open spec fn fallback_idx(t: RouteTable) -> int {
    fallback_idx_from(t.variants@, 0)
}

/// The fallback value: the fallback-marked variant, bare.
pub open spec fn fallback_value_view(t: RouteTable) -> RouteValView {
    RouteValView {
        variant: fallback_idx(t),
        slots: Seq::new(
            t.variants@[fallback_idx(t)].fields@.len(),
            |j: int| None::<FieldValV>,
        ),
        nested: None,
    }
}

/// What the lenient conversion returns: the parsed value, or the bare
/// fallback value when parsing fails for any reason. This is the only
/// place a parse failure is absorbed; nested recursion always propagates.
pub open spec fn spec_parse_or_fallback(t: RouteTable, input: Seq<char>) -> RouteValView {
    match spec_parse_route(t, input) {
        Ok(v) => v,
        Err(_) => fallback_value_view(t),
    }
}

/// Split a URL into its path fragments and query pairs.
pub fn url_parts(input: &str) -> (r: (Vec<Vec<char>>, Vec<(Vec<char>, Vec<char>)>))
    ensures
        views(r.0@) == url_frags(input@),
        pair_views(r.1@) == url_query(input@),
{
    let chars = str_to_chars(input);
    let q = find_first(&chars, '?');
    proof {
        lemma_first_idx_props(input@, '?');
    }
    let path = chars_range(&chars, 0, q);
    proof {
        assert(path@ =~= input@.take(first_idx(input@, '?')));
    }
    let frags = keep_nonempty(split_all(&path, '/'));
    let query: Vec<char> = if q < chars.len() {
        chars_range(&chars, q + 1, chars.len())
    } else {
        Vec::new()
    };
    proof {
        if q < chars@.len() {
            assert(query@ =~= input@.skip(first_idx(input@, '?') + 1));
        } else {
            assert(query@ =~= Seq::<char>::empty());
        }
    }
    let pairs = split_query(&query);
    (frags, pairs)
}

/// Count the required segments of a pattern.
pub fn count_required(segs: &Vec<Segment>) -> (r: usize)
    ensures
        r as int == req_count(seg_views(segs@)),
        r <= segs@.len(),
{
    let mut r: usize = 0;
    let mut i: usize = 0;
    proof {
        assert(seg_views(segs@).take(0) =~= Seq::<SegView>::empty());
    }
    while i < segs.len()
        invariant
            i <= segs@.len(),
            r <= i,
            r as int == req_count(seg_views(segs@).take(i as int)),
        decreases segs@.len() - i,
    {
        proof {
            assert(seg_views(segs@).take(i + 1).drop_last() =~= seg_views(segs@).take(i as int));
            assert(seg_views(segs@).take(i + 1).last() == segs@[i as int]@);
        }
        match &segs[i] {
            Segment::OptionalParam(_) => {},
            Segment::Static(_) => {
                r = r + 1;
            },
            Segment::Param(_) => {
                r = r + 1;
            },
        }
        i = i + 1;
    }
    proof {
        assert(seg_views(segs@).take(segs@.len() as int) =~= seg_views(segs@));
    }
    r
}

/// Check every static segment against the fragment at its position.
pub fn check_statics(segs: &Vec<Segment>, ps: &Vec<Vec<char>>) -> (r: bool)
    ensures
        r == statics_ok(seg_views(segs@), views(ps@)),
{
    let ghost sv = seg_views(segs@);
    let ghost pv = views(ps@);
    let mut i: usize = 0;
    while i < segs.len()
        invariant
            i <= segs@.len(),
            sv == seg_views(segs@),
            pv == views(ps@),
            forall|k: int|
                0 <= k < i && (#[trigger] sv[k]) is Static ==> k < pv.len() && pv[k]
                    == sv[k].text(),
        decreases segs@.len() - i,
    {
        proof {
            assert(sv[i as int] == segs@[i as int]@);
        }
        match &segs[i] {
            Segment::Static(t) => {
                if i >= ps.len() {
                    proof {
                        assert(sv[i as int] is Static && !(i < pv.len()));
                    }
                    return false;
                }
                let tc = str_to_chars(t.as_str());
                if !chars_eq(&tc, &ps[i]) {
                    proof {
                        assert(pv[i as int] == ps@[i as int]@);
                        assert(sv[i as int] is Static && pv[i as int] != sv[i as int].text());
                    }
                    return false;
                }
                proof {
                    assert(pv[i as int] == ps@[i as int]@);
                }
            },
            Segment::Param(_) => {},
            Segment::OptionalParam(_) => {},
        }
        i = i + 1;
    }
    true
}

/// The last segment position that binds `name`, or the pattern length.
fn seg_binding_exec(segs: &Vec<Segment>, name: &String) -> (r: usize)
    ensures
        r as int == seg_binding(seg_views(segs@), name@),
{
    let mut i: usize = segs.len();
    while i > 0
        invariant
            i <= segs@.len(),
            forall|j: int| i <= j < segs@.len() ==> !(#[trigger] seg_views(segs@)[j]).binds(name@),
        decreases i,
    {
        i = i - 1;
        let hit = match &segs[i] {
            Segment::Static(_) => false,
            Segment::Param(n) => *n == *name,
            Segment::OptionalParam(n) => *n == *name,
        };
        proof {
            assert(seg_views(segs@)[i as int] == segs@[i as int]@);
        }
        if hit {
            proof {
                lemma_seg_binding_unique(seg_views(segs@), name@, i as int);
            }
            return i;
        }
    }
    proof {
        lemma_seg_binding_unique(seg_views(segs@), name@, segs@.len() as int);
    }
    segs.len()
}

/// Parse one raw fragment as a value of the given category.
fn parse_by_ty_exec(ty: ValueTy, raw: &Vec<char>) -> (r: Option<FieldValue>)
    ensures
        (match r {
            Some(v) => Some(v@),
            None => None::<FieldValV>,
        }) == parse_by_ty(ty, raw@),
{
    match ty {
        ValueTy::UInt => match parse_u64(raw) {
            Some(n) => Some(FieldValue::UInt(n)),
            None => None,
        },
        ValueTy::Text => Some(FieldValue::Text(chars_to_string(raw))),
    }
}

/// Compute the slot of one field from the path fragments and query pairs.
fn compute_slot(
    f: &FieldSpec,
    segs: &Vec<Segment>,
    ps: &Vec<Vec<char>>,
    qs: &Vec<(Vec<char>, Vec<char>)>,
) -> (r: Option<FieldValue>)
    ensures
        (match r {
            Some(v) => Some(v@),
            None => None::<FieldValV>,
        }) == slot_of(*f, seg_views(segs@), views(ps@), pair_views(qs@)),
{
    let ghost sv = seg_views(segs@);
    let k = seg_binding_exec(segs, &f.name);
    if k < segs.len() {
        proof {
            assert(sv[k as int] == segs@[k as int]@);
        }
        let is_param = match &segs[k] {
            Segment::Param(_) => true,
            Segment::Static(_) => false,
            Segment::OptionalParam(_) => false,
        };
        if is_param {
            if k < ps.len() {
                proof {
                    assert(frag_at(views(ps@), k as int) == ps@[k as int]@);
                }
                parse_by_ty_exec(f.ty, &ps[k])
            } else {
                let empty: Vec<char> = Vec::new();
                proof {
                    assert(frag_at(views(ps@), k as int) =~= empty@);
                }
                parse_by_ty_exec(f.ty, &empty)
            }
        } else if k < ps.len() {
            proof {
                assert(views(ps@)[k as int] == ps@[k as int]@);
            }
            parse_by_ty_exec(f.ty, &ps[k])
        } else {
            None
        }
    } else {
        let key = str_to_chars(f.name.as_str());
        match lookup_query(qs, &key) {
            Some(raw) => parse_by_ty_exec(f.ty, &raw),
            None => None,
        }
    }
}

/// Compute the slots of all fields, in declaration order.
fn build_slots(
    fields: &Vec<FieldSpec>,
    segs: &Vec<Segment>,
    ps: &Vec<Vec<char>>,
    qs: &Vec<(Vec<char>, Vec<char>)>,
) -> (r: Vec<Option<FieldValue>>)
    ensures
        slot_views(r@) == slots_of(fields@, seg_views(segs@), views(ps@), pair_views(qs@)),
{
    let mut r: Vec<Option<FieldValue>> = Vec::new();
    let mut j: usize = 0;
    while j < fields.len()
        invariant
            j <= fields@.len(),
            slot_views(r@) =~= slots_of(fields@, seg_views(segs@), views(ps@), pair_views(
                qs@,
            )).take(j as int),
        decreases fields@.len() - j,
    {
        let ghost before = slot_views(r@);
        let s = compute_slot(&fields[j], segs, ps, qs);
        r.push(s);
        proof {
            let m = slots_of(fields@, seg_views(segs@), views(ps@), pair_views(qs@));
            assert(slot_views(r@) =~= before.push(
                match s {
                    Some(v) => Some(v@),
                    None => None::<FieldValV>,
                },
            ));
            assert(m[j as int] == slot_of(fields@[j as int], seg_views(segs@), views(ps@),
            pair_views(qs@)));
            assert(slot_views(r@) =~= m.take(j + 1));
        }
        j = j + 1;
    }
    proof {
        assert(slots_of(fields@, seg_views(segs@), views(ps@), pair_views(qs@)).take(
            fields@.len() as int,
        ) =~= slots_of(fields@, seg_views(segs@), views(ps@), pair_views(qs@)));
    }
    r
}

/// The first committed required parameter, in segment order, whose
/// fragment does not parse as its field's type.
fn find_fatal(segs: &Vec<Segment>, fields: &Vec<FieldSpec>, ps: &Vec<Vec<char>>) -> (r: Option<
    String,
>)
    ensures
        match r {
            Some(n) => fatal_param(seg_views(segs@), fields@, views(ps@), 0) == Some(n@),
            None => fatal_param(seg_views(segs@), fields@, views(ps@), 0) is None,
        },
{
    let ghost sv = seg_views(segs@);
    let ghost pv = views(ps@);
    let mut i: usize = 0;
    while i < segs.len()
        invariant
            i <= segs@.len(),
            sv == seg_views(segs@),
            pv == views(ps@),
            fatal_param(sv, fields@, pv, 0) == fatal_param(sv, fields@, pv, i as int),
        decreases segs@.len() - i,
    {
        proof {
            assert(sv[i as int] == segs@[i as int]@);
        }
        match &segs[i] {
            Segment::Param(n) => {
                match find_field(fields, n) {
                    Some(f) => {
                        proof {
                            crate::validate::lemma_field_idx_props(fields@, n@);
                        }
                        let raw: Vec<char> = if i < ps.len() {
                            ps[i].clone()
                        } else {
                            Vec::new()
                        };
                        proof {
                            assert(raw@ =~= frag_at(pv, i as int));
                        }
                        if parse_by_ty_exec(f.ty, &raw).is_none() {
                            return Some(n.clone());
                        }
                    },
                    None => {
                        proof {
                            crate::validate::lemma_field_idx_props(fields@, n@);
                        }
                    },
                }
            },
            Segment::Static(_) => {},
            Segment::OptionalParam(_) => {},
        }
        i = i + 1;
    }
    None
}

/// Parse a URL string against a route table: the variants are tried in
/// declaration order and the first whose arity and static segments fit
/// wins; a match commits, so a required parameter that does not parse, or
/// a nested suffix that does not parse, fails the whole call instead of
/// trying later variants. Only a validated table is ever parsed against.
pub fn parse_route(t: &RouteTable, input: &str) -> (r: Result<RouteValue, RouteError>)
    requires
        crate::validate::table_wf(*t),
        crate::validate::table_valid(*t),
    ensures
        match r {
            Ok(v) => spec_parse_route(*t, input@) == Ok::<RouteValView, ErrView>(v@)
                && crate::value::value_wf(*t, v@),
            Err(e) => spec_parse_route(*t, input@) == Err::<RouteValView, ErrView>(e@),
        },
    decreases *t,
{
    let (ps, qs) = url_parts(input);
    let ghost pv = views(ps@);
    let ghost qv = pair_views(qs@);
    let mut i: usize = 0;
    while i < t.variants.len()
        invariant
            i <= t.variants@.len(),
            pv == views(ps@),
            qv == pair_views(qs@),
            pv == url_frags(input@),
            qv == url_query(input@),
            crate::validate::table_wf(*t),
            crate::validate::table_valid(*t),
            parse_from(*t, input@, pv, qv, 0) == parse_from(*t, input@, pv, qv, i as int),
        decreases t.variants@.len() - i,
    {
        proof {
            crate::validate::lemma_diags_from_empty(*t, 0);
            crate::validate::lemma_table_wf_all(*t, 0);
        }
        let ghost vg = t.variants@[i as int];
        let v = &t.variants[i];
        match &v.kind {
            RouteKind::Unrouted => {
                proof {
                    assert(!variant_matches(vg, pv));
                }
            },
            RouteKind::Leaf { path } | RouteKind::Protected { path, .. } => {
                let segs = parse_segments(path.as_str());
                proof {
                    assert(seg_views(segs@) == variant_segs(vg));
                }
                let req = count_required(&segs);
                let arity = if req == segs.len() {
                    ps.len() == req
                } else {
                    req <= ps.len() && ps.len() <= segs.len()
                };
                let m = arity && check_statics(&segs, &ps);
                proof {
                    assert(!vg.kind.is_nesting());
                    assert(m == variant_matches(vg, pv));
                }
                if m {
                    match find_fatal(&segs, &v.fields, &ps) {
                        Some(n) => {
                            return Err(RouteError::ParamParse { param: n });
                        },
                        None => {
                            let slots = build_slots(&v.fields, &segs, &ps, &qs);
                            let rv = RouteValue { variant: i, slots, nested: None };
                            proof {
                                assert(val_view(rv) == RouteValView {
                                    variant: i as int,
                                    slots: slots_of(vg.fields@, variant_segs(vg), pv, qv),
                                    nested: None::<Box<RouteValView>>,
                                });
                                lemma_slots_wf(vg, pv, qv);
                                assert(crate::value::value_wf(*t, val_view(rv)));
                            }
                            return Ok(rv);
                        },
                    }
                }
            },
            RouteKind::Parent { path, table, .. } | RouteKind::ProtectedParent {
                path,
                table,
                ..
            } => {
                let segs = parse_segments(path.as_str());
                proof {
                    assert(seg_views(segs@) == variant_segs(vg));
                }
                let req = count_required(&segs);
                let m = ps.len() >= req && check_statics(&segs, &ps);
                proof {
                    assert(vg.kind.is_nesting());
                    assert(m == variant_matches(vg, pv));
                }
                if m {
                    let remaining: String;
                    if ps.len() > segs.len() {
                        let mut rest: Vec<Vec<char>> = Vec::new();
                        let mut k: usize = segs.len();
                        proof {
                            assert(pv.len() == ps@.len());
                            assert(views(rest@).len() == 0);
                            assert(0 <= segs@.len() as int <= k as int <= pv.len());
                            assert(pv.subrange(segs@.len() as int, k as int).len() == 0);
                            assert(views(rest@) =~~= pv.subrange(segs@.len() as int, k as int));
                        }
                        while k < ps.len()
                            invariant
                                segs@.len() <= k <= ps@.len(),
                                pv == views(ps@),
                                views(rest@) == pv.subrange(segs@.len() as int, k as int),
                            decreases ps@.len() - k,
                        {
                            let frag = ps[k].clone();
                            proof {
                                assert(frag@ == ps@[k as int]@);
                                assert(pv[k as int] == ps@[k as int]@);
                            }
                            let ghost before = views(rest@);
                            rest.push(frag);
                            k = k + 1;
                            proof {
                                assert(views(rest@) =~~= before.push(pv[k - 1]));
                                assert(views(rest@) =~~= pv.subrange(segs@.len() as int, k as int));
                            }
                        }
                        let joined = crate::strutil::join_with_slash(&rest);
                        remaining = chars_to_string(&joined);
                        proof {
                            assert(pv.subrange(segs@.len() as int, pv.len() as int) =~= pv.skip(
                                segs@.len() as int,
                            ));
                            assert(remaining@ == remaining_input(variant_segs(vg), pv));
                        }
                    } else {
                        remaining = String::from_str("/");
                        proof {
                            reveal_strlit("/");
                            if pv.len() >= segs@.len() {
                                assert(pv.skip(segs@.len() as int).len() == 0);
                            }
                            assert(remaining@ =~= remaining_input(variant_segs(vg), pv));
                        }
                    }
                    proof {
                        assert(vg.kind.nested_table() == **table);
                        assert(crate::validate::table_wf(**table));
                        assert(crate::validate::table_diags(**table).len() == 0);
                    }
                    match parse_route(&**table, remaining.as_str()) {
                        Ok(nv) => {
                            let slots = build_slots(&v.fields, &segs, &ps, &qs);
                            let ghost nvv = val_view(nv);
                            let rv = RouteValue { variant: i, slots, nested: Some(Box::new(nv)) };
                            proof {
                                assert(val_view(rv) == RouteValView {
                                    variant: i as int,
                                    slots: slots_of(vg.fields@, variant_segs(vg), pv, qv),
                                    nested: Some(Box::new(nvv)),
                                });
                                lemma_slots_wf(vg, pv, qv);
                                assert(crate::value::value_wf(*t, val_view(rv)));
                            }
                            return Ok(rv);
                        },
                        Err(_) => {
                            return Err(RouteError::Nested { input: String::from_str(input) });
                        },
                    }
                }
            },
        }
        i = i + 1;
    }
    Err(RouteError::NoMatch { input: String::from_str(input) })
}

/// Find the fallback-marked variant of a validated table.
pub fn find_fallback(t: &RouteTable) -> (r: usize)
    requires
        crate::validate::table_valid(*t),
    ensures
        r as int == fallback_idx(*t),
        r < t.variants@.len(),
        t.variants@[r as int].is_fallback,
{
    proof {
        crate::validate::lemma_fallback_unique(t.variants@, 0);
    }
    let mut i: usize = 0;
    while i < t.variants.len()
        invariant
            i <= t.variants@.len(),
            crate::validate::table_valid(*t),
            fallback_idx(*t) == fallback_idx_from(t.variants@, i as int),
            forall|k: int| 0 <= k < i ==> !(#[trigger] t.variants@[k]).is_fallback,
        decreases t.variants@.len() - i,
    {
        if t.variants[i].is_fallback {
            return i;
        }
        i = i + 1;
    }
    proof {
        crate::validate::lemma_fallback_unique(t.variants@, 0);
        let j = choose|j: int| 0 <= j < t.variants@.len() && (#[trigger] t.variants@[j]).is_fallback;
        assert(false);
    }
    0
}

/// Parse a URL string leniently: any failure, of any kind, resolves to
/// the designated fallback variant's bare value. This absorption happens
/// only here, at the top level; nested parsing always propagates its
/// failures so that a committed subtree stays committed.
pub fn parse_or_fallback(t: &RouteTable, input: &str) -> (r: RouteValue)
    requires
        crate::validate::table_wf(*t),
        crate::validate::table_valid(*t),
        t.variants@[fallback_idx(*t)].fields@.len() == 0,
        !t.variants@[fallback_idx(*t)].kind.is_nesting(),
    ensures
        r@ == spec_parse_or_fallback(*t, input@),
        crate::value::value_wf(*t, r@),
{
    match parse_route(t, input) {
        Ok(v) => v,
        Err(_) => {
            let i = find_fallback(t);
            let rv = RouteValue { variant: i, slots: Vec::new(), nested: None };
            proof {
                assert(slot_views(rv.slots@) =~= fallback_value_view(*t).slots);
                assert(rv@ == fallback_value_view(*t));
            }
            rv
        },
    }
}

} // verus!
