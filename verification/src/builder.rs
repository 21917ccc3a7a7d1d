//! The path builder: the inverse of parsing. Each variant's path pattern
//! is rendered from its field values — static text verbatim, parameters
//! by their canonical string form, absent optional parameters skipped —
//! and every optional field the path does not consume contributes, when
//! set, a query pair; the query is sorted by key so that the same value
//! always renders the same string. A nesting variant renders its own
//! prefix and joins it with the nested value's path.

use vstd::prelude::*;
use crate::combine::{combine_paths, spec_combine_paths};
use crate::model::{RouteKind, RouteTable, VariantSpec};
use crate::segment::{parse_segments, seg_views, spec_parse_segments, SegView, Segment};
use crate::strutil::{
    chars_to_string, join_slash, join_with_slash, sort_by_key, sort_pairs, str_to_chars,
    u64_to_dec, views, pair_views,
};
use crate::validate::{field_idx, find_field_pos, segs_use_name, used_in_path};
use crate::value::{slot_views, val_view, FieldValue, FieldValV, RouteValue, RouteValView};

verus! {

/// The slot at position `j`, absent when out of range.
pub open spec fn slot_at(slots: Seq<Option<FieldValV>>, j: int) -> Option<FieldValV> {
    if 0 <= j < slots.len() {
        slots[j]
    } else {
        None
    }
}

/// The rendered fragments of the pattern from position `i` on: static
/// text verbatim, a parameter's value rendered canonically, and a
/// parameter whose slot is absent skipped entirely.
pub open spec fn build_frags(
    segs: Seq<SegView>,
    fields: Seq<crate::model::FieldSpec>,
    slots: Seq<Option<FieldValV>>,
    i: int,
) -> Seq<Seq<char>>
    decreases segs.len() - i,
{
    if i < 0 || i >= segs.len() {
        Seq::<Seq<char>>::empty()
    } else {
        let here = match segs[i] {
            SegView::Static(t) => seq![t],
            SegView::Param(n) => match slot_at(slots, field_idx(fields, n)) {
                Some(x) => seq![x.render()],
                None => Seq::<Seq<char>>::empty(),
            },
            SegView::OptionalParam(n) => match slot_at(slots, field_idx(fields, n)) {
                Some(x) => seq![x.render()],
                None => Seq::<Seq<char>>::empty(),
            },
        };
        here + build_frags(segs, fields, slots, i + 1)
    }
}

/// The query pairs of the fields from position `i` on, in declaration
/// order: every optional field the path does not consume and whose slot
/// is set contributes its name and rendered value.
pub open spec fn build_query(
    fields: Seq<crate::model::FieldSpec>,
    slots: Seq<Option<FieldValV>>,
    segs: Seq<SegView>,
    i: int,
) -> Seq<(Seq<char>, Seq<char>)>
    decreases fields.len() - i,
{
    if i < 0 || i >= fields.len() {
        Seq::<(Seq<char>, Seq<char>)>::empty()
    } else {
        let here = if !used_in_path(segs, fields[i].name@) && fields[i].optional && slot_at(
            slots,
            i,
        ) is Some {
            seq![(fields[i].name@, slot_at(slots, i)->Some_0.render())]
        } else {
            Seq::<(Seq<char>, Seq<char>)>::empty()
        };
        here + build_query(fields, slots, segs, i + 1)
    }
}

/// The rendered `k=v` pairs from position `i` on, `&`-separated.
pub open spec fn render_pairs(ps: Seq<(Seq<char>, Seq<char>)>, i: int) -> Seq<char>
    decreases ps.len() - i,
{
    if i < 0 || i >= ps.len() {
        Seq::<char>::empty()
    } else {
        (if i > 0 {
            seq!['&']
        } else {
            Seq::<char>::empty()
        }) + ps[i].0 + seq!['='] + ps[i].1 + render_pairs(ps, i + 1)
    }
}

/// The rendered query string: nothing at all when there are no pairs,
/// else `?` and the pairs.
pub open spec fn render_query(ps: Seq<(Seq<char>, Seq<char>)>) -> Seq<char> {
    if ps.len() == 0 {
        Seq::<char>::empty()
    } else {
        seq!['?'] + render_pairs(ps, 0)
    }
}

/// The rendered path of one variant, before nesting: its fragments each
/// behind a `/`, then the sorted query; an empty result normalizes to
/// the root `/`. A variant without a path renders the root.
pub open spec fn spec_build_variant_path(vs: VariantSpec, slots: Seq<Option<FieldValV>>) -> Seq<
    char,
> {
    match vs.kind.path_view() {
        None => seq!['/'],
        Some(p) => {
            let segs = spec_parse_segments(p);
            let s = join_slash(build_frags(segs, vs.fields@, slots, 0)) + render_query(
                sort_by_key(build_query(vs.fields@, slots, segs, 0)),
            );
            if s.len() == 0 {
                seq!['/']
            } else {
                s
            }
        },
    }
}

/// The canonical URL of a route value: the variant's own rendered path,
/// joined, for a nesting variant, with the nested value's own URL.
pub open spec fn spec_build_path(t: RouteTable, v: RouteValView) -> Seq<char>
    decreases v,
{
    if 0 <= v.variant < t.variants@.len() {
        let vs = t.variants@[v.variant];
        let own = spec_build_variant_path(vs, v.slots);
        if vs.kind.is_nesting() && v.nested is Some {
            spec_combine_paths(own, spec_build_path(vs.kind.nested_table(), *v.nested->Some_0))
        } else {
            own
        }
    } else {
        seq!['/']
    }
}

/// Render one field value canonically.
fn render_value(x: &FieldValue) -> (r: Vec<char>)
    ensures
        r@ == x@.render(),
{
    match x {
        FieldValue::UInt(n) => u64_to_dec(*n),
        FieldValue::Text(s) => str_to_chars(s.as_str()),
    }
}

/// Render the pattern's fragments from a variant's slots.
fn render_frags(segs: &Vec<Segment>, fields: &Vec<crate::model::FieldSpec>, slots: &Vec<
    Option<FieldValue>,
>) -> (r: Vec<Vec<char>>)
    requires
        slots@.len() == fields@.len(),
    ensures
        views(r@) == build_frags(seg_views(segs@), fields@, slot_views(slots@), 0),
{
    let ghost sv = seg_views(segs@);
    let ghost slv = slot_views(slots@);
    let mut r: Vec<Vec<char>> = Vec::new();
    let mut i: usize = 0;
    while i < segs.len()
        invariant
            i <= segs@.len(),
            sv == seg_views(segs@),
            slv == slot_views(slots@),
            slv.len() == slots@.len(),
            slots@.len() == fields@.len(),
            views(r@) + build_frags(sv, fields@, slv, i as int) == build_frags(
                sv,
                fields@,
                slv,
                0,
            ),
        decreases segs@.len() - i,
    {
        proof {
            assert(sv[i as int] == segs@[i as int]@);
        }
        match &segs[i] {
            Segment::Static(t) => {
                let tc = str_to_chars(t.as_str());
                r.push(tc);
            },
            Segment::Param(n) => {
                match find_field_pos(fields, n) {
                    Some(j) => {
                        proof {
                            assert(slv[j as int] == (match slots@[j as int] {
                                Some(x) => Some(x@),
                                None => None::<FieldValV>,
                            }));
                        }
                        if j < slots.len() {
                            match &slots[j] {
                                Some(x) => {
                                    let rv = render_value(x);
                                    r.push(rv);
                                },
                                None => {},
                            }
                        }
                    },
                    None => {
                        proof {
                            crate::validate::lemma_field_idx_props(fields@, n@);
                            assert(slot_at(slv, field_idx(fields@, n@)) is None);
                        }
                    },
                }
            },
            Segment::OptionalParam(n) => {
                match find_field_pos(fields, n) {
                    Some(j) => {
                        proof {
                            assert(slv[j as int] == (match slots@[j as int] {
                                Some(x) => Some(x@),
                                None => None::<FieldValV>,
                            }));
                        }
                        if j < slots.len() {
                            match &slots[j] {
                                Some(x) => {
                                    let rv = render_value(x);
                                    r.push(rv);
                                },
                                None => {},
                            }
                        }
                    },
                    None => {
                        proof {
                            crate::validate::lemma_field_idx_props(fields@, n@);
                            assert(slot_at(slv, field_idx(fields@, n@)) is None);
                        }
                    },
                }
            },
        }
        i = i + 1;
        proof {
            assert(views(r@) + build_frags(sv, fields@, slv, i as int) =~~= build_frags(
                sv,
                fields@,
                slv,
                0,
            ));
        }
    }
    proof {
        assert(build_frags(sv, fields@, slv, segs@.len() as int) =~~= Seq::<Seq<char>>::empty());
        assert(views(r@) =~~= build_frags(sv, fields@, slv, 0));
    }
    r
}

/// Collect the query pairs of a variant's unused optional fields.
fn render_query_pairs(fields: &Vec<crate::model::FieldSpec>, slots: &Vec<Option<FieldValue>>, segs: &Vec<
    Segment,
>) -> (r: Vec<(Vec<char>, Vec<char>)>)
    requires
        slots@.len() == fields@.len(),
    ensures
        pair_views(r@) == build_query(fields@, slot_views(slots@), seg_views(segs@), 0),
{
    let ghost sv = seg_views(segs@);
    let ghost slv = slot_views(slots@);
    let mut r: Vec<(Vec<char>, Vec<char>)> = Vec::new();
    let mut i: usize = 0;
    while i < fields.len()
        invariant
            i <= fields@.len(),
            slots@.len() == fields@.len(),
            sv == seg_views(segs@),
            slv == slot_views(slots@),
            pair_views(r@) + build_query(fields@, slv, sv, i as int) == build_query(
                fields@,
                slv,
                sv,
                0,
            ),
        decreases fields@.len() - i,
    {
        proof {
            assert(slv[i as int] == (match slots@[i as int] {
                Some(x) => Some(x@),
                None => None::<FieldValV>,
            }));
        }
        let used = segs_use_name(segs, &fields[i].name);
        if !used && fields[i].optional {
            match &slots[i] {
                Some(x) => {
                    let key = str_to_chars(fields[i].name.as_str());
                    let rv = render_value(x);
                    r.push((key, rv));
                },
                None => {},
            }
        }
        i = i + 1;
        proof {
            assert(pair_views(r@) + build_query(fields@, slv, sv, i as int) =~~= build_query(
                fields@,
                slv,
                sv,
                0,
            ));
        }
    }
    proof {
        assert(build_query(fields@, slv, sv, fields@.len() as int) =~~= Seq::<(
            Seq<char>,
            Seq<char>,
        )>::empty());
        assert(pair_views(r@) =~~= build_query(fields@, slv, sv, 0));
    }
    r
}

/// Render sorted query pairs behind a `?`, `&`-separated, onto `out`.
fn append_query(out: &mut Vec<char>, pairs: &Vec<(Vec<char>, Vec<char>)>)
    ensures
        final(out)@ == old(out)@ + render_query(pair_views(pairs@)),
{
    let ghost qv = pair_views(pairs@);
    if pairs.len() == 0 {
        proof {
            assert(out@ =~= old(out)@ + render_query(qv));
        }
        return ;
    }
    let ghost base = out@;
    out.push('?');
    let mut i: usize = 0;
    proof {
        assert(out@ =~= base + seq!['?']);
    }
    while i < pairs.len()
        invariant
            i <= pairs@.len(),
            qv == pair_views(pairs@),
            qv.len() > 0,
            out@ + render_pairs(qv, i as int) == base + seq!['?'] + render_pairs(qv, 0),
        decreases pairs@.len() - i,
    {
        proof {
            assert(qv[i as int] == (pairs@[i as int].0@, pairs@[i as int].1@));
        }
        if i > 0 {
            out.push('&');
        }
        let ghost mark = out@;
        let mut j: usize = 0;
        while j < pairs[i].0.len()
            invariant
                i < pairs@.len(),
                j <= pairs@[i as int].0@.len(),
                out@ == mark + pairs@[i as int].0@.take(j as int),
            decreases pairs@[i as int].0@.len() - j,
        {
            let c = pairs[i].0[j];
            out.push(c);
            j = j + 1;
            proof {
                assert(out@ =~= mark + pairs@[i as int].0@.take(j as int));
            }
        }
        out.push('=');
        let ghost mark2 = out@;
        let mut j: usize = 0;
        while j < pairs[i].1.len()
            invariant
                i < pairs@.len(),
                j <= pairs@[i as int].1@.len(),
                out@ == mark2 + pairs@[i as int].1@.take(j as int),
            decreases pairs@[i as int].1@.len() - j,
        {
            let c = pairs[i].1[j];
            out.push(c);
            j = j + 1;
            proof {
                assert(out@ =~= mark2 + pairs@[i as int].1@.take(j as int));
            }
        }
        proof {
            assert(pairs@[i as int].0@.take(pairs@[i as int].0@.len() as int) =~= pairs@[i as int].0@);
            assert(pairs@[i as int].1@.take(pairs@[i as int].1@.len() as int) =~= pairs@[i as int].1@);
            assert(out@ =~= mark2 + pairs@[i as int].1@);
        }
        i = i + 1;
        proof {
            assert(out@ + render_pairs(qv, i as int) =~= base + seq!['?'] + render_pairs(qv, 0));
        }
    }
    proof {
        assert(render_pairs(qv, pairs@.len() as int) =~= Seq::<char>::empty());
        assert(out@ =~= base + render_query(qv));
    }
}

/// Render a route value as its canonical URL string. Static segments are
/// emitted verbatim, parameters by their canonical string form, absent
/// optional parameters contribute nothing, set unused optional fields
/// become a `?k=v&...` query sorted by key, an empty result is the root
/// `/`, and a nesting variant's prefix is joined with its nested value's
/// own URL.
pub fn build_path(t: &RouteTable, v: &RouteValue) -> (r: String)
    requires
        crate::value::value_wf(*t, v@),
    ensures
        r@ == spec_build_path(*t, v@),
    decreases *v,
{
    let ghost vs = t.variants@[v.variant as int];
    let vref = &t.variants[v.variant];
    let own: String;
    match kind_path_build(&vref.kind) {
        None => {
            let mut root: Vec<char> = Vec::new();
            root.push('/');
            own = chars_to_string(&root);
            proof {
                assert(own@ =~= seq!['/']);
            }
        },
        Some(p) => {
            let segs = parse_segments(p.as_str());
            let frags = render_frags(&segs, &vref.fields, &v.slots);
            let mut out = join_with_slash(&frags);
            let pairs = render_query_pairs(&vref.fields, &v.slots, &segs);
            let sorted = sort_pairs(pairs);
            append_query(&mut out, &sorted);
            if out.len() == 0 {
                out.push('/');
                proof {
                    assert(out@ =~= seq!['/']);
                }
            }
            own = chars_to_string(&out);
        },
    }
    proof {
        assert(own@ == spec_build_variant_path(vs, v@.slots));
    }
    match (&vref.kind, &v.nested) {
        (RouteKind::Parent { table, .. }, Some(b)) => {
            let nested_str = build_path(table, b);
            combine_paths(own.as_str(), nested_str.as_str())
        },
        (RouteKind::ProtectedParent { table, .. }, Some(b)) => {
            let nested_str = build_path(table, b);
            combine_paths(own.as_str(), nested_str.as_str())
        },
        _ => {
            proof {
                assert(!(vs.kind.is_nesting() && v@.nested is Some));
            }
            own
        },
    }
}

/// The path pattern of a kind, if it has one.
fn kind_path_build<'a>(k: &'a RouteKind) -> (r: Option<&'a String>)
    ensures
        match r {
            Some(p) => k.path_view() == Some(p@),
            None => k.path_view() is None,
        },
{
    match k {
        RouteKind::Leaf { path } => Some(path),
        RouteKind::Parent { path, .. } => Some(path),
        RouteKind::Protected { path, .. } => Some(path),
        RouteKind::ProtectedParent { path, .. } => Some(path),
        RouteKind::Unrouted => None,
    }
}

} // verus!
