//! The segment grammar: a route path string is an ordered list of
//! `/`-separated segments, each either static text, a required parameter
//! (`:name`) or an optional parameter (`:name?`).

use vstd::prelude::*;
use crate::strutil::{chars_range, chars_to_string, split_all, split_frags, str_to_chars, views};

verus! {

/// One `/`-delimited unit of a path pattern.
#[derive(Clone, Debug)]
pub enum Segment {
    /// Literal text that the corresponding path fragment must equal.
    Static(String),
    /// A required parameter, bound to the field of the same name.
    Param(String),
    /// An optional parameter; its fragment may be absent.
    OptionalParam(String),
}

/// The mathematical shape of a segment.
pub enum SegView {
    Static(Seq<char>),
    Param(Seq<char>),
    OptionalParam(Seq<char>),
}

impl View for Segment {
    type V = SegView;

    open spec fn view(&self) -> SegView {
        match self {
            Segment::Static(t) => SegView::Static(t@),
            Segment::Param(n) => SegView::Param(n@),
            Segment::OptionalParam(n) => SegView::OptionalParam(n@),
        }
    }
}

impl SegView {
    /// The text of a static segment, or the name of a parameter segment.
    pub open spec fn text(self) -> Seq<char> {
        match self {
            SegView::Static(t) => t,
            SegView::Param(n) => n,
            SegView::OptionalParam(n) => n,
        }
    }
}

/// The views of a vector of segments.
pub open spec fn seg_views(v: Seq<Segment>) -> Seq<SegView> {
    v.map_values(|s: Segment| s@)
}

/// Drop every leading colon, as the grammar does when it reads a
/// parameter name out of a fragment.
pub open spec fn trim_colons(f: Seq<char>) -> Seq<char>
    decreases f.len(),
{
    if f.len() > 0 && f[0] == ':' {
        trim_colons(f.drop_first())
    } else {
        f
    }
}

/// Read one fragment: a leading `:` makes a parameter (optional when a
/// trailing `?` is present), other non-empty text is static, and an empty
/// fragment is no segment at all.
pub open spec fn seg_of_frag(f: Seq<char>) -> Option<SegView> {
    if f.len() > 0 && f[0] == ':' {
        if f.last() == '?' {
            Some(SegView::OptionalParam(trim_colons(f.drop_last())))
        } else {
            Some(SegView::Param(trim_colons(f)))
        }
    } else if f.len() > 0 {
        Some(SegView::Static(f))
    } else {
        None
    }
}

/// The segments read out of a fragment list, in order.
pub open spec fn segs_of_frags(fr: Seq<Seq<char>>) -> Seq<SegView>
    decreases fr.len(),
{
    if fr.len() == 0 {
        Seq::<SegView>::empty()
    } else {
        let rest = segs_of_frags(fr.drop_last());
        match seg_of_frag(fr.last()) {
            Some(s) => rest.push(s),
            None => rest,
        }
    }
}

/// The segment list denoted by a path string.
pub open spec fn spec_parse_segments(s: Seq<char>) -> Seq<SegView> {
    segs_of_frags(split_frags(s, '/'))
}

/// Strip the leading colons of a fragment.
fn trim_colons_exec(f: &Vec<char>) -> (r: Vec<char>)
    ensures
        r@ == trim_colons(f@),
{
    let mut i: usize = 0;
    proof {
        assert(f@.skip(0) =~= f@);
    }
    while i < f.len() && f[i] == ':'
        invariant
            i <= f@.len(),
            trim_colons(f@) == trim_colons(f@.skip(i as int)),
        decreases f@.len() - i,
    {
        proof {
            assert(f@.skip(i as int).drop_first() =~= f@.skip(i + 1));
        }
        i = i + 1;
    }
    let r = chars_range(f, i, f.len());
    proof {
        assert(f@.subrange(i as int, f@.len() as int) =~= f@.skip(i as int));
        if i < f@.len() {
            assert(f@.skip(i as int)[0] == f@[i as int]);
        }
    }
    r
}

/// Tokenize a route path string into its ordered segment list. Leading,
/// trailing and doubled slashes contribute no segments; malformed
/// parameter fragments degrade to a parameter with an empty name, which
/// validation later rejects for want of a matching field.
pub fn parse_segments(route: &str) -> (r: Vec<Segment>)
    ensures
        seg_views(r@) == spec_parse_segments(route@),
{
    let chars = str_to_chars(route);
    let frags = split_all(&chars, '/');
    let mut r: Vec<Segment> = Vec::new();
    let mut i: usize = 0;
    proof {
        assert(views(frags@).take(0) =~= Seq::<Seq<char>>::empty());
        assert(seg_views(r@) =~= segs_of_frags(views(frags@).take(0)));
    }
    while i < frags.len()
        invariant
            i <= frags@.len(),
            seg_views(r@) == segs_of_frags(views(frags@).take(i as int)),
        decreases frags@.len() - i,
    {
        proof {
            assert(views(frags@).take(i + 1).drop_last() =~= views(frags@).take(i as int));
            assert(views(frags@).take(i + 1).last() == frags@[i as int]@);
        }
        let f = &frags[i];
        if f.len() > 0 && f[0] == ':' {
            if f[f.len() - 1] == '?' {
                let body = chars_range(f, 0, f.len() - 1);
                proof {
                    assert(body@ =~= frags@[i as int]@.drop_last());
                }
                let name = trim_colons_exec(&body);
                r.push(Segment::OptionalParam(chars_to_string(&name)));
            } else {
                let name = trim_colons_exec(f);
                r.push(Segment::Param(chars_to_string(&name)));
            }
        } else if f.len() > 0 {
            r.push(Segment::Static(chars_to_string(f)));
        }
        proof {
            assert(seg_views(r@) =~= segs_of_frags(views(frags@).take(i + 1)));
        }
        i = i + 1;
    }
    proof {
        assert(views(frags@).take(frags@.len() as int) =~= views(frags@));
    }
    r
}

} // verus!
